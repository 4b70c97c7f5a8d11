//! The token ledger: how many units of each local token every holder owns.
//!
//! A non-fungible asset has at most one live local unit; the bridge enforces
//! that by burning on send and minting on receive or revert, never by a
//! balance check alone. The ledger itself is a plain keyed store of amounts.

use vstd::prelude::*;

verus! {

/// One holder's balance of one local token.
#[derive(Clone, Debug, PartialEq, Eq)]
pub struct TokenBalance {
    pub mint: Vec<u8>,
    pub owner: Vec<u8>,
    pub amount: u64,
}

/// All balances of one chain, keyed by (mint, owner).
#[derive(Clone, Debug, PartialEq, Eq)]
pub struct TokenLedger {
    pub accounts: Vec<TokenBalance>,
}

impl TokenLedger {
    /// Well-formed: one entry per (mint, owner) pair.
    pub open spec fn wf(self) -> bool {
        forall|i: int, j: int|
            0 <= i < self.accounts@.len() && 0 <= j < self.accounts@.len() && i != j
                ==> !(self.accounts@[i].mint@ == self.accounts@[j].mint@ && self.accounts@[i].owner@
                == self.accounts@[j].owner@)
    }

    /// Whether an entry exists for (mint, owner).
    pub open spec fn has_account(self, mint: Seq<u8>, owner: Seq<u8>) -> bool {
        exists|i: int|
            0 <= i < self.accounts@.len() && (#[trigger] self.accounts@[i]).mint@ == mint
                && self.accounts@[i].owner@ == owner
    }

    /// The position of the entry for (mint, owner); meaningful under
    /// [`Self::wf`] when [`Self::has_account`] holds.
    pub open spec fn account_index(self, mint: Seq<u8>, owner: Seq<u8>) -> int {
        choose|i: int|
            0 <= i < self.accounts@.len() && (#[trigger] self.accounts@[i]).mint@ == mint
                && self.accounts@[i].owner@ == owner
    }

    /// The balance of (mint, owner): the entry's amount, or zero without one.
    pub open spec fn balance_of(self, mint: Seq<u8>, owner: Seq<u8>) -> u64 {
        if self.has_account(mint, owner) {
            self.accounts@[self.account_index(mint, owner)].amount
        } else {
            0
        }
    }

    /// Under well-formedness a (mint, owner) pair occurs at one position
    /// only, so any position holding it is the one [`Self::account_index`]
    /// denotes.
    pub proof fn lemma_account_index_unique(self, mint: Seq<u8>, owner: Seq<u8>, i: int)
        requires
            self.wf(),
            0 <= i < self.accounts@.len(),
            self.accounts@[i].mint@ == mint,
            self.accounts@[i].owner@ == owner,
        ensures
            self.has_account(mint, owner),
            self.account_index(mint, owner) == i,
    {
        assert(self.has_account(mint, owner));
    }

    /// An empty ledger.
    pub fn new() -> (r: TokenLedger)
        ensures
            r.accounts@.len() == 0,
            r.wf(),
    {
        TokenLedger { accounts: Vec::new() }
    }

    /// Finds the position of the entry for (mint, owner), if any.
    pub fn find(&self, mint: &Vec<u8>, owner: &Vec<u8>) -> (r: Option<usize>)
        ensures
            match r {
                Some(i) => i < self.accounts@.len() && self.accounts@[i as int].mint@ == mint@
                    && self.accounts@[i as int].owner@ == owner@,
                None => !self.has_account(mint@, owner@),
            },
    {
        let n = self.accounts.len();
        let mut i: usize = 0;
        while i < n
            invariant
                n == self.accounts@.len(),
                i <= n,
                forall|j: int|
                    0 <= j < i ==> !((#[trigger] self.accounts@[j]).mint@ == mint@
                        && self.accounts@[j].owner@ == owner@),
            decreases n - i,
        {
            if self.accounts[i].mint == *mint && self.accounts[i].owner == *owner {
                proof {
                    assert(self.accounts@[i as int].mint@ =~= mint@);
                    assert(self.accounts@[i as int].owner@ =~= owner@);
                }
                return Some(i);
            }
            proof {
                if self.accounts@[i as int].mint@ == mint@ && self.accounts@[i as int].owner@
                    == owner@ {
                    assert(self.accounts@[i as int].mint =~= *mint);
                    assert(self.accounts@[i as int].owner =~= *owner);
                }
            }
            i += 1;
        }
        None
    }

    /// The balance of (mint, owner).
    pub fn balance(&self, mint: &Vec<u8>, owner: &Vec<u8>) -> (r: u64)
        requires
            self.wf(),
        ensures
            r == self.balance_of(mint@, owner@),
    {
        match self.find(mint, owner) {
            Some(i) => {
                proof {
                    self.lemma_account_index_unique(mint@, owner@, i as int);
                }
                self.accounts[i].amount
            },
            None => 0,
        }
    }

    /// Mints one unit of `mint` to `owner`; no other balance changes.
    pub fn mint_to(&mut self, mint: Vec<u8>, owner: Vec<u8>)
        requires
            old(self).wf(),
            old(self).balance_of(mint@, owner@) < u64::MAX,
        ensures
            final(self).wf(),
            final(self).balance_of(mint@, owner@) == old(self).balance_of(mint@, owner@) + 1,
            forall|m: Seq<u8>, o: Seq<u8>|
                !(m == mint@ && o == owner@) ==> final(self).balance_of(m, o) == old(
                    self,
                ).balance_of(m, o),
    {
        let ghost pre = *self;
        match self.find(&mint, &owner) {
            Some(i) => {
                proof {
                    pre.lemma_account_index_unique(mint@, owner@, i as int);
                }
                let amount = self.accounts[i].amount;
                self.accounts[i].amount = amount + 1;
                proof {
                    self.lemma_frame_after_update(pre, i as int);
                    self.lemma_account_index_unique(mint@, owner@, i as int);
                }
            },
            None => {
                self.accounts.push(TokenBalance { mint, owner, amount: 1 });
                let ghost n = pre.accounts@.len() as int;
                proof {
                    assert forall|a: int, b: int|
                        0 <= a < self.accounts@.len() && 0 <= b < self.accounts@.len() && a != b
                            implies !(self.accounts@[a].mint@ == self.accounts@[b].mint@
                            && self.accounts@[a].owner@ == self.accounts@[b].owner@) by {
                        if a < n && b < n {
                            assert(!(pre.accounts@[a].mint@ == pre.accounts@[b].mint@
                                && pre.accounts@[a].owner@ == pre.accounts@[b].owner@));
                        }
                    }
                    self.lemma_account_index_unique(mint@, owner@, n);
                    assert forall|m: Seq<u8>, o: Seq<u8>|
                        !(m == mint@ && o == owner@) implies self.balance_of(m, o)
                        == pre.balance_of(m, o) by {
                        if pre.has_account(m, o) {
                            let k = pre.account_index(m, o);
                            self.lemma_account_index_unique(m, o, k);
                        } else {
                            if self.has_account(m, o) {
                                let k = self.account_index(m, o);
                                assert(pre.accounts@[k].mint@ == m);
                            }
                        }
                    }
                }
            },
        }
    }

    /// Burns one unit of `mint` held by `owner`; no other balance changes.
    pub fn burn(&mut self, mint: &Vec<u8>, owner: &Vec<u8>)
        requires
            old(self).wf(),
            old(self).balance_of(mint@, owner@) >= 1,
        ensures
            final(self).wf(),
            final(self).balance_of(mint@, owner@) == old(self).balance_of(mint@, owner@) - 1,
            forall|m: Seq<u8>, o: Seq<u8>|
                !(m == mint@ && o == owner@) ==> final(self).balance_of(m, o) == old(
                    self,
                ).balance_of(m, o),
    {
        let ghost pre = *self;
        match self.find(mint, owner) {
            Some(i) => {
                proof {
                    pre.lemma_account_index_unique(mint@, owner@, i as int);
                }
                let amount = self.accounts[i].amount;
                self.accounts[i].amount = amount - 1;
                proof {
                    self.lemma_frame_after_update(pre, i as int);
                    self.lemma_account_index_unique(mint@, owner@, i as int);
                }
            },
            None => {
                proof {
                    assert(false);
                }
            },
        }
    }

    /// After an amount-only update at one position, every other pair's
    /// balance is what it was, and the store stays well-formed.
    proof fn lemma_frame_after_update(self, pre: TokenLedger, i: int)
        requires
            pre.wf(),
            0 <= i < pre.accounts@.len(),
            self.accounts@.len() == pre.accounts@.len(),
            forall|j: int| 0 <= j < pre.accounts@.len() && j != i ==> self.accounts@[j]
                == pre.accounts@[j],
            self.accounts@[i].mint@ == pre.accounts@[i].mint@,
            self.accounts@[i].owner@ == pre.accounts@[i].owner@,
        ensures
            self.wf(),
            forall|m: Seq<u8>, o: Seq<u8>|
                !(m == pre.accounts@[i].mint@ && o == pre.accounts@[i].owner@) ==> self.balance_of(
                    m,
                    o,
                ) == pre.balance_of(m, o),
    {
        assert forall|a: int, b: int|
            0 <= a < self.accounts@.len() && 0 <= b < self.accounts@.len() && a != b
                implies !(self.accounts@[a].mint@ == self.accounts@[b].mint@
                && self.accounts@[a].owner@ == self.accounts@[b].owner@) by {
            assert(!(pre.accounts@[a].mint@ == pre.accounts@[b].mint@ && pre.accounts@[a].owner@
                == pre.accounts@[b].owner@));
        }
        assert forall|m: Seq<u8>, o: Seq<u8>|
            !(m == pre.accounts@[i].mint@ && o == pre.accounts@[i].owner@) implies self.balance_of(
            m,
            o,
        ) == pre.balance_of(m, o) by {
            if pre.has_account(m, o) {
                let k = pre.account_index(m, o);
                assert(k != i);
                self.lemma_account_index_unique(m, o, k);
            } else {
                if self.has_account(m, o) {
                    let k = self.account_index(m, o);
                    assert(k != i);
                    assert(pre.accounts@[k].mint@ == m);
                }
            }
        }
    }
}

} // verus!
