//! The outbound-transfer ledger: one entry per initiated send, keyed by
//! (asset, initiator).
//!
//! An entry is opened when the asset is locked for a transfer and its
//! `completed` flag becomes true exactly once — by the revert path, or when
//! an inbound delivery of the same asset supersedes it. The checks here are
//! the sole guard against double-processing a relayed callback: completing or
//! reverting a transfer twice fails, as does opening a second transfer while
//! one is in flight.

use crate::codec::CrossChainMessage;
use crate::error::ErrorCode;
use vstd::prelude::*;

verus! {

/// One in-flight (or settled) outbound transfer.
///
/// `message` is the envelope that was dispatched; `user` the 32-byte
/// initiator; `timestamp` when the send happened; `completed` whether the
/// transfer has been confirmed or reverted.
#[derive(Clone, Debug, PartialEq, Eq)]
pub struct OutboundTransfer {
    pub message: CrossChainMessage,
    pub user: Vec<u8>,
    pub timestamp: i64,
    pub completed: bool,
}

impl OutboundTransfer {
    /// The asset this transfer moves: its message's mint.
    pub open spec fn mint(self) -> Seq<u8> {
        self.message.mint@
    }

    /// Whether the transfer is still awaiting confirmation or revert.
    pub open spec fn is_open(self) -> bool {
        !self.completed
    }
}

/// The store of all outbound transfers of one chain.
#[derive(Clone, Debug, PartialEq, Eq)]
pub struct OutboundLedger {
    pub entries: Vec<OutboundTransfer>,
}

impl OutboundLedger {
    /// Well-formed: one entry per (asset, initiator) pair, and at most one
    /// open entry per asset — an asset has at most one transfer in flight.
    pub open spec fn wf(self) -> bool {
        &&& forall|i: int, j: int|
            0 <= i < self.entries@.len() && 0 <= j < self.entries@.len() && i != j
                ==> !(self.entries@[i].mint() == self.entries@[j].mint() && self.entries@[i].user@
                == self.entries@[j].user@)
        &&& forall|i: int, j: int|
            0 <= i < self.entries@.len() && 0 <= j < self.entries@.len()
                && (#[trigger] self.entries@[i]).is_open() && (#[trigger] self.entries@[j]).is_open()
                && self.entries@[i].mint() == self.entries@[j].mint() ==> i == j
    }

    /// Whether an entry exists for (mint, user).
    pub open spec fn has_entry(self, mint: Seq<u8>, user: Seq<u8>) -> bool {
        exists|i: int|
            0 <= i < self.entries@.len() && (#[trigger] self.entries@[i]).mint() == mint
                && self.entries@[i].user@ == user
    }

    /// The position of the entry for (mint, user); meaningful under
    /// [`Self::wf`] when [`Self::has_entry`] holds.
    pub open spec fn entry_index(self, mint: Seq<u8>, user: Seq<u8>) -> int {
        choose|i: int|
            0 <= i < self.entries@.len() && (#[trigger] self.entries@[i]).mint() == mint
                && self.entries@[i].user@ == user
    }

    /// The entry for (mint, user).
    pub open spec fn entry_for(self, mint: Seq<u8>, user: Seq<u8>) -> OutboundTransfer {
        self.entries@[self.entry_index(mint, user)]
    }

    /// Whether some transfer of `mint` is still open.
    pub open spec fn has_open_for(self, mint: Seq<u8>) -> bool {
        exists|i: int|
            0 <= i < self.entries@.len() && (#[trigger] self.entries@[i]).is_open()
                && self.entries@[i].mint() == mint
    }

    /// The position of the open transfer of `mint`; meaningful under
    /// [`Self::wf`] when [`Self::has_open_for`] holds.
    pub open spec fn open_index_for(self, mint: Seq<u8>) -> int {
        choose|i: int|
            0 <= i < self.entries@.len() && (#[trigger] self.entries@[i]).is_open()
                && self.entries@[i].mint() == mint
    }

    /// Under well-formedness a (mint, user) pair occurs at one position
    /// only, so any position holding it is the one [`Self::entry_index`]
    /// denotes.
    pub proof fn lemma_entry_index_unique(self, mint: Seq<u8>, user: Seq<u8>, i: int)
        requires
            self.wf(),
            0 <= i < self.entries@.len(),
            self.entries@[i].mint() == mint,
            self.entries@[i].user@ == user,
        ensures
            self.has_entry(mint, user),
            self.entry_index(mint, user) == i,
    {
        assert(self.has_entry(mint, user));
    }

    /// Under well-formedness an asset has at most one open transfer, so any
    /// position holding one is the one [`Self::open_index_for`] denotes.
    pub proof fn lemma_open_index_unique(self, mint: Seq<u8>, i: int)
        requires
            self.wf(),
            0 <= i < self.entries@.len(),
            self.entries@[i].is_open(),
            self.entries@[i].mint() == mint,
        ensures
            self.has_open_for(mint),
            self.open_index_for(mint) == i,
    {
        assert(self.has_open_for(mint));
    }

    /// An empty ledger.
    pub fn new() -> (r: OutboundLedger)
        ensures
            r.entries@.len() == 0,
            r.wf(),
    {
        OutboundLedger { entries: Vec::new() }
    }

    /// Finds the position of the entry for (mint, user), if any.
    pub fn find(&self, mint: &Vec<u8>, user: &Vec<u8>) -> (r: Option<usize>)
        ensures
            match r {
                Some(i) => i < self.entries@.len() && self.entries@[i as int].mint() == mint@
                    && self.entries@[i as int].user@ == user@,
                None => !self.has_entry(mint@, user@),
            },
    {
        let n = self.entries.len();
        let mut i: usize = 0;
        while i < n
            invariant
                n == self.entries@.len(),
                i <= n,
                forall|j: int|
                    0 <= j < i ==> !((#[trigger] self.entries@[j]).mint() == mint@
                        && self.entries@[j].user@ == user@),
            decreases n - i,
        {
            if self.entries[i].message.mint == *mint && self.entries[i].user == *user {
                proof {
                    assert(self.entries@[i as int].mint() =~= mint@);
                    assert(self.entries@[i as int].user@ =~= user@);
                }
                return Some(i);
            }
            proof {
                if self.entries@[i as int].mint() == mint@ && self.entries@[i as int].user@
                    == user@ {
                    assert(self.entries@[i as int].message.mint =~= *mint);
                    assert(self.entries@[i as int].user =~= *user);
                }
            }
            i += 1;
        }
        None
    }

    /// Finds the position of the open transfer of `mint`, if any.
    pub fn find_open(&self, mint: &Vec<u8>) -> (r: Option<usize>)
        ensures
            match r {
                Some(i) => i < self.entries@.len() && self.entries@[i as int].is_open()
                    && self.entries@[i as int].mint() == mint@,
                None => !self.has_open_for(mint@),
            },
    {
        let n = self.entries.len();
        let mut i: usize = 0;
        while i < n
            invariant
                n == self.entries@.len(),
                i <= n,
                forall|j: int|
                    0 <= j < i ==> !((#[trigger] self.entries@[j]).is_open()
                        && self.entries@[j].mint() == mint@),
            decreases n - i,
        {
            if !self.entries[i].completed && self.entries[i].message.mint == *mint {
                proof {
                    assert(self.entries@[i as int].mint() =~= mint@);
                }
                return Some(i);
            }
            proof {
                if self.entries@[i as int].is_open() && self.entries@[i as int].mint() == mint@ {
                    assert(self.entries@[i as int].message.mint =~= *mint);
                }
            }
            i += 1;
        }
        None
    }

    /// Opens a transfer: fails with [`ErrorCode::NftAlreadyLocked`] — and
    /// changes nothing — exactly when its asset already has an open transfer.
    /// On success the entry stands in the ledger open; a settled entry of the
    /// same (mint, user) pair is replaced, otherwise the entry is appended.
    pub fn open(&mut self, t: OutboundTransfer) -> (r: Result<(), ErrorCode>)
        requires
            old(self).wf(),
            t.is_open(),
        ensures
            final(self).wf(),
            old(self).has_open_for(t.mint()) ==> r == Err::<(), ErrorCode>(
                ErrorCode::NftAlreadyLocked,
            ) && *final(self) == *old(self),
            !old(self).has_open_for(t.mint()) ==> r == Ok::<(), ErrorCode>(()) && (if old(
                self,
            ).has_entry(t.mint(), t.user@) {
                final(self).entries@ == old(self).entries@.update(
                    old(self).entry_index(t.mint(), t.user@),
                    t,
                )
            } else {
                final(self).entries@ == old(self).entries@.push(t)
            }),
            !old(self).has_open_for(t.mint()) ==> final(self).has_open_for(t.mint())
                && final(self).entry_for(t.mint(), t.user@) == t,
    {
        let ghost pre = *self;
        match self.find_open(&t.message.mint) {
            Some(_) => Err(ErrorCode::NftAlreadyLocked),
            None => {
                match self.find(&t.message.mint, &t.user) {
                    Some(i) => {
                        proof {
                            pre.lemma_entry_index_unique(t.mint(), t.user@, i as int);
                        }
                        self.entries[i] = t;
                        proof {
                            self.lemma_wf_after_open(pre, i as int, t);
                            self.lemma_entry_index_unique(t.mint(), t.user@, i as int);
                            assert(self.has_open_for(t.mint()));
                        }
                    },
                    None => {
                        self.entries.push(t);
                        let ghost n = pre.entries@.len() as int;
                        proof {
                            self.lemma_wf_after_open(pre, n, t);
                            self.lemma_entry_index_unique(t.mint(), t.user@, n);
                            assert(self.has_open_for(t.mint()));
                        }
                    },
                }
                Ok(())
            },
        }
    }

    /// Appending or overwriting with an open entry keeps the ledger
    /// well-formed, provided its asset had no open transfer and an
    /// overwritten entry had the same key.
    proof fn lemma_wf_after_open(self, pre: OutboundLedger, i: int, t: OutboundTransfer)
        requires
            pre.wf(),
            !pre.has_open_for(t.mint()),
            0 <= i <= pre.entries@.len(),
            i < pre.entries@.len() ==> self.entries@ == pre.entries@.update(i, t)
                && pre.entries@[i].mint() == t.mint() && pre.entries@[i].user@ == t.user@,
            i == pre.entries@.len() ==> self.entries@ == pre.entries@.push(t)
                && !pre.has_entry(t.mint(), t.user@),
        ensures
            self.wf(),
    {
        assert forall|a: int, b: int|
            0 <= a < self.entries@.len() && 0 <= b < self.entries@.len() && a != b
                implies !(self.entries@[a].mint() == self.entries@[b].mint()
                && self.entries@[a].user@ == self.entries@[b].user@) by {
            if a < pre.entries@.len() && b < pre.entries@.len() {
                assert(!(pre.entries@[a].mint() == pre.entries@[b].mint() && pre.entries@[a].user@
                    == pre.entries@[b].user@));
            }
        }
        assert forall|a: int, b: int|
            0 <= a < self.entries@.len() && 0 <= b < self.entries@.len()
                && (#[trigger] self.entries@[a]).is_open() && (#[trigger] self.entries@[b]).is_open()
                && self.entries@[a].mint() == self.entries@[b].mint() implies a == b by {
            if a != b {
                if a != i && b != i {
                    assert(pre.entries@[a].is_open() && pre.entries@[b].is_open());
                } else if a == i {
                    assert(pre.entries@[b].is_open() && pre.entries@[b].mint() == t.mint());
                } else {
                    assert(pre.entries@[a].is_open() && pre.entries@[a].mint() == t.mint());
                }
            }
        }
    }

    /// Marking one entry completed keeps the ledger well-formed and leaves
    /// every other entry as it was.
    proof fn lemma_wf_after_settle(self, pre: OutboundLedger, i: int)
        requires
            pre.wf(),
            0 <= i < pre.entries@.len(),
            self.entries@ == pre.entries@.update(
                i,
                OutboundTransfer { completed: true, ..pre.entries@[i] },
            ),
        ensures
            self.wf(),
    {
        assert forall|a: int, b: int|
            0 <= a < self.entries@.len() && 0 <= b < self.entries@.len() && a != b
                implies !(self.entries@[a].mint() == self.entries@[b].mint()
                && self.entries@[a].user@ == self.entries@[b].user@) by {
            assert(!(pre.entries@[a].mint() == pre.entries@[b].mint() && pre.entries@[a].user@
                == pre.entries@[b].user@));
        }
        assert forall|a: int, b: int|
            0 <= a < self.entries@.len() && 0 <= b < self.entries@.len()
                && (#[trigger] self.entries@[a]).is_open() && (#[trigger] self.entries@[b]).is_open()
                && self.entries@[a].mint() == self.entries@[b].mint() implies a == b by {
            assert(pre.entries@[a].is_open() && pre.entries@[b].is_open());
        }
    }

    /// Marks the transfer of (mint, user) completed. Fails with
    /// [`ErrorCode::NotFound`] when no such transfer exists, and with
    /// [`ErrorCode::AlreadyCompleted`] when it was already settled — the
    /// guard against double-processing; a failure changes nothing.
    pub fn complete(&mut self, mint: &Vec<u8>, user: &Vec<u8>) -> (r: Result<(), ErrorCode>)
        requires
            old(self).wf(),
        ensures
            final(self).wf(),
            !old(self).has_entry(mint@, user@) ==> r == Err::<(), ErrorCode>(ErrorCode::NotFound)
                && *final(self) == *old(self),
            old(self).has_entry(mint@, user@) && old(self).entry_for(mint@, user@).completed ==> r
                == Err::<(), ErrorCode>(ErrorCode::AlreadyCompleted) && *final(self) == *old(self),
            old(self).has_entry(mint@, user@) && !old(self).entry_for(mint@, user@).completed ==> r
                == Ok::<(), ErrorCode>(()) && final(self).entries@ == old(self).entries@.update(
                old(self).entry_index(mint@, user@),
                OutboundTransfer { completed: true, ..old(self).entry_for(mint@, user@) },
            ),
    {
        let ghost pre = *self;
        match self.find(mint, user) {
            None => Err(ErrorCode::NotFound),
            Some(i) => {
                proof {
                    pre.lemma_entry_index_unique(mint@, user@, i as int);
                }
                if self.entries[i].completed {
                    Err(ErrorCode::AlreadyCompleted)
                } else {
                    self.entries[i].completed = true;
                    proof {
                        assert(self.entries@ =~= pre.entries@.update(
                            i as int,
                            OutboundTransfer { completed: true, ..pre.entries@[i as int] },
                        ));
                        self.lemma_wf_after_settle(pre, i as int);
                    }
                    Ok(())
                }
            },
        }
    }

    /// The revert path's ledger step: the same settle-once discipline as
    /// [`Self::complete`], reached when the destination chain reported
    /// failure instead of confirming.
    pub fn revert(&mut self, mint: &Vec<u8>, user: &Vec<u8>) -> (r: Result<(), ErrorCode>)
        requires
            old(self).wf(),
        ensures
            final(self).wf(),
            !old(self).has_entry(mint@, user@) ==> r == Err::<(), ErrorCode>(ErrorCode::NotFound)
                && *final(self) == *old(self),
            old(self).has_entry(mint@, user@) && old(self).entry_for(mint@, user@).completed ==> r
                == Err::<(), ErrorCode>(ErrorCode::AlreadyCompleted) && *final(self) == *old(self),
            old(self).has_entry(mint@, user@) && !old(self).entry_for(mint@, user@).completed ==> r
                == Ok::<(), ErrorCode>(()) && final(self).entries@ == old(self).entries@.update(
                old(self).entry_index(mint@, user@),
                OutboundTransfer { completed: true, ..old(self).entry_for(mint@, user@) },
            ),
    {
        self.complete(mint, user)
    }

    /// Settles the open transfer of `mint`, if one exists: an inbound
    /// delivery of the asset supersedes any transfer of it still in flight,
    /// keeping lock state and ledger in step. Without one, nothing changes.
    pub fn settle_open(&mut self, mint: &Vec<u8>)
        requires
            old(self).wf(),
        ensures
            final(self).wf(),
            !old(self).has_open_for(mint@) ==> *final(self) == *old(self),
            old(self).has_open_for(mint@) ==> final(self).entries@ == old(
                self,
            ).entries@.update(
                old(self).open_index_for(mint@),
                OutboundTransfer {
                    completed: true,
                    ..old(self).entries@[old(self).open_index_for(mint@)]
                },
            ),
            !final(self).has_open_for(mint@),
    {
        let ghost pre = *self;
        match self.find_open(mint) {
            None => {
                proof {
                    assert(!self.has_open_for(mint@));
                }
            },
            Some(i) => {
                proof {
                    pre.lemma_open_index_unique(mint@, i as int);
                }
                self.entries[i].completed = true;
                proof {
                    assert(self.entries@ =~= pre.entries@.update(
                        i as int,
                        OutboundTransfer { completed: true, ..pre.entries@[i as int] },
                    ));
                    self.lemma_wf_after_settle(pre, i as int);
                    if self.has_open_for(mint@) {
                        let k = self.open_index_for(mint@);
                        assert(pre.entries@[k].is_open() && pre.entries@[k].mint() == mint@);
                        assert(pre.open_index_for(mint@) == i);
                        pre.lemma_open_index_unique(mint@, k);
                    }
                }
            },
        }
    }
}

} // verus!
