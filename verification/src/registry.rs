//! The asset registry: one record per non-fungible asset, keyed by its mint.
//!
//! A record survives the asset's travels: it is created at first mint (origin
//! chain) or first wrapped-mint (destination chain) and never deleted, so the
//! chain keeps a history even while the asset lives elsewhere. The registry
//! offers an idempotent upsert and a lock toggle; ordering of lock against
//! burn and mint is the bridge state machine's responsibility.

use vstd::prelude::*;

verus! {

/// One asset's record on this chain.
///
/// `mint` is the asset's 32-byte local identifier; `original_chain` the chain
/// where it was first minted (immutable once set); `token_id` the
/// per-origin-chain sequence number assigned at first mint; `locked` whether
/// an outbound transfer is in flight. The display metadata is opaque bytes.
#[derive(Clone, Debug, PartialEq, Eq)]
pub struct NftRecord {
    pub mint: Vec<u8>,
    pub original_chain: u64,
    pub token_id: u64,
    pub locked: bool,
    pub name: Vec<u8>,
    pub description: Vec<u8>,
    pub image: Vec<u8>,
}

/// The indexed store of all records of one chain, keyed by mint.
#[derive(Clone, Debug, PartialEq, Eq)]
pub struct AssetRegistry {
    pub records: Vec<NftRecord>,
}

impl AssetRegistry {
    /// Well-formed: mints are unique, and every mint has its fixed width.
    pub open spec fn wf(self) -> bool {
        &&& forall|i: int, j: int|
            0 <= i < self.records@.len() && 0 <= j < self.records@.len() && i != j
                ==> self.records@[i].mint@ != self.records@[j].mint@
        &&& forall|i: int| 0 <= i < self.records@.len() ==> (#[trigger] self.records@[i]).mint@.len() == 32
    }

    /// Whether a record exists for `mint`.
    pub open spec fn contains_mint(self, mint: Seq<u8>) -> bool {
        exists|i: int| 0 <= i < self.records@.len() && (#[trigger] self.records@[i]).mint@ == mint
    }

    /// The position of the record for `mint`; meaningful under [`Self::wf`]
    /// when [`Self::contains_mint`] holds.
    pub open spec fn index_of(self, mint: Seq<u8>) -> int {
        choose|i: int| 0 <= i < self.records@.len() && (#[trigger] self.records@[i]).mint@ == mint
    }

    /// The record for `mint`.
    pub open spec fn record_for(self, mint: Seq<u8>) -> NftRecord {
        self.records@[self.index_of(mint)]
    }

    /// Whether the asset is locked for an in-flight outbound transfer.
    pub open spec fn locked_of(self, mint: Seq<u8>) -> bool {
        self.record_for(mint).locked
    }

    /// Under well-formedness a mint occurs at one position only, so any
    /// position holding it is the one [`Self::index_of`] denotes.
    pub proof fn lemma_index_unique(self, mint: Seq<u8>, i: int)
        requires
            self.wf(),
            0 <= i < self.records@.len(),
            self.records@[i].mint@ == mint,
        ensures
            self.contains_mint(mint),
            self.index_of(mint) == i,
    {
        assert(self.contains_mint(mint));
    }

    /// An empty registry.
    pub fn new() -> (r: AssetRegistry)
        ensures
            r.records@.len() == 0,
            r.wf(),
    {
        AssetRegistry { records: Vec::new() }
    }

    /// Finds the position of the record for `mint`, if any.
    pub fn find(&self, mint: &Vec<u8>) -> (r: Option<usize>)
        ensures
            match r {
                Some(i) => i < self.records@.len() && self.records@[i as int].mint@ == mint@,
                None => !self.contains_mint(mint@),
            },
    {
        let n = self.records.len();
        let mut i: usize = 0;
        while i < n
            invariant
                n == self.records@.len(),
                i <= n,
                forall|j: int| 0 <= j < i ==> (#[trigger] self.records@[j]).mint@ != mint@,
            decreases n - i,
        {
            if self.records[i].mint == *mint {
                proof {
                    assert(self.records@[i as int].mint@ =~= mint@);
                }
                return Some(i);
            }
            proof {
                if self.records@[i as int].mint@ == mint@ {
                    assert(self.records@[i as int].mint =~= *mint);
                }
            }
            i += 1;
        }
        None
    }

    /// A reference to the record for `mint`, if any.
    pub fn get(&self, mint: &Vec<u8>) -> (r: Option<&NftRecord>)
        requires
            self.wf(),
        ensures
            match r {
                Some(rec) => self.contains_mint(mint@) && *rec == self.record_for(mint@),
                None => !self.contains_mint(mint@),
            },
    {
        match self.find(mint) {
            Some(i) => {
                proof {
                    self.lemma_index_unique(mint@, i as int);
                }
                Some(&self.records[i])
            },
            None => None,
        }
    }

    /// Creates or refreshes the record for `mint`: origin, sequence number
    /// and metadata are (re)written; the lock state of an existing record is
    /// kept, and a fresh record starts unlocked. Idempotent by mint.
    pub fn create_or_update_origin(
        &mut self,
        mint: Vec<u8>,
        original_chain: u64,
        token_id: u64,
        name: Vec<u8>,
        description: Vec<u8>,
        image: Vec<u8>,
    )
        requires
            old(self).wf(),
            mint@.len() == 32,
        ensures
            final(self).wf(),
            old(self).contains_mint(mint@) ==> final(self).records@ == old(self).records@.update(
                old(self).index_of(mint@),
                NftRecord {
                    mint: mint,
                    original_chain: original_chain,
                    token_id: token_id,
                    locked: old(self).record_for(mint@).locked,
                    name: name,
                    description: description,
                    image: image,
                },
            ),
            !old(self).contains_mint(mint@) ==> final(self).records@ == old(self).records@.push(
                NftRecord {
                    mint: mint,
                    original_chain: original_chain,
                    token_id: token_id,
                    locked: false,
                    name: name,
                    description: description,
                    image: image,
                },
            ),
    {
        let ghost pre = *self;
        match self.find(&mint) {
            Some(i) => {
                proof {
                    pre.lemma_index_unique(mint@, i as int);
                }
                let locked = self.records[i].locked;
                let rec = NftRecord {
                    mint,
                    original_chain,
                    token_id,
                    locked,
                    name,
                    description,
                    image,
                };
                self.records[i] = rec;
                proof {
                    assert forall|a: int, b: int|
                        0 <= a < self.records@.len() && 0 <= b < self.records@.len() && a != b
                            implies self.records@[a].mint@ != self.records@[b].mint@ by {
                        assert(pre.records@[a].mint@ != pre.records@[b].mint@);
                    }
                }
            },
            None => {
                let rec = NftRecord {
                    mint,
                    original_chain,
                    token_id,
                    locked: false,
                    name,
                    description,
                    image,
                };
                self.records.push(rec);
                proof {
                    assert forall|a: int, b: int|
                        0 <= a < self.records@.len() && 0 <= b < self.records@.len() && a != b
                            implies self.records@[a].mint@ != self.records@[b].mint@ by {
                        if a < pre.records@.len() && b < pre.records@.len() {
                            assert(pre.records@[a].mint@ != pre.records@[b].mint@);
                        }
                    }
                }
            },
        }
    }

    /// Toggles the lock state of an existing record; nothing else changes.
    pub fn set_lock(&mut self, mint: &Vec<u8>, locked: bool)
        requires
            old(self).wf(),
            old(self).contains_mint(mint@),
        ensures
            final(self).wf(),
            final(self).records@ == old(self).records@.update(
                old(self).index_of(mint@),
                NftRecord { locked: locked, ..old(self).record_for(mint@) },
            ),
    {
        let ghost pre = *self;
        match self.find(mint) {
            Some(i) => {
                proof {
                    pre.lemma_index_unique(mint@, i as int);
                }
                self.records[i].locked = locked;
                proof {
                    assert(self.records@ =~= pre.records@.update(
                        pre.index_of(mint@),
                        NftRecord { locked: locked, ..pre.record_for(mint@) },
                    ));
                    assert forall|a: int, b: int|
                        0 <= a < self.records@.len() && 0 <= b < self.records@.len() && a != b
                            implies self.records@[a].mint@ != self.records@[b].mint@ by {
                        assert(pre.records@[a].mint@ != pre.records@[b].mint@);
                    }
                }
            },
            None => {
                proof {
                    assert(false);
                }
            },
        }
    }
}

} // verus!
