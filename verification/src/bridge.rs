//! The bridge state machine: the four protocol operations as verified
//! transitions over one chain's registry, outbound ledger and token ledger.
//!
//! A send locks the asset, burns its local unit, opens an outbound transfer
//! and hands back the dispatch for the relay and the event for the chain log.
//! An inbound completion mints the asset here — unlocking it if it is coming
//! home, else materializing a wrapped copy. A revert unwinds a failed send:
//! it settles the transfer once, unlocks the asset and re-mints the unit to
//! the initiator. The pause gate halts new sends only; in-flight unwinds must
//! still be able to run. The well-formedness invariant ties the pieces
//! together: an asset is locked exactly while one open outbound transfer of
//! it exists.

use crate::codec::{encode, encode_spec, msg_valid, CrossChainAction, CrossChainMessage,
    MessageModel};
use crate::error::ErrorCode;
use crate::ledger::{OutboundLedger, OutboundTransfer};
use crate::registry::{AssetRegistry, NftRecord};
use crate::tokens::TokenLedger;
use vstd::prelude::*;
use vstd::slice::slice_to_vec;

verus! {

/// The per-chain configuration: created once at deployment, mutated only by
/// the authority through [`Bridge::set_paused`].
#[derive(Clone, Debug, PartialEq, Eq)]
pub struct UniversalNftPda {
    pub authority: Vec<u8>,
    pub chain_id: u64,
    pub nonce: u64,
    pub paused: bool,
}

/// The chain's collection bookkeeping: display data and the supply counter
/// that assigns each locally minted asset its sequence number.
#[derive(Clone, Debug, PartialEq, Eq)]
pub struct Collection {
    pub authority: Vec<u8>,
    pub name: Vec<u8>,
    pub symbol: Vec<u8>,
    pub base_uri: Vec<u8>,
    pub total_supply: u64,
}

/// The durable, externally observable record of a send, for off-chain
/// indexers and relays.
#[derive(Clone, Debug, PartialEq, Eq)]
pub struct CrossChainTransferEvent {
    pub mint: Vec<u8>,
    pub from_chain: u64,
    pub to_chain: u64,
    pub recipient: Vec<u8>,
    pub token_id: u64,
    pub timestamp: i64,
}

/// What a successful send hands the relay: the arguments of the gateway's
/// dispatch call.
#[derive(Clone, Debug, PartialEq, Eq)]
pub struct OutboundDispatch {
    pub destination_chain: u64,
    pub recipient: Vec<u8>,
    pub payload: Vec<u8>,
}

/// One chain's bridge: configuration, gateway principal, collection, and the
/// three stores every protocol transition acts on.
#[derive(Clone, Debug, PartialEq, Eq)]
pub struct Bridge {
    pub pda: UniversalNftPda,
    pub gateway: Vec<u8>,
    pub collection: Collection,
    pub collection_initialized: bool,
    pub registry: AssetRegistry,
    pub ledger: OutboundLedger,
    pub tokens: TokenLedger,
}

impl Bridge {
    /// Well-formed: the component stores are well-formed, and lock state and
    /// ledger agree — every open outbound transfer is of a registered,
    /// locked asset, and every locked asset has an open outbound transfer.
    /// With the ledger's at-most-one-open-per-asset rule this makes "locked"
    /// mean "exactly one transfer in flight".
    pub open spec fn wf(self) -> bool {
        &&& self.registry.wf()
        &&& self.ledger.wf()
        &&& self.tokens.wf()
        &&& forall|i: int|
            0 <= i < self.ledger.entries@.len() && (#[trigger] self.ledger.entries@[i]).is_open()
                ==> self.registry.contains_mint(self.ledger.entries@[i].mint())
                && self.registry.locked_of(self.ledger.entries@[i].mint())
        &&& forall|i: int|
            0 <= i < self.registry.records@.len() && (#[trigger] self.registry.records@[i]).locked
                ==> self.ledger.has_open_for(self.registry.records@[i].mint@)
    }

    /// Creates a chain's bridge: unpaused, empty stores, the given authority
    /// and relay principal.
    pub fn initialize(authority: Vec<u8>, chain_id: u64, gateway: Vec<u8>) -> (b: Bridge)
        ensures
            b.wf(),
            b.pda.authority@ == authority@,
            b.pda.chain_id == chain_id,
            b.pda.nonce == 0,
            !b.pda.paused,
            b.gateway@ == gateway@,
            !b.collection_initialized,
            b.collection.total_supply == 0,
            b.registry.records@.len() == 0,
            b.ledger.entries@.len() == 0,
            b.tokens.accounts@.len() == 0,
    {
        Bridge {
            pda: UniversalNftPda { authority, chain_id, nonce: 0, paused: false },
            gateway,
            collection: Collection {
                authority: Vec::new(),
                name: Vec::new(),
                symbol: Vec::new(),
                base_uri: Vec::new(),
                total_supply: 0,
            },
            collection_initialized: false,
            registry: AssetRegistry::new(),
            ledger: OutboundLedger::new(),
            tokens: TokenLedger::new(),
        }
    }

    /// Sets up the collection once: display data and a supply counter at
    /// zero. The host guarantees a single call; everything else is untouched.
    pub fn initialize_collection(
        &mut self,
        authority: Vec<u8>,
        name: Vec<u8>,
        symbol: Vec<u8>,
        base_uri: Vec<u8>,
    )
        requires
            old(self).wf(),
            !old(self).collection_initialized,
        ensures
            final(self).wf(),
            final(self).collection.authority@ == authority@,
            final(self).collection.name@ == name@,
            final(self).collection.symbol@ == symbol@,
            final(self).collection.base_uri@ == base_uri@,
            final(self).collection.total_supply == 0,
            final(self).collection_initialized,
            final(self).pda == old(self).pda,
            final(self).gateway == old(self).gateway,
            final(self).registry == old(self).registry,
            final(self).ledger == old(self).ledger,
            final(self).tokens == old(self).tokens,
    {
        self.collection = Collection { authority, name, symbol, base_uri, total_supply: 0 };
        self.collection_initialized = true;
    }

    /// Toggles the pause gate. Only the configured authority may: any other
    /// caller is refused with [`ErrorCode::UnauthorizedAccess`] and nothing
    /// changes.
    pub fn set_paused(&mut self, caller: &Vec<u8>, paused: bool) -> (r: Result<(), ErrorCode>)
        requires
            old(self).wf(),
        ensures
            final(self).wf(),
            caller@ != old(self).pda.authority@ ==> r == Err::<(), ErrorCode>(
                ErrorCode::UnauthorizedAccess,
            ) && *final(self) == *old(self),
            caller@ == old(self).pda.authority@ ==> r == Ok::<(), ErrorCode>(()) && final(self).pda
                == (UniversalNftPda { paused: paused, ..old(self).pda }) && final(self).gateway
                == old(self).gateway && final(self).collection == old(self).collection && final(self).collection_initialized == old(self).collection_initialized && final(self).registry
                == old(self).registry && final(self).ledger == old(self).ledger && final(self).tokens == old(self).tokens,
    {
        if *caller == self.pda.authority {
            proof {
                assert(caller@ =~= self.pda.authority@);
            }
            self.pda.paused = paused;
            Ok(())
        } else {
            proof {
                if caller@ == self.pda.authority@ {
                    assert(*caller =~= self.pda.authority);
                }
            }
            Err(ErrorCode::UnauthorizedAccess)
        }
    }

    /// Mints a fresh asset on its origin chain: a new record carrying this
    /// chain as origin and the next sequence number, one unit of the local
    /// token to the recipient, and the supply counter advanced. Refused with
    /// [`ErrorCode::ProgramPaused`] — and nothing changes — exactly when the
    /// bridge is paused.
    pub fn mint_nft(
        &mut self,
        mint: Vec<u8>,
        recipient: Vec<u8>,
        name: Vec<u8>,
        description: Vec<u8>,
        image: Vec<u8>,
    ) -> (r: Result<(), ErrorCode>)
        requires
            old(self).wf(),
            old(self).collection_initialized,
            !old(self).registry.contains_mint(mint@),
            mint@.len() == 32,
            old(self).collection.total_supply < u64::MAX,
            old(self).tokens.balance_of(mint@, recipient@) < u64::MAX,
        ensures
            final(self).wf(),
            old(self).pda.paused ==> r == Err::<(), ErrorCode>(ErrorCode::ProgramPaused) && *final(self) == *old(self),
            !old(self).pda.paused ==> r == Ok::<(), ErrorCode>(()) && {
                &&& final(self).registry.records@ == old(self).registry.records@.push(
                    NftRecord {
                        mint: final(self).registry.records@.last().mint,
                        original_chain: old(self).pda.chain_id,
                        token_id: old(self).collection.total_supply,
                        locked: false,
                        name: final(self).registry.records@.last().name,
                        description: final(self).registry.records@.last().description,
                        image: final(self).registry.records@.last().image,
                    },
                )
                &&& final(self).registry.records@.last().mint@ == mint@
                &&& final(self).registry.records@.last().name@ == name@
                &&& final(self).registry.records@.last().description@ == description@
                &&& final(self).registry.records@.last().image@ == image@
                &&& final(self).collection == (Collection {
                    total_supply: (old(self).collection.total_supply + 1) as u64,
                    ..old(self).collection
                })
                &&& final(self).tokens.balance_of(mint@, recipient@) == old(self).tokens.balance_of(mint@, recipient@) + 1
                &&& forall|m: Seq<u8>, o: Seq<u8>|
                    !(m == mint@ && o == recipient@) ==> final(self).tokens.balance_of(m, o)
                        == old(self).tokens.balance_of(m, o)
                &&& final(self).pda == old(self).pda
                &&& final(self).gateway == old(self).gateway
                &&& final(self).collection_initialized
                &&& final(self).ledger == old(self).ledger
                &&& final(self).registry.contains_mint(mint@)
                &&& !final(self).registry.locked_of(mint@)
            },
    {
        let ghost pre = *self;
        if self.pda.paused {
            return Err(ErrorCode::ProgramPaused);
        }
        let token_id = self.collection.total_supply;
        self.registry.create_or_update_origin(
            slice_to_vec(mint.as_slice()),
            self.pda.chain_id,
            token_id,
            name,
            description,
            image,
        );
        self.collection.total_supply = token_id + 1;
        self.tokens.mint_to(mint, recipient);
        proof {
            let n = pre.registry.records@.len() as int;
            self.registry.lemma_index_unique(mint@, n);
            assert forall|i: int|
                0 <= i < self.ledger.entries@.len() && (#[trigger] self.ledger.entries@[i]).is_open()
                    implies self.registry.contains_mint(self.ledger.entries@[i].mint())
                && self.registry.locked_of(self.ledger.entries@[i].mint()) by {
                let em = self.ledger.entries@[i].mint();
                assert(pre.registry.contains_mint(em) && pre.registry.locked_of(em));
                let k = pre.registry.index_of(em);
                self.registry.lemma_index_unique(em, k);
            }
            assert forall|i: int|
                0 <= i < self.registry.records@.len() && (#[trigger] self.registry.records@[i]).locked
                    implies self.ledger.has_open_for(self.registry.records@[i].mint@) by {
                assert(i < n);
                assert(pre.registry.records@[i].locked);
            }
        }
        Ok(())
    }
}

/// Whether the asset's record can be carried in a message: each metadata
/// field fits its `u32` length prefix on the wire.
pub open spec fn send_metadata_fits(pre: Bridge, mint: Seq<u8>) -> bool {
    &&& pre.registry.record_for(mint).name@.len() <= u32::MAX
    &&& pre.registry.record_for(mint).description@.len() <= u32::MAX
    &&& pre.registry.record_for(mint).image@.len() <= u32::MAX
}

/// The outcome gate of a send: the error it must fail with, checked in this
/// order, or `None` when it must succeed.
pub open spec fn send_check(pre: Bridge, user: Seq<u8>, mint: Seq<u8>) -> Option<ErrorCode> {
    if pre.pda.paused {
        Some(ErrorCode::ProgramPaused)
    } else if pre.registry.locked_of(mint) {
        Some(ErrorCode::NftAlreadyLocked)
    } else if pre.tokens.balance_of(mint, user) != 1 {
        Some(ErrorCode::InsufficientBalance)
    } else if !send_metadata_fits(pre, mint) {
        Some(ErrorCode::InvalidMessage)
    } else {
        None
    }
}

/// The envelope a send of `mint` dispatches: the record's identity and
/// metadata, bound to the requested destination and recipient.
pub open spec fn send_message(
    pre: Bridge,
    mint: Seq<u8>,
    destination_chain: u64,
    recipient: Seq<u8>,
) -> MessageModel {
    MessageModel {
        action: CrossChainAction::Transfer,
        token_id: pre.registry.record_for(mint).token_id,
        mint: mint,
        original_chain: pre.registry.record_for(mint).original_chain,
        destination_chain: destination_chain,
        recipient: recipient,
        name: pre.registry.record_for(mint).name@,
        description: pre.registry.record_for(mint).description@,
        image: pre.registry.record_for(mint).image@,
    }
}

/// How a successful send transforms the bridge, and what it hands back: the
/// asset locked, its unit burned, one open transfer added (re-using a settled
/// slot of the same asset and initiator, if any), the dispatch carrying the
/// encoded envelope, and the event describing the transfer.
pub open spec fn send_post(
    pre: Bridge,
    post: Bridge,
    user: Seq<u8>,
    mint: Seq<u8>,
    destination_chain: u64,
    recipient: Seq<u8>,
    now: i64,
    dispatch: OutboundDispatch,
    event: CrossChainTransferEvent,
) -> bool {
    let msg = send_message(pre, mint, destination_chain, recipient);
    let idx = if pre.ledger.has_entry(mint, user) {
        pre.ledger.entry_index(mint, user)
    } else {
        pre.ledger.entries@.len() as int
    };
    &&& post.pda == pre.pda
    &&& post.gateway == pre.gateway
    &&& post.collection == pre.collection
    &&& post.collection_initialized == pre.collection_initialized
    &&& post.registry.records@ == pre.registry.records@.update(
        pre.registry.index_of(mint),
        NftRecord { locked: true, ..pre.registry.record_for(mint) },
    )
    &&& post.registry.locked_of(mint)
    &&& post.tokens.balance_of(mint, user) == 0
    &&& forall|m: Seq<u8>, o: Seq<u8>|
        !(m == mint && o == user) ==> post.tokens.balance_of(m, o) == pre.tokens.balance_of(m, o)
    &&& post.ledger.entries@.len() == (if pre.ledger.has_entry(mint, user) {
        pre.ledger.entries@.len() as int
    } else {
        pre.ledger.entries@.len() as int + 1
    })
    &&& 0 <= idx < post.ledger.entries@.len()
    &&& forall|j: int|
        0 <= j < pre.ledger.entries@.len() && j != idx ==> post.ledger.entries@[j]
            == pre.ledger.entries@[j]
    &&& post.ledger.entries@[idx].message@ == msg
    &&& post.ledger.entries@[idx].user@ == user
    &&& post.ledger.entries@[idx].timestamp == now
    &&& !post.ledger.entries@[idx].completed
    &&& post.ledger.has_open_for(mint)
    &&& dispatch.destination_chain == destination_chain
    &&& dispatch.recipient@ == recipient
    &&& dispatch.payload@ == encode_spec(msg)
    &&& event.mint@ == mint
    &&& event.from_chain == pre.pda.chain_id
    &&& event.to_chain == destination_chain
    &&& event.recipient@ == recipient
    &&& event.token_id == msg.token_id
    &&& event.timestamp == now
}

impl Bridge {
    /// Initiates a cross-chain transfer of `mint` by `user`: lock, burn,
    /// open a transfer, and hand back the relay dispatch and the event.
    ///
    /// All-or-nothing: it fails — with [`ErrorCode::ProgramPaused`] while
    /// the bridge is paused, [`ErrorCode::NftAlreadyLocked`] while a
    /// transfer of the asset is in flight, [`ErrorCode::InsufficientBalance`]
    /// unless the user holds exactly one unit, or
    /// [`ErrorCode::InvalidMessage`] if the record's metadata cannot be
    /// framed — without any side effect, and [`send_check`] pins which.
    /// After a success the asset is locked and, by well-formedness, exactly
    /// one open outbound transfer of it exists.
    pub fn send_nft_cross_chain(
        &mut self,
        user: Vec<u8>,
        mint: Vec<u8>,
        destination_chain: u64,
        recipient: Vec<u8>,
        now: i64,
    ) -> (r: Result<(OutboundDispatch, CrossChainTransferEvent), ErrorCode>)
        requires
            old(self).wf(),
            old(self).registry.contains_mint(mint@),
            recipient@.len() == 20,
        ensures
            final(self).wf(),
            match r {
                Ok(out) => send_check(*old(self), user@, mint@) is None && send_post(
                    *old(self),
                    *final(self),
                    user@,
                    mint@,
                    destination_chain,
                    recipient@,
                    now,
                    out.0,
                    out.1,
                ),
                Err(e) => send_check(*old(self), user@, mint@) == Some(e) && *final(self) == *old(self),
            },
    {
        let ghost pre = *self;
        if self.pda.paused {
            return Err(ErrorCode::ProgramPaused);
        }
        let rec_idx = match self.registry.find(&mint) {
            Some(i) => i,
            None => {
                proof {
                    assert(false);
                }
                return Err(ErrorCode::NotFound);
            },
        };
        proof {
            pre.registry.lemma_index_unique(mint@, rec_idx as int);
        }
        if self.registry.records[rec_idx].locked {
            return Err(ErrorCode::NftAlreadyLocked);
        }
        let bal = self.tokens.balance(&mint, &user);
        if bal != 1 {
            return Err(ErrorCode::InsufficientBalance);
        }
        if self.registry.records[rec_idx].name.len() > u32::MAX as usize
            || self.registry.records[rec_idx].description.len() > u32::MAX as usize
            || self.registry.records[rec_idx].image.len() > u32::MAX as usize {
            return Err(ErrorCode::InvalidMessage);
        }
        let msg = CrossChainMessage {
            action: CrossChainAction::Transfer,
            token_id: self.registry.records[rec_idx].token_id,
            mint: slice_to_vec(mint.as_slice()),
            original_chain: self.registry.records[rec_idx].original_chain,
            destination_chain,
            recipient: slice_to_vec(recipient.as_slice()),
            name: slice_to_vec(self.registry.records[rec_idx].name.as_slice()),
            description: slice_to_vec(self.registry.records[rec_idx].description.as_slice()),
            image: slice_to_vec(self.registry.records[rec_idx].image.as_slice()),
        };
        let token_id = msg.token_id;
        proof {
            assert(msg@ =~= send_message(pre, mint@, destination_chain, recipient@));
        }
        let payload = encode(&msg);
        self.registry.set_lock(&mint, true);
        self.tokens.burn(&mint, &user);
        let transfer = OutboundTransfer {
            message: msg,
            user: slice_to_vec(user.as_slice()),
            timestamp: now,
            completed: false,
        };
        proof {
            if self.ledger.has_open_for(mint@) {
                let j = self.ledger.open_index_for(mint@);
                assert(pre.ledger.entries@[j].is_open());
                assert(pre.registry.locked_of(mint@));
            }
        }
        let opened = self.ledger.open(transfer);
        match opened {
            Err(e) => {
                proof {
                    assert(false);
                }
                return Err(e);
            },
            Ok(()) => {},
        }
        let event = CrossChainTransferEvent {
            mint: slice_to_vec(mint.as_slice()),
            from_chain: self.pda.chain_id,
            to_chain: destination_chain,
            recipient: slice_to_vec(recipient.as_slice()),
            token_id,
            timestamp: now,
        };
        let dispatch = OutboundDispatch { destination_chain, recipient, payload };
        proof {
            self.lemma_send_wf(pre, user@, mint@);
            self.registry.lemma_index_unique(mint@, pre.registry.index_of(mint@));
        }
        Ok((dispatch, event))
    }

    /// Re-establishes well-formedness after send's three store updates.
    proof fn lemma_send_wf(self, pre: Bridge, user: Seq<u8>, mint: Seq<u8>)
        requires
            pre.wf(),
            pre.registry.contains_mint(mint),
            !pre.registry.locked_of(mint),
            self.registry.records@ == pre.registry.records@.update(
                pre.registry.index_of(mint),
                NftRecord { locked: true, ..pre.registry.record_for(mint) },
            ),
            self.registry.wf(),
            self.ledger.wf(),
            self.tokens.wf(),
            self.ledger.entries@.len() >= pre.ledger.entries@.len(),
            forall|j: int|
                0 <= j < pre.ledger.entries@.len() && self.ledger.entries@[j]
                    != pre.ledger.entries@[j] ==> (#[trigger] pre.ledger.entries@[j]).mint()
                    == mint && !pre.ledger.entries@[j].is_open() && self.ledger.entries@[j].mint()
                    == mint,
            forall|j: int|
                pre.ledger.entries@.len() <= j < self.ledger.entries@.len()
                    ==> (#[trigger] self.ledger.entries@[j]).mint() == mint,
            self.ledger.has_open_for(mint),
        ensures
            self.wf(),
    {
        let ri = pre.registry.index_of(mint);
        assert forall|i: int|
            0 <= i < self.ledger.entries@.len() && (#[trigger] self.ledger.entries@[i]).is_open()
                implies self.registry.contains_mint(self.ledger.entries@[i].mint())
            && self.registry.locked_of(self.ledger.entries@[i].mint()) by {
            let em = self.ledger.entries@[i].mint();
            if em == mint {
                self.registry.lemma_index_unique(mint, ri);
            } else {
                assert(i < pre.ledger.entries@.len());
                assert(self.ledger.entries@[i] == pre.ledger.entries@[i]);
                assert(pre.registry.contains_mint(em) && pre.registry.locked_of(em));
                let k = pre.registry.index_of(em);
                assert(k != ri);
                self.registry.lemma_index_unique(em, k);
                pre.registry.lemma_index_unique(em, k);
            }
        }
        assert forall|i: int|
            0 <= i < self.registry.records@.len() && (#[trigger] self.registry.records@[i]).locked
                implies self.ledger.has_open_for(self.registry.records@[i].mint@) by {
            let rm = self.registry.records@[i].mint@;
            if i == ri {
                assert(rm == mint);
            } else {
                assert(pre.registry.records@[i].locked);
                assert(pre.ledger.has_open_for(rm));
                let j = pre.ledger.open_index_for(rm);
                assert(pre.ledger.entries@[j].is_open() && pre.ledger.entries@[j].mint() == rm);
                if rm == mint {
                    assert(pre.registry.locked_of(mint)) by {
                        pre.registry.lemma_index_unique(mint, i);
                    }
                    assert(false);
                }
                assert(self.ledger.entries@[j] == pre.ledger.entries@[j]);
                assert(self.ledger.has_open_for(rm));
            }
        }
    }
}

/// The name a wrapped copy carries: the original name behind a marker
/// prefix.
pub open spec fn wrapped_name(n: Seq<u8>) -> Seq<u8> {
    seq![87u8, 114u8, 97u8, 112u8, 112u8, 101u8, 100u8, 32u8] + n
}

/// The record an inbound wrapped-mint leaves for `local_mint`: origin and
/// sequence number preserved from the message, unlocked, metadata copied
/// with the name marked as wrapped.
pub open spec fn is_wrapped_record(rec: NftRecord, local_mint: Seq<u8>, m: MessageModel) -> bool {
    &&& rec.mint@ == local_mint
    &&& rec.original_chain == m.original_chain
    &&& rec.token_id == m.token_id
    &&& !rec.locked
    &&& rec.name@ == wrapped_name(m.name)
    &&& rec.description@ == m.description
    &&& rec.image@ == m.image
}

/// How an inbound completion transforms the bridge. If the asset is coming
/// home (`m.original_chain` is this chain) its record is only unlocked;
/// otherwise a wrapped record is upserted. Either way one unit is minted to
/// the recipient and any outbound transfer of the asset still in flight is
/// settled, so the asset ends unlocked with no open transfer.
pub open spec fn receive_post(
    pre: Bridge,
    post: Bridge,
    local_mint: Seq<u8>,
    recipient: Seq<u8>,
    m: MessageModel,
) -> bool {
    &&& post.pda == pre.pda
    &&& post.gateway == pre.gateway
    &&& post.collection == pre.collection
    &&& post.collection_initialized == pre.collection_initialized
    &&& (m.original_chain == pre.pda.chain_id ==> post.registry.records@
        == pre.registry.records@.update(
        pre.registry.index_of(local_mint),
        NftRecord { locked: false, ..pre.registry.record_for(local_mint) },
    ))
    &&& (m.original_chain != pre.pda.chain_id && pre.registry.contains_mint(local_mint) ==> {
        let idx = pre.registry.index_of(local_mint);
        &&& post.registry.records@.len() == pre.registry.records@.len()
        &&& forall|j: int|
            0 <= j < pre.registry.records@.len() && j != idx ==> post.registry.records@[j]
                == pre.registry.records@[j]
        &&& is_wrapped_record(post.registry.records@[idx], local_mint, m)
    })
    &&& (m.original_chain != pre.pda.chain_id && !pre.registry.contains_mint(local_mint) ==> {
        &&& post.registry.records@.len() == pre.registry.records@.len() + 1
        &&& forall|j: int|
            0 <= j < pre.registry.records@.len() ==> post.registry.records@[j]
                == pre.registry.records@[j]
        &&& is_wrapped_record(post.registry.records@.last(), local_mint, m)
    })
    &&& (pre.ledger.has_open_for(local_mint) ==> post.ledger.entries@
        == pre.ledger.entries@.update(
        pre.ledger.open_index_for(local_mint),
        OutboundTransfer {
            completed: true,
            ..pre.ledger.entries@[pre.ledger.open_index_for(local_mint)]
        },
    ))
    &&& (!pre.ledger.has_open_for(local_mint) ==> post.ledger == pre.ledger)
    &&& !post.ledger.has_open_for(local_mint)
    &&& post.tokens.balance_of(local_mint, recipient) == pre.tokens.balance_of(
        local_mint,
        recipient,
    ) + 1
    &&& forall|mk: Seq<u8>, o: Seq<u8>|
        !(mk == local_mint && o == recipient) ==> post.tokens.balance_of(mk, o)
            == pre.tokens.balance_of(mk, o)
    &&& post.registry.contains_mint(local_mint)
    &&& !post.registry.locked_of(local_mint)
}

/// The outcome gate of a revert: the error it must fail with, or `None` when
/// it must succeed. No transfer of (mint, user) means
/// [`ErrorCode::NotFound`]; a settled one means
/// [`ErrorCode::AlreadyCompleted`].
pub open spec fn revert_check(pre: Bridge, mint: Seq<u8>, user: Seq<u8>) -> Option<ErrorCode> {
    if !pre.ledger.has_entry(mint, user) {
        Some(ErrorCode::NotFound)
    } else if pre.ledger.entry_for(mint, user).completed {
        Some(ErrorCode::AlreadyCompleted)
    } else {
        None
    }
}

/// How a successful revert transforms the bridge: the transfer settled, the
/// asset unlocked, and one unit re-minted to the initiator — exactly the
/// pre-send state of the asset, with the transfer on record as completed.
pub open spec fn revert_post(pre: Bridge, post: Bridge, mint: Seq<u8>, user: Seq<u8>) -> bool {
    &&& post.pda == pre.pda
    &&& post.gateway == pre.gateway
    &&& post.collection == pre.collection
    &&& post.collection_initialized == pre.collection_initialized
    &&& post.ledger.entries@ == pre.ledger.entries@.update(
        pre.ledger.entry_index(mint, user),
        OutboundTransfer { completed: true, ..pre.ledger.entry_for(mint, user) },
    )
    &&& post.registry.records@ == pre.registry.records@.update(
        pre.registry.index_of(mint),
        NftRecord { locked: false, ..pre.registry.record_for(mint) },
    )
    &&& post.tokens.balance_of(mint, user) == pre.tokens.balance_of(mint, user) + 1
    &&& forall|mk: Seq<u8>, o: Seq<u8>|
        !(mk == mint && o == user) ==> post.tokens.balance_of(mk, o) == pre.tokens.balance_of(
            mk,
            o,
        )
    &&& post.registry.contains_mint(mint)
    &&& !post.registry.locked_of(mint)
    &&& !post.ledger.has_open_for(mint)
}

impl Bridge {
    /// Re-establishes well-formedness after an unwind: the asset's record
    /// ends unlocked, no transfer of it stays open, and nothing else moved.
    proof fn lemma_unwind_wf(self, pre: Bridge, local_mint: Seq<u8>)
        requires
            pre.wf(),
            self.registry.wf(),
            self.ledger.wf(),
            self.tokens.wf(),
            self.registry.records@.len() >= pre.registry.records@.len(),
            forall|j: int|
                0 <= j < pre.registry.records@.len() && self.registry.records@[j]
                    != pre.registry.records@[j] ==> (#[trigger] pre.registry.records@[j]).mint@
                    == local_mint && self.registry.records@[j].mint@ == local_mint,
            forall|j: int|
                pre.registry.records@.len() <= j < self.registry.records@.len()
                    ==> (#[trigger] self.registry.records@[j]).mint@ == local_mint,
            self.registry.contains_mint(local_mint),
            !self.registry.locked_of(local_mint),
            self.ledger.entries@.len() == pre.ledger.entries@.len(),
            forall|j: int|
                0 <= j < pre.ledger.entries@.len() && self.ledger.entries@[j]
                    != pre.ledger.entries@[j] ==> (#[trigger] pre.ledger.entries@[j]).mint()
                    == local_mint && self.ledger.entries@[j] == (OutboundTransfer {
                    completed: true,
                    ..pre.ledger.entries@[j]
                }),
            !self.ledger.has_open_for(local_mint),
        ensures
            self.wf(),
    {
        assert forall|i: int|
            0 <= i < self.ledger.entries@.len() && (#[trigger] self.ledger.entries@[i]).is_open()
                implies self.registry.contains_mint(self.ledger.entries@[i].mint())
            && self.registry.locked_of(self.ledger.entries@[i].mint()) by {
            assert(self.ledger.entries@[i] == pre.ledger.entries@[i]);
            let em = self.ledger.entries@[i].mint();
            assert(em != local_mint);
            assert(pre.registry.contains_mint(em) && pre.registry.locked_of(em));
            let k = pre.registry.index_of(em);
            pre.registry.lemma_index_unique(em, k);
            assert(self.registry.records@[k] == pre.registry.records@[k]);
            self.registry.lemma_index_unique(em, k);
        }
        assert forall|i: int|
            0 <= i < self.registry.records@.len() && (#[trigger] self.registry.records@[i]).locked
                implies self.ledger.has_open_for(self.registry.records@[i].mint@) by {
            let rm = self.registry.records@[i].mint@;
            if rm == local_mint {
                self.registry.lemma_index_unique(local_mint, i);
                assert(false);
            } else {
                assert(self.registry.records@[i] == pre.registry.records@[i]);
                assert(pre.ledger.has_open_for(rm));
                let j = pre.ledger.open_index_for(rm);
                assert(pre.ledger.entries@[j].is_open() && pre.ledger.entries@[j].mint() == rm);
                assert(self.ledger.entries@[j] == pre.ledger.entries@[j]);
                assert(self.ledger.has_open_for(rm));
            }
        }
    }

    /// The inbound completion path, after authentication and decoding: mints
    /// the asset on this chain per [`receive_post`].
    pub fn handle_incoming_nft_transfer(
        &mut self,
        local_mint: Vec<u8>,
        recipient: Vec<u8>,
        msg: &CrossChainMessage,
    )
        requires
            old(self).wf(),
            msg_valid(msg@),
            local_mint@.len() == 32,
            msg.original_chain == old(self).pda.chain_id ==> old(self).registry.contains_mint(
                local_mint@,
            ),
            old(self).tokens.balance_of(local_mint@, recipient@) < u64::MAX,
        ensures
            final(self).wf(),
            receive_post(*old(self), *final(self), local_mint@, recipient@, msg@),
    {
        let ghost pre = *self;
        if msg.original_chain == self.pda.chain_id {
            self.registry.set_lock(&local_mint, false);
            proof {
                pre.registry.lemma_index_unique(local_mint@, pre.registry.index_of(local_mint@));
                self.registry.lemma_index_unique(local_mint@, pre.registry.index_of(local_mint@));
            }
        } else {
            let mut name: Vec<u8> = Vec::new();
            name.push(87);
            name.push(114);
            name.push(97);
            name.push(112);
            name.push(112);
            name.push(101);
            name.push(100);
            name.push(32);
            let mut name_tail = slice_to_vec(msg.name.as_slice());
            name.append(&mut name_tail);
            proof {
                assert(name@ =~= wrapped_name(msg@.name));
            }
            self.registry.create_or_update_origin(
                slice_to_vec(local_mint.as_slice()),
                msg.original_chain,
                msg.token_id,
                name,
                slice_to_vec(msg.description.as_slice()),
                slice_to_vec(msg.image.as_slice()),
            );
            proof {
                if pre.registry.contains_mint(local_mint@) {
                    pre.registry.lemma_index_unique(
                        local_mint@,
                        pre.registry.index_of(local_mint@),
                    );
                    self.registry.lemma_index_unique(
                        local_mint@,
                        pre.registry.index_of(local_mint@),
                    );
                } else {
                    self.registry.lemma_index_unique(
                        local_mint@,
                        pre.registry.records@.len() as int,
                    );
                }
            }
            self.registry.set_lock(&local_mint, false);
        }
        self.ledger.settle_open(&local_mint);
        self.tokens.mint_to(local_mint, recipient);
        proof {
            let lm = pre.registry.index_of(local_mint@);
            if msg@.original_chain != pre.pda.chain_id && pre.registry.contains_mint(local_mint@) {
                pre.registry.lemma_index_unique(local_mint@, lm);
                self.registry.lemma_index_unique(local_mint@, lm);
            }
            if msg@.original_chain != pre.pda.chain_id && !pre.registry.contains_mint(
                local_mint@,
            ) {
                self.registry.lemma_index_unique(
                    local_mint@,
                    pre.registry.records@.len() as int,
                );
            }
            if msg@.original_chain == pre.pda.chain_id {
                pre.registry.lemma_index_unique(local_mint@, lm);
                self.registry.lemma_index_unique(local_mint@, lm);
            }
            self.lemma_unwind_wf(pre, local_mint@);
        }
    }

    /// The manual inbound entry point: gated on the pause flag, then the
    /// completion path for the message's action.
    pub fn receive_nft_cross_chain(
        &mut self,
        local_mint: Vec<u8>,
        recipient: Vec<u8>,
        msg: &CrossChainMessage,
    ) -> (r: Result<(), ErrorCode>)
        requires
            old(self).wf(),
            msg_valid(msg@),
            local_mint@.len() == 32,
            msg.original_chain == old(self).pda.chain_id ==> old(self).registry.contains_mint(
                local_mint@,
            ),
            old(self).tokens.balance_of(local_mint@, recipient@) < u64::MAX,
        ensures
            final(self).wf(),
            old(self).pda.paused ==> r == Err::<(), ErrorCode>(ErrorCode::ProgramPaused) && *final(self) == *old(self),
            !old(self).pda.paused ==> r == Ok::<(), ErrorCode>(()) && receive_post(
                *old(self),
                *final(self),
                local_mint@,
                recipient@,
                msg@,
            ),
    {
        if self.pda.paused {
            return Err(ErrorCode::ProgramPaused);
        }
        match msg.action {
            CrossChainAction::Transfer => {
                self.handle_incoming_nft_transfer(local_mint, recipient, msg);
            },
        }
        Ok(())
    }

    /// The relay's completion callback: refuses any caller but the
    /// configured gateway before touching state, decodes the payload, and
    /// runs the completion path. Not gated on the pause flag: in-flight
    /// transfers must still land while new sends are halted.
    pub fn on_call(
        &mut self,
        caller: &Vec<u8>,
        _amount: u64,
        _sender: &Vec<u8>,
        data: &Vec<u8>,
        local_mint: Vec<u8>,
        recipient: Vec<u8>,
    ) -> (r: Result<(), ErrorCode>)
        requires
            old(self).wf(),
            local_mint@.len() == 32,
            forall|m: MessageModel|
                msg_valid(m) && data@ == encode_spec(m) && m.original_chain == old(self).pda.chain_id ==> old(self).registry.contains_mint(local_mint@),
            old(self).tokens.balance_of(local_mint@, recipient@) < u64::MAX,
        ensures
            final(self).wf(),
            caller@ != old(self).gateway@ ==> r == Err::<(), ErrorCode>(ErrorCode::InvalidCaller)
                && *final(self) == *old(self),
            caller@ == old(self).gateway@ && (forall|m: MessageModel|
                msg_valid(m) ==> data@ != encode_spec(m)) ==> r == Err::<(), ErrorCode>(
                ErrorCode::InvalidMessage,
            ) && *final(self) == *old(self),
            forall|m: MessageModel|
                caller@ == old(self).gateway@ && msg_valid(m) && data@ == encode_spec(m) ==> (r
                    == Ok::<(), ErrorCode>(()) && receive_post(
                    *old(self),
                    *final(self),
                    local_mint@,
                    recipient@,
                    m,
                )),
    {
        if !(*caller == self.gateway) {
            proof {
                if caller@ == self.gateway@ {
                    assert(*caller =~= self.gateway);
                }
            }
            return Err(ErrorCode::InvalidCaller);
        }
        proof {
            assert(caller@ =~= self.gateway@);
        }
        let msg = match crate::codec::decode(data.as_slice()) {
            Ok(m) => m,
            Err(e) => {
                return Err(e);
            },
        };
        self.handle_incoming_nft_transfer(local_mint, recipient, &msg);
        Ok(())
    }

    /// The relay's revert callback: refuses any caller but the configured
    /// gateway before touching state, decodes the payload, then unwinds the
    /// failed send per [`revert_post`] — settling the transfer exactly once
    /// per [`revert_check`]. Not gated on the pause flag.
    pub fn on_revert(
        &mut self,
        caller: &Vec<u8>,
        _amount: u64,
        _sender: &Vec<u8>,
        data: &Vec<u8>,
        local_mint: Vec<u8>,
        user: Vec<u8>,
    ) -> (r: Result<(), ErrorCode>)
        requires
            old(self).wf(),
            old(self).tokens.balance_of(local_mint@, user@) < u64::MAX,
        ensures
            final(self).wf(),
            caller@ != old(self).gateway@ ==> r == Err::<(), ErrorCode>(ErrorCode::InvalidCaller)
                && *final(self) == *old(self),
            caller@ == old(self).gateway@ && (forall|m: MessageModel|
                msg_valid(m) ==> data@ != encode_spec(m)) ==> r == Err::<(), ErrorCode>(
                ErrorCode::InvalidMessage,
            ) && *final(self) == *old(self),
            caller@ == old(self).gateway@ && (exists|m: MessageModel|
                msg_valid(m) && data@ == encode_spec(m)) ==> (match revert_check(
                *old(self),
                local_mint@,
                user@,
            ) {
                Some(e) => r == Err::<(), ErrorCode>(e) && *final(self) == *old(self),
                None => r == Ok::<(), ErrorCode>(()) && revert_post(
                    *old(self),
                    *final(self),
                    local_mint@,
                    user@,
                ),
            }),
    {
        let ghost pre = *self;
        if !(*caller == self.gateway) {
            proof {
                if caller@ == self.gateway@ {
                    assert(*caller =~= self.gateway);
                }
            }
            return Err(ErrorCode::InvalidCaller);
        }
        proof {
            assert(caller@ =~= self.gateway@);
        }
        match crate::codec::decode(data.as_slice()) {
            Ok(_) => {},
            Err(e) => {
                return Err(e);
            },
        }
        match self.ledger.revert(&local_mint, &user) {
            Ok(()) => {},
            Err(e) => {
                return Err(e);
            },
        }
        let ghost ei = pre.ledger.entry_index(local_mint@, user@);
        proof {
            pre.ledger.lemma_entry_index_unique(local_mint@, user@, ei);
            assert(pre.ledger.entries@[ei].is_open());
            assert(pre.registry.contains_mint(local_mint@) && pre.registry.locked_of(
                local_mint@,
            ));
        }
        self.registry.set_lock(&local_mint, false);
        self.tokens.mint_to(local_mint, user);
        proof {
            let lm = pre.registry.index_of(local_mint@);
            pre.registry.lemma_index_unique(local_mint@, lm);
            self.registry.lemma_index_unique(local_mint@, lm);
            if self.ledger.has_open_for(local_mint@) {
                let k = self.ledger.open_index_for(local_mint@);
                assert(k != ei);
                assert(pre.ledger.entries@[k].is_open() && pre.ledger.entries@[k].mint()
                    == local_mint@);
                assert(false);
            }
            self.lemma_unwind_wf(pre, local_mint@);
        }
        Ok(())
    }
}

/// A send that succeeded leaves its asset locked, so a second send of the
/// same asset — by any user, with no revert or inbound completion between
/// the two — is refused with [`ErrorCode::NftAlreadyLocked`].
pub proof fn lemma_second_send_rejected(
    pre: Bridge,
    post: Bridge,
    user: Seq<u8>,
    mint: Seq<u8>,
    destination_chain: u64,
    recipient: Seq<u8>,
    now: i64,
    dispatch: OutboundDispatch,
    event: CrossChainTransferEvent,
    user2: Seq<u8>,
)
    requires
        pre.wf(),
        post.wf(),
        pre.registry.contains_mint(mint),
        send_check(pre, user, mint) is None,
        send_post(pre, post, user, mint, destination_chain, recipient, now, dispatch, event),
    ensures
        send_check(post, user2, mint) == Some(ErrorCode::NftAlreadyLocked),
{
    assert(!post.pda.paused);
    assert(post.registry.locked_of(mint));
}

/// After a successful send the asset is locked and exactly one open
/// outbound transfer of it exists: one does (the one just opened), and any
/// two positions holding an open transfer of the asset are the same.
pub proof fn lemma_send_leaves_one_open_transfer(
    pre: Bridge,
    post: Bridge,
    user: Seq<u8>,
    mint: Seq<u8>,
    destination_chain: u64,
    recipient: Seq<u8>,
    now: i64,
    dispatch: OutboundDispatch,
    event: CrossChainTransferEvent,
    i: int,
    j: int,
)
    requires
        pre.wf(),
        post.wf(),
        pre.registry.contains_mint(mint),
        send_check(pre, user, mint) is None,
        send_post(pre, post, user, mint, destination_chain, recipient, now, dispatch, event),
        0 <= i < post.ledger.entries@.len(),
        post.ledger.entries@[i].is_open(),
        post.ledger.entries@[i].mint() == mint,
        0 <= j < post.ledger.entries@.len(),
        post.ledger.entries@[j].is_open(),
        post.ledger.entries@[j].mint() == mint,
    ensures
        post.registry.locked_of(mint),
        post.ledger.has_open_for(mint),
        i == j,
{
    assert(post.ledger.has_open_for(mint));
}

/// A revert that succeeded settles the transfer, so reverting the same
/// transfer again is refused with [`ErrorCode::AlreadyCompleted`].
pub proof fn lemma_second_revert_rejected(pre: Bridge, post: Bridge, mint: Seq<u8>, user: Seq<u8>)
    requires
        pre.wf(),
        post.wf(),
        revert_check(pre, mint, user) is None,
        revert_post(pre, post, mint, user),
    ensures
        revert_check(post, mint, user) == Some(ErrorCode::AlreadyCompleted),
{
    let ei = pre.ledger.entry_index(mint, user);
    pre.ledger.lemma_entry_index_unique(mint, user, ei);
    post.ledger.lemma_entry_index_unique(mint, user, ei);
    assert(post.ledger.entry_for(mint, user).completed);
}

} // verus!


