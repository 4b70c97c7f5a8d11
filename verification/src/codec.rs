//! The cross-chain message envelope and its byte codec.
//!
//! The envelope must serialize deterministically — stable field order,
//! little-endian fixed-width integers, `u32` length prefixes on the
//! variable-width fields (Borsh-compatible layout) — because the receiving
//! chain reconstructs it independently and trusts it verbatim. [`encode`] is
//! total on valid messages; [`decode`] rejects anything that is not exactly
//! the encoding of a valid message, and its contract states the round-trip
//! law: decoding the encoding of any valid message yields that message back.

use crate::error::ErrorCode;
use vstd::bytes::{
    spec_u32_from_le_bytes, spec_u32_to_le_bytes, spec_u64_from_le_bytes, spec_u64_to_le_bytes,
    lemma_auto_spec_u32_to_from_le_bytes, lemma_auto_spec_u64_to_from_le_bytes, u32_from_le_bytes,
    u32_to_le_bytes, u64_from_le_bytes, u64_to_le_bytes,
};
use vstd::prelude::*;
use vstd::slice::{slice_subrange, slice_to_vec};

verus! {

/// The action a message asks the receiving chain to perform. A tagged union
/// so that further actions can be added without reshaping the envelope.
#[derive(Clone, Copy, Debug, PartialEq, Eq, Structural)]
pub enum CrossChainAction {
    /// Move the asset to the receiving chain.
    Transfer,
}

/// The wire envelope of one transfer. Immutable once constructed.
///
/// `mint` is the asset's unique 32-byte identifier on its origin chain;
/// `recipient` a fixed-width 20-byte destination-chain address. The display
/// metadata (`name`, `description`, `image`) is carried as opaque bytes: the
/// protocol copies it but never interprets it.
#[derive(Clone, Debug, PartialEq, Eq)]
pub struct CrossChainMessage {
    pub action: CrossChainAction,
    pub token_id: u64,
    pub mint: Vec<u8>,
    pub original_chain: u64,
    pub destination_chain: u64,
    pub recipient: Vec<u8>,
    pub name: Vec<u8>,
    pub description: Vec<u8>,
    pub image: Vec<u8>,
}

/// The mathematical model of a [`CrossChainMessage`]: the same fields, with
/// every byte vector abstracted to its sequence.
#[verifier::ext_equal]
pub struct MessageModel {
    pub action: CrossChainAction,
    pub token_id: u64,
    pub mint: Seq<u8>,
    pub original_chain: u64,
    pub destination_chain: u64,
    pub recipient: Seq<u8>,
    pub name: Seq<u8>,
    pub description: Seq<u8>,
    pub image: Seq<u8>,
}

impl View for CrossChainMessage {
    type V = MessageModel;

    open spec fn view(&self) -> MessageModel {
        MessageModel {
            action: self.action,
            token_id: self.token_id,
            mint: self.mint@,
            original_chain: self.original_chain,
            destination_chain: self.destination_chain,
            recipient: self.recipient@,
            name: self.name@,
            description: self.description@,
            image: self.image@,
        }
    }
}

/// The wire tag of [`CrossChainAction::Transfer`].
pub const TRANSFER_TAG: u8 = 0;

/// The identifier width: a mint key is 32 bytes.
pub const MINT_LEN: usize = 32;

/// The destination-address width: 20 bytes.
pub const RECIPIENT_LEN: usize = 20;

/// The byte that encodes an action.
pub open spec fn action_tag(a: CrossChainAction) -> u8 {
    match a {
        CrossChainAction::Transfer => TRANSFER_TAG,
    }
}

/// A message is valid when its identifier and address have their fixed widths
/// and each variable-width field fits its `u32` length prefix. [`encode`] is
/// total on valid messages.
pub open spec fn msg_valid(m: MessageModel) -> bool {
    &&& m.mint.len() == MINT_LEN
    &&& m.recipient.len() == RECIPIENT_LEN
    &&& m.name.len() <= u32::MAX
    &&& m.description.len() <= u32::MAX
    &&& m.image.len() <= u32::MAX
}

/// The encoding of a message: action tag, `token_id`, `mint`,
/// `original_chain`, `destination_chain`, `recipient`, then each metadata
/// field behind its `u32` length, all little-endian.
pub open spec fn encode_spec(m: MessageModel) -> Seq<u8> {
    seq![action_tag(m.action)] + spec_u64_to_le_bytes(m.token_id) + m.mint
        + spec_u64_to_le_bytes(m.original_chain) + spec_u64_to_le_bytes(m.destination_chain)
        + m.recipient + spec_u32_to_le_bytes(m.name.len() as u32) + m.name
        + spec_u32_to_le_bytes(m.description.len() as u32) + m.description
        + spec_u32_to_le_bytes(m.image.len() as u32) + m.image
}

/// The least length an encoding can have: the head and three empty
/// length-prefixed fields.
pub const MIN_ENCODED_LEN: usize = 89;

/// How an encoding decomposes: its length, and the exact subrange each field
/// occupies.
pub proof fn lemma_encode_spec_parts(m: MessageModel)
    requires
        msg_valid(m),
    ensures
        encode_spec(m).len() == MIN_ENCODED_LEN + m.name.len() + m.description.len()
            + m.image.len(),
        encode_spec(m)[0] == action_tag(m.action),
        encode_spec(m).subrange(1, 9) == spec_u64_to_le_bytes(m.token_id),
        encode_spec(m).subrange(9, 41) == m.mint,
        encode_spec(m).subrange(41, 49) == spec_u64_to_le_bytes(m.original_chain),
        encode_spec(m).subrange(49, 57) == spec_u64_to_le_bytes(m.destination_chain),
        encode_spec(m).subrange(57, 77) == m.recipient,
        encode_spec(m).subrange(77, 81) == spec_u32_to_le_bytes(m.name.len() as u32),
        encode_spec(m).subrange(81, 81 + m.name.len() as int) == m.name,
        encode_spec(m).subrange(
            81 + m.name.len() as int,
            85 + m.name.len() as int,
        ) == spec_u32_to_le_bytes(m.description.len() as u32),
        encode_spec(m).subrange(
            85 + m.name.len() as int,
            85 + m.name.len() + m.description.len() as int,
        ) == m.description,
        encode_spec(m).subrange(
            85 + m.name.len() + m.description.len() as int,
            89 + m.name.len() + m.description.len() as int,
        ) == spec_u32_to_le_bytes(m.image.len() as u32),
        encode_spec(m).subrange(
            89 + m.name.len() + m.description.len() as int,
            encode_spec(m).len() as int,
        ) == m.image,
{
    lemma_auto_spec_u64_to_from_le_bytes();
    lemma_auto_spec_u32_to_from_le_bytes();
    let e = encode_spec(m);
    let nl = m.name.len() as int;
    let dl = m.description.len() as int;
    let il = m.image.len() as int;
    assert(e.subrange(1, 9) =~= spec_u64_to_le_bytes(m.token_id));
    assert(e.subrange(9, 41) =~= m.mint);
    assert(e.subrange(41, 49) =~= spec_u64_to_le_bytes(m.original_chain));
    assert(e.subrange(49, 57) =~= spec_u64_to_le_bytes(m.destination_chain));
    assert(e.subrange(57, 77) =~= m.recipient);
    assert(e.subrange(77, 81) =~= spec_u32_to_le_bytes(m.name.len() as u32));
    assert(e.subrange(81, 81 + nl) =~= m.name);
    assert(e.subrange(81 + nl, 85 + nl) =~= spec_u32_to_le_bytes(m.description.len() as u32));
    assert(e.subrange(85 + nl, 85 + nl + dl) =~= m.description);
    assert(e.subrange(85 + nl + dl, 89 + nl + dl) =~= spec_u32_to_le_bytes(
        m.image.len() as u32,
    ));
    assert(e.subrange(89 + nl + dl, e.len() as int) =~= m.image);
}

/// Serializes a valid message. Total: every valid message has an encoding,
/// and it is exactly [`encode_spec`] of the message.
pub fn encode(m: &CrossChainMessage) -> (r: Vec<u8>)
    requires
        msg_valid(m@),
    ensures
        r@ == encode_spec(m@),
{
    let mut out: Vec<u8> = Vec::new();
    out.push(match m.action {
        CrossChainAction::Transfer => TRANSFER_TAG,
    });
    let mut token_id_bytes = u64_to_le_bytes(m.token_id);
    out.append(&mut token_id_bytes);
    let mut mint_bytes = slice_to_vec(m.mint.as_slice());
    out.append(&mut mint_bytes);
    let mut original_chain_bytes = u64_to_le_bytes(m.original_chain);
    out.append(&mut original_chain_bytes);
    let mut destination_chain_bytes = u64_to_le_bytes(m.destination_chain);
    out.append(&mut destination_chain_bytes);
    let mut recipient_bytes = slice_to_vec(m.recipient.as_slice());
    out.append(&mut recipient_bytes);
    let mut name_len_bytes = u32_to_le_bytes(m.name.len() as u32);
    out.append(&mut name_len_bytes);
    let mut name_bytes = slice_to_vec(m.name.as_slice());
    out.append(&mut name_bytes);
    let mut description_len_bytes = u32_to_le_bytes(m.description.len() as u32);
    out.append(&mut description_len_bytes);
    let mut description_bytes = slice_to_vec(m.description.as_slice());
    out.append(&mut description_bytes);
    let mut image_len_bytes = u32_to_le_bytes(m.image.len() as u32);
    out.append(&mut image_len_bytes);
    let mut image_bytes = slice_to_vec(m.image.as_slice());
    out.append(&mut image_bytes);
    proof {
        assert(out@ =~= encode_spec(m@));
    }
    out
}

/// Two valid messages with the same encoding are the same message: the
/// layout leaves no slack, so [`encode_spec`] is injective.
pub proof fn lemma_encode_spec_injective(m1: MessageModel, m2: MessageModel)
    requires
        msg_valid(m1),
        msg_valid(m2),
        encode_spec(m1) == encode_spec(m2),
    ensures
        m1 == m2,
{
    lemma_auto_spec_u64_to_from_le_bytes();
    lemma_auto_spec_u32_to_from_le_bytes();
    lemma_encode_spec_parts(m1);
    lemma_encode_spec_parts(m2);
    let e = encode_spec(m1);
    // The name lengths agree because both stand at the same fixed offset.
    assert(spec_u32_from_le_bytes(e.subrange(77, 81)) == m1.name.len() as u32);
    assert(spec_u32_from_le_bytes(e.subrange(77, 81)) == m2.name.len() as u32);
    assert(m1.name.len() == m2.name.len());
    let nl = m1.name.len() as int;
    assert(spec_u32_from_le_bytes(e.subrange(81 + nl, 85 + nl)) == m1.description.len() as u32);
    assert(spec_u32_from_le_bytes(e.subrange(81 + nl, 85 + nl)) == m2.description.len() as u32);
    assert(m1.description.len() == m2.description.len());
    let dl = m1.description.len() as int;
    assert(spec_u64_from_le_bytes(e.subrange(1, 9)) == m1.token_id);
    assert(spec_u64_from_le_bytes(e.subrange(1, 9)) == m2.token_id);
    assert(spec_u64_from_le_bytes(e.subrange(41, 49)) == m1.original_chain);
    assert(spec_u64_from_le_bytes(e.subrange(41, 49)) == m2.original_chain);
    assert(spec_u64_from_le_bytes(e.subrange(49, 57)) == m1.destination_chain);
    assert(spec_u64_from_le_bytes(e.subrange(49, 57)) == m2.destination_chain);
    assert(m1 =~= m2);
}

/// Deserializes a message, rejecting truncated or malformed payloads.
///
/// The contract pins the function down completely:
/// - soundness: an `Ok` result is a valid message whose encoding is exactly
///   the input; and
/// - the round-trip law: for every valid message `m`, decoding
///   `encode_spec(m)` succeeds and returns `m` — so `decode(encode(m)) == m`;
/// - any input that is not the encoding of a valid message is refused with
///   [`ErrorCode::InvalidMessage`].
#[verifier::rlimit(60)]
pub fn decode(data: &[u8]) -> (r: Result<CrossChainMessage, ErrorCode>)
    ensures
        r matches Ok(msg) ==> msg_valid(msg@) && data@ == encode_spec(msg@),
        r matches Err(e) ==> e == ErrorCode::InvalidMessage,
        forall|m: MessageModel|
            msg_valid(m) && data@ == encode_spec(m) ==> (r matches Ok(msg) && msg@ == m),
{
    proof {
        lemma_auto_spec_u64_to_from_le_bytes();
        lemma_auto_spec_u32_to_from_le_bytes();
        assert forall|m: MessageModel| msg_valid(m) implies #[trigger] encode_spec(m).len()
            >= MIN_ENCODED_LEN by {
            lemma_encode_spec_parts(m);
        }
    }
    if data.len() < MIN_ENCODED_LEN {
        return Err(ErrorCode::InvalidMessage);
    }
    let tag = data[0];
    if tag != TRANSFER_TAG {
        proof {
            assert forall|m: MessageModel| msg_valid(m) implies data@ != encode_spec(m) by {
                lemma_encode_spec_parts(m);
            }
        }
        return Err(ErrorCode::InvalidMessage);
    }
    let token_id = u64_from_le_bytes(slice_subrange(data, 1, 9));
    let mint = slice_to_vec(slice_subrange(data, 9, 41));
    let original_chain = u64_from_le_bytes(slice_subrange(data, 41, 49));
    let destination_chain = u64_from_le_bytes(slice_subrange(data, 49, 57));
    let recipient = slice_to_vec(slice_subrange(data, 57, 77));
    let name_len = u32_from_le_bytes(slice_subrange(data, 77, 81)) as usize;
    if name_len > data.len() - 81 {
        proof {
            assert forall|m: MessageModel| msg_valid(m) implies data@ != encode_spec(m) by {
                lemma_encode_spec_parts(m);
                if data@ == encode_spec(m) {
                    assert(data@.subrange(77, 81) == spec_u32_to_le_bytes(m.name.len() as u32));
                }
            }
        }
        return Err(ErrorCode::InvalidMessage);
    }
    let name_end = 81 + name_len;
    let name = slice_to_vec(slice_subrange(data, 81, name_end));
    if data.len() - name_end < 4 {
        proof {
            assert forall|m: MessageModel| msg_valid(m) implies data@ != encode_spec(m) by {
                lemma_encode_spec_parts(m);
                if data@ == encode_spec(m) {
                    assert(data@.subrange(77, 81) == spec_u32_to_le_bytes(m.name.len() as u32));
                    assert(name_len == m.name.len());
                }
            }
        }
        return Err(ErrorCode::InvalidMessage);
    }
    let description_len = u32_from_le_bytes(slice_subrange(data, name_end, name_end + 4)) as usize;
    let description_start = name_end + 4;
    if description_len > data.len() - description_start {
        proof {
            assert forall|m: MessageModel| msg_valid(m) implies data@ != encode_spec(m) by {
                lemma_encode_spec_parts(m);
                if data@ == encode_spec(m) {
                    assert(data@.subrange(77, 81) == spec_u32_to_le_bytes(m.name.len() as u32));
                    assert(name_len == m.name.len());
                    assert(data@.subrange(81 + name_len as int, 85 + name_len as int)
                        == spec_u32_to_le_bytes(m.description.len() as u32));
                }
            }
        }
        return Err(ErrorCode::InvalidMessage);
    }
    let description_end = description_start + description_len;
    let description = slice_to_vec(slice_subrange(data, description_start, description_end));
    if data.len() - description_end < 4 {
        proof {
            assert forall|m: MessageModel| msg_valid(m) implies data@ != encode_spec(m) by {
                lemma_encode_spec_parts(m);
                if data@ == encode_spec(m) {
                    assert(data@.subrange(77, 81) == spec_u32_to_le_bytes(m.name.len() as u32));
                    assert(name_len == m.name.len());
                    assert(data@.subrange(81 + name_len as int, 85 + name_len as int)
                        == spec_u32_to_le_bytes(m.description.len() as u32));
                    assert(description_len == m.description.len());
                }
            }
        }
        return Err(ErrorCode::InvalidMessage);
    }
    let image_len = u32_from_le_bytes(
        slice_subrange(data, description_end, description_end + 4),
    ) as usize;
    let image_start = description_end + 4;
    if image_len != data.len() - image_start {
        proof {
            assert forall|m: MessageModel| msg_valid(m) implies data@ != encode_spec(m) by {
                lemma_encode_spec_parts(m);
                if data@ == encode_spec(m) {
                    assert(data@.subrange(77, 81) == spec_u32_to_le_bytes(m.name.len() as u32));
                    assert(name_len == m.name.len());
                    assert(data@.subrange(81 + name_len as int, 85 + name_len as int)
                        == spec_u32_to_le_bytes(m.description.len() as u32));
                    assert(description_len == m.description.len());
                    assert(data@.subrange(
                        85 + name_len + description_len as int,
                        89 + name_len + description_len as int,
                    ) == spec_u32_to_le_bytes(m.image.len() as u32));
                    assert(image_len == m.image.len());
                }
            }
        }
        return Err(ErrorCode::InvalidMessage);
    }
    let image = slice_to_vec(slice_subrange(data, image_start, data.len()));
    let msg = CrossChainMessage {
        action: CrossChainAction::Transfer,
        token_id,
        mint,
        original_chain,
        destination_chain,
        recipient,
        name,
        description,
        image,
    };
    proof {
        lemma_encode_spec_parts(msg@);
        assert(data@ =~= encode_spec(msg@));
        assert forall|m: MessageModel|
            msg_valid(m) && data@ == encode_spec(m) implies msg@ == m by {
            lemma_encode_spec_injective(m, msg@);
        }
    }
    Ok(msg)
}

} // verus!

