//! A cross-chain non-fungible-asset bridge.
//!
//! An asset minted on one chain can be locked and burned there, carried as a
//! wire message to another chain, and re-materialized as a wrapped copy; if
//! delivery fails, a revert restores the pre-transfer state on the origin
//! chain. The crate models each chain's bridge as a [`bridge::Bridge`] value:
//! an asset registry, an outbound-transfer ledger, a token ledger, and the
//! per-chain configuration, with the four protocol operations (send, receive,
//! revert, pause) as verified transitions over it. The message codec in
//! [`codec`] is proved to round-trip exactly, so both ends of a transfer agree
//! on the envelope byte for byte.

pub mod bridge;
pub mod codec;
pub mod error;
pub mod ledger;
pub mod registry;
pub mod tokens;
