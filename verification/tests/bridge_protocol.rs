use universal_nft::bridge::Bridge;
use universal_nft::error::ErrorCode;

fn mk_key(b: u8) -> Vec<u8> {
    vec![b; 32]
}

fn mk_addr(b: u8) -> Vec<u8> {
    vec![b; 20]
}

const AUTHORITY: u8 = 0xA0;
const GATEWAY: u8 = 0x9E;

fn mk_chain(chain_id: u64) -> Bridge {
    let mut b = Bridge::initialize(mk_key(AUTHORITY), chain_id, mk_key(GATEWAY));
    b.initialize_collection(
        mk_key(AUTHORITY),
        b"Universal".to_vec(),
        b"UNI".to_vec(),
        b"ipfs://base/".to_vec(),
    );
    b
}

fn mint_alpha(b: &mut Bridge, mint: &[u8], owner: &[u8]) {
    b.mint_nft(
        mint.to_vec(),
        owner.to_vec(),
        b"Alpha".to_vec(),
        b"first asset".to_vec(),
        b"ipfs://alpha".to_vec(),
    )
    .expect("minting on an unpaused chain succeeds");
}

fn record_of<'a>(b: &'a Bridge, mint: &Vec<u8>) -> &'a universal_nft::registry::NftRecord {
    b.registry.get(mint).expect("record exists")
}

#[test]
fn mint_assigns_sequence_numbers() {
    let mut b = mk_chain(1);
    let owner = mk_key(0x11);
    mint_alpha(&mut b, &mk_key(0x01), &owner);
    b.mint_nft(
        mk_key(0x02),
        owner.clone(),
        b"Beta".to_vec(),
        b"second asset".to_vec(),
        b"ipfs://beta".to_vec(),
    )
    .expect("second mint succeeds");
    assert_eq!(record_of(&b, &mk_key(0x01)).token_id, 0);
    assert_eq!(record_of(&b, &mk_key(0x02)).token_id, 1);
    assert_eq!(b.collection.total_supply, 2);
    assert_eq!(b.tokens.balance(&mk_key(0x01), &owner), 1);
}

#[test]
fn mint_fails_when_paused() {
    let mut b = mk_chain(1);
    b.set_paused(&mk_key(AUTHORITY), true).expect("authority may pause");
    let r = b.mint_nft(
        mk_key(0x01),
        mk_key(0x11),
        b"Alpha".to_vec(),
        Vec::new(),
        Vec::new(),
    );
    assert_eq!(r, Err(ErrorCode::ProgramPaused));
    assert_eq!(b.registry.records.len(), 0);
}

#[test]
fn set_paused_rejects_non_authority() {
    let mut b = mk_chain(1);
    let r = b.set_paused(&mk_key(0x55), true);
    assert_eq!(r, Err(ErrorCode::UnauthorizedAccess));
    assert!(!b.pda.paused);
}

#[test]
fn send_locks_and_opens_one_transfer() {
    let mut b = mk_chain(1);
    let mint = mk_key(0x01);
    let user = mk_key(0x11);
    mint_alpha(&mut b, &mint, &user);
    let (dispatch, event) = b
        .send_nft_cross_chain(user.clone(), mint.clone(), 2, mk_addr(0xD1), 1_700_000_000)
        .expect("send succeeds");
    // The asset is locked and its unit burned.
    assert!(record_of(&b, &mint).locked);
    assert_eq!(b.tokens.balance(&mint, &user), 0);
    // Exactly one open transfer exists for the asset.
    let open: Vec<_> = b
        .ledger
        .entries
        .iter()
        .filter(|t| !t.completed && t.message.mint == mint)
        .collect();
    assert_eq!(open.len(), 1);
    assert_eq!(open[0].user, user);
    assert_eq!(open[0].timestamp, 1_700_000_000);
    // The dispatch carries the envelope; the event describes the transfer.
    assert_eq!(dispatch.destination_chain, 2);
    assert_eq!(dispatch.recipient, mk_addr(0xD1));
    assert_eq!(
        dispatch.payload,
        universal_nft::codec::encode(&open[0].message)
    );
    assert_eq!(event.mint, mint);
    assert_eq!(event.from_chain, 1);
    assert_eq!(event.to_chain, 2);
    assert_eq!(event.recipient, mk_addr(0xD1));
    assert_eq!(event.token_id, 0);
    assert_eq!(event.timestamp, 1_700_000_000);
}

#[test]
fn send_twice_fails_already_locked() {
    let mut b = mk_chain(1);
    let mint = mk_key(0x01);
    let user = mk_key(0x11);
    mint_alpha(&mut b, &mint, &user);
    b.send_nft_cross_chain(user.clone(), mint.clone(), 2, mk_addr(0xD1), 5)
        .expect("first send succeeds");
    let r = b.send_nft_cross_chain(user.clone(), mint.clone(), 2, mk_addr(0xD1), 6);
    assert_eq!(r.unwrap_err(), ErrorCode::NftAlreadyLocked);
}

#[test]
fn send_fails_when_paused_regardless_of_state() {
    let mut b = mk_chain(1);
    let mint = mk_key(0x01);
    let user = mk_key(0x11);
    mint_alpha(&mut b, &mint, &user);
    b.set_paused(&mk_key(AUTHORITY), true).expect("authority may pause");
    // The holder is refused while paused...
    let r = b.send_nft_cross_chain(user.clone(), mint.clone(), 2, mk_addr(0xD1), 5);
    assert_eq!(r.unwrap_err(), ErrorCode::ProgramPaused);
    // ...and so is a caller without any balance: the pause gate comes first.
    let r = b.send_nft_cross_chain(mk_key(0x22), mint.clone(), 2, mk_addr(0xD1), 5);
    assert_eq!(r.unwrap_err(), ErrorCode::ProgramPaused);
    assert!(!record_of(&b, &mint).locked);
}

#[test]
fn send_fails_without_balance() {
    let mut b = mk_chain(1);
    let mint = mk_key(0x01);
    mint_alpha(&mut b, &mint, &mk_key(0x11));
    let r = b.send_nft_cross_chain(mk_key(0x22), mint.clone(), 2, mk_addr(0xD1), 5);
    assert_eq!(r.unwrap_err(), ErrorCode::InsufficientBalance);
    assert!(!record_of(&b, &mint).locked);
    assert!(b.ledger.entries.is_empty());
}

#[test]
fn revert_without_transfer_fails_not_found() {
    let mut b = mk_chain(1);
    let mint = mk_key(0x01);
    let user = mk_key(0x11);
    mint_alpha(&mut b, &mint, &user);
    let payload = universal_nft::codec::encode(&sample_envelope(&mint, 1));
    let r = b.on_revert(&mk_key(GATEWAY), 0, &mk_key(0), &payload, mint.clone(), user.clone());
    assert_eq!(r.unwrap_err(), ErrorCode::NotFound);
}

#[test]
fn revert_twice_fails_already_completed() {
    let mut b = mk_chain(1);
    let mint = mk_key(0x01);
    let user = mk_key(0x11);
    mint_alpha(&mut b, &mint, &user);
    let (dispatch, _) = b
        .send_nft_cross_chain(user.clone(), mint.clone(), 2, mk_addr(0xD1), 5)
        .expect("send succeeds");
    b.on_revert(&mk_key(GATEWAY), 0, &mk_key(0), &dispatch.payload, mint.clone(), user.clone())
        .expect("first revert succeeds");
    let r = b.on_revert(&mk_key(GATEWAY), 0, &mk_key(0), &dispatch.payload, mint.clone(), user);
    assert_eq!(r.unwrap_err(), ErrorCode::AlreadyCompleted);
}

fn sample_envelope(mint: &Vec<u8>, original_chain: u64) -> universal_nft::codec::CrossChainMessage {
    universal_nft::codec::CrossChainMessage {
        action: universal_nft::codec::CrossChainAction::Transfer,
        token_id: 0,
        mint: mint.clone(),
        original_chain,
        destination_chain: 2,
        recipient: mk_addr(0xD1),
        name: b"Alpha".to_vec(),
        description: b"first asset".to_vec(),
        image: b"ipfs://alpha".to_vec(),
    }
}

#[test]
fn scenario_wrapped_mint_on_destination() {
    // Asset A1 minted on chain 1 (sequence 0), sent to chain 2.
    let mut chain1 = mk_chain(1);
    let mut chain2 = mk_chain(2);
    let a1 = mk_key(0x01);
    let user = mk_key(0x11);
    mint_alpha(&mut chain1, &a1, &user);
    let (dispatch, _) = chain1
        .send_nft_cross_chain(user.clone(), a1.clone(), 2, mk_addr(0xD1), 5)
        .expect("send succeeds");
    // The relay delivers to chain 2, which mints a wrapped copy.
    let local2 = mk_key(0x02);
    let owner2 = mk_key(0x22);
    chain2
        .on_call(&mk_key(GATEWAY), 0, &mk_key(0), &dispatch.payload, local2.clone(), owner2.clone())
        .expect("delivery succeeds");
    let wrapped = record_of(&chain2, &local2);
    assert_eq!(wrapped.original_chain, 1);
    assert_eq!(wrapped.token_id, 0);
    assert!(!wrapped.locked);
    assert_eq!(wrapped.name, b"Wrapped Alpha".to_vec());
    assert_eq!(wrapped.description, b"first asset".to_vec());
    assert_eq!(chain2.tokens.balance(&local2, &owner2), 1);
    // Chain 1's record stays locked.
    assert!(record_of(&chain1, &a1).locked);
}

#[test]
fn scenario_revert_restores_origin() {
    // The same transfer reverts instead of completing.
    let mut chain1 = mk_chain(1);
    let chain2 = mk_chain(2);
    let a1 = mk_key(0x01);
    let user = mk_key(0x11);
    mint_alpha(&mut chain1, &a1, &user);
    let (dispatch, _) = chain1
        .send_nft_cross_chain(user.clone(), a1.clone(), 2, mk_addr(0xD1), 5)
        .expect("send succeeds");
    chain1
        .on_revert(&mk_key(GATEWAY), 0, &mk_key(0), &dispatch.payload, a1.clone(), user.clone())
        .expect("revert succeeds");
    assert!(!record_of(&chain1, &a1).locked);
    assert_eq!(chain1.tokens.balance(&a1, &user), 1);
    assert!(chain1.ledger.entries.iter().all(|t| t.completed));
    // No mint happened on chain 2.
    assert!(chain2.tokens.accounts.is_empty());
    assert!(chain2.registry.records.is_empty());
}

#[test]
fn scenario_wrapped_asset_returns_home() {
    // A wrapped copy on chain 2 is sent back to chain 1.
    let mut chain1 = mk_chain(1);
    let mut chain2 = mk_chain(2);
    let a1 = mk_key(0x01);
    let user = mk_key(0x11);
    mint_alpha(&mut chain1, &a1, &user);
    let (outbound, _) = chain1
        .send_nft_cross_chain(user.clone(), a1.clone(), 2, mk_addr(0xD1), 5)
        .expect("send succeeds");
    let local2 = mk_key(0x02);
    let owner2 = mk_key(0x22);
    chain2
        .on_call(&mk_key(GATEWAY), 0, &mk_key(0), &outbound.payload, local2.clone(), owner2.clone())
        .expect("delivery succeeds");
    // Chain 2 sends the wrapped asset back towards chain 1.
    let (homeward, _) = chain2
        .send_nft_cross_chain(owner2.clone(), local2.clone(), 1, mk_addr(0xD2), 6)
        .expect("send back succeeds");
    let new_owner = mk_key(0x33);
    chain1
        .on_call(&mk_key(GATEWAY), 0, &mk_key(0), &homeward.payload, a1.clone(), new_owner.clone())
        .expect("home delivery succeeds");
    // Chain 1 unlocked and re-minted the original record: no wrapped copy.
    assert_eq!(chain1.registry.records.len(), 1);
    let home = record_of(&chain1, &a1);
    assert!(!home.locked);
    assert_eq!(home.name, b"Alpha".to_vec());
    assert_eq!(home.original_chain, 1);
    assert_eq!(chain1.tokens.balance(&a1, &new_owner), 1);
}

#[test]
fn receive_gated_on_pause() {
    let mut b = mk_chain(2);
    b.set_paused(&mk_key(AUTHORITY), true).expect("authority may pause");
    let msg = sample_envelope(&mk_key(0x01), 1);
    let r = b.receive_nft_cross_chain(mk_key(0x02), mk_key(0x22), &msg);
    assert_eq!(r.unwrap_err(), ErrorCode::ProgramPaused);
    assert!(b.registry.records.is_empty());
}

#[test]
fn receive_mints_wrapped_copy() {
    let mut b = mk_chain(2);
    let msg = sample_envelope(&mk_key(0x01), 1);
    let local = mk_key(0x02);
    let owner = mk_key(0x22);
    b.receive_nft_cross_chain(local.clone(), owner.clone(), &msg)
        .expect("receive succeeds");
    let rec = record_of(&b, &local);
    assert_eq!(rec.name, b"Wrapped Alpha".to_vec());
    assert_eq!(rec.original_chain, 1);
    assert_eq!(b.tokens.balance(&local, &owner), 1);
}

#[test]
fn resend_after_revert_succeeds() {
    let mut b = mk_chain(1);
    let mint = mk_key(0x01);
    let user = mk_key(0x11);
    mint_alpha(&mut b, &mint, &user);
    let (dispatch, _) = b
        .send_nft_cross_chain(user.clone(), mint.clone(), 2, mk_addr(0xD1), 5)
        .expect("first send succeeds");
    b.on_revert(&mk_key(GATEWAY), 0, &mk_key(0), &dispatch.payload, mint.clone(), user.clone())
        .expect("revert succeeds");
    // The unwound asset can be sent again; the settled ledger slot is
    // re-used, so exactly one entry for (asset, user) remains.
    b.send_nft_cross_chain(user.clone(), mint.clone(), 3, mk_addr(0xD2), 7)
        .expect("second send succeeds");
    assert!(record_of(&b, &mint).locked);
    let entries: Vec<_> = b
        .ledger
        .entries
        .iter()
        .filter(|t| t.message.mint == mint && t.user == user)
        .collect();
    assert_eq!(entries.len(), 1);
    assert!(!entries[0].completed);
    assert_eq!(entries[0].message.destination_chain, 3);
    assert_eq!(entries[0].timestamp, 7);
}

#[test]
fn duplicate_delivery_mints_twice() {
    // The completion path carries no per-message deduplication: a relay
    // that redelivers the same payload mints a second unit. The guard
    // against double-processing sits on the revert path only.
    let mut chain1 = mk_chain(1);
    let mut chain2 = mk_chain(2);
    let a1 = mk_key(0x01);
    let user = mk_key(0x11);
    mint_alpha(&mut chain1, &a1, &user);
    let (dispatch, _) = chain1
        .send_nft_cross_chain(user.clone(), a1.clone(), 2, mk_addr(0xD1), 5)
        .expect("send succeeds");
    let local2 = mk_key(0x02);
    let owner2 = mk_key(0x22);
    for _ in 0..2 {
        chain2
            .on_call(&mk_key(GATEWAY), 0, &mk_key(0), &dispatch.payload, local2.clone(), owner2.clone())
            .expect("delivery succeeds");
    }
    assert_eq!(chain2.tokens.balance(&local2, &owner2), 2);
    assert_eq!(chain2.registry.records.len(), 1);
}

#[test]
fn callbacks_reject_unknown_caller() {
    let mut b = mk_chain(1);
    let mint = mk_key(0x01);
    let user = mk_key(0x11);
    mint_alpha(&mut b, &mint, &user);
    let (dispatch, _) = b
        .send_nft_cross_chain(user.clone(), mint.clone(), 2, mk_addr(0xD1), 5)
        .expect("send succeeds");
    let imposter = mk_key(0x66);
    let r = b.on_call(&imposter, 0, &mk_key(0), &dispatch.payload, mint.clone(), user.clone());
    assert_eq!(r.unwrap_err(), ErrorCode::InvalidCaller);
    let r = b.on_revert(&imposter, 0, &mk_key(0), &dispatch.payload, mint.clone(), user.clone());
    assert_eq!(r.unwrap_err(), ErrorCode::InvalidCaller);
    // Rejected before any state mutation: still locked, transfer still open.
    assert!(record_of(&b, &mint).locked);
    assert!(b.ledger.entries.iter().any(|t| !t.completed));
    assert_eq!(b.tokens.balance(&mint, &user), 0);
}

#[test]
fn callbacks_reject_malformed_payload() {
    let mut b = mk_chain(1);
    let mint = mk_key(0x01);
    let user = mk_key(0x11);
    mint_alpha(&mut b, &mint, &user);
    b.send_nft_cross_chain(user.clone(), mint.clone(), 2, mk_addr(0xD1), 5)
        .expect("send succeeds");
    let garbage = vec![7u8; 30];
    let r = b.on_call(&mk_key(GATEWAY), 0, &mk_key(0), &garbage, mint.clone(), user.clone());
    assert_eq!(r.unwrap_err(), ErrorCode::InvalidMessage);
    let r = b.on_revert(&mk_key(GATEWAY), 0, &mk_key(0), &garbage, mint.clone(), user.clone());
    assert_eq!(r.unwrap_err(), ErrorCode::InvalidMessage);
    assert!(record_of(&b, &mint).locked);
}
