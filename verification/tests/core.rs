use ed25519_dalek::{Signer, SigningKey};
use zosh::bft::Bft;
use zosh::block::{Block, Head, Header};
use zosh::crypto::blake3;
use zosh::crypto::ed25519::verify;
use zosh::ex::{Bridge, BridgeBundle, Extrinsic, Receipt};
use zosh::history::History;
use zosh::registry::{Chain, Coin};
use zosh::state::key::{to_key, BFT_KEY_ID, ZEC_KEY_ID};
use zosh::tx::{Message as SignedMessage, MintBundle, MintBundleReceipt};
use zosh::util::{FixedBytes, Message};
use zosh::{CoreError, EPOCH_LENGTH};

fn header(slot: u32) -> Header {
    Header {
        slot,
        parent: [1u8; 32],
        state: [2u8; 32],
        accumulator: [3u8; 32],
        extrinsic: [4u8; 32],
        votes: vec![],
    }
}

fn empty_extrinsic() -> Extrinsic {
    Extrinsic { bridge: vec![], receipts: vec![] }
}

fn bridge(txid: &[u8], amount: u64, source: Chain, target: Chain) -> Bridge {
    Bridge { coin: Coin::Zec, recipient: vec![7u8; 32], amount, source, target, txid: txid.to_vec() }
}

fn receipt(txid: &[u8]) -> Receipt {
    Receipt { anchor: vec![9u8; 32], coin: Coin::Zec, txid: txid.to_vec(), source: Chain::Zcash, target: Chain::Solana }
}

#[test]
fn header_hash_is_blake3_of_encoding() {
    let h = header(0x01020304);
    let mut expected = vec![4u8, 3, 2, 1];
    expected.extend_from_slice(&[1u8; 32]);
    expected.extend_from_slice(&[2u8; 32]);
    expected.extend_from_slice(&[3u8; 32]);
    expected.extend_from_slice(&[4u8; 32]);
    assert_eq!(h.encode(), expected);
    assert_eq!(h.hash(), *::blake3::hash(&expected).as_bytes());
    let block = Block { header: h, extrinsic: empty_extrinsic() };
    let head = block.head();
    assert_eq!(head.slot, 0x01020304);
    assert_eq!(head.hash, *::blake3::hash(&expected).as_bytes());
}

#[test]
fn max_bundle_size_per_chain() {
    assert_eq!(Chain::Solana.max_bundle_size(), 10);
    assert_eq!(Chain::Zcash.max_bundle_size(), 1);
    assert_eq!(Chain::Solana.as_str(), "Solana");
    assert_eq!(Coin::Zec.as_str(), "Zec");
    assert_eq!(Coin::Zec.to_string(), "ZEC");
}

#[test]
fn count_and_txs_of_extrinsic() {
    let mut b1 = BridgeBundle::new(Chain::Solana);
    b1.bridge.push(bridge(b"zz", 1, Chain::Zcash, Chain::Solana));
    b1.bridge.push(bridge(b"aa", 2, Chain::Zcash, Chain::Solana));
    let mut b2 = BridgeBundle::new(Chain::Zcash);
    b2.bridge.push(bridge(b"a", 3, Chain::Solana, Chain::Zcash));
    let ex = Extrinsic { bridge: vec![([1u8; 32], b1), ([2u8; 32], b2)], receipts: vec![receipt(b"m"), receipt(b"aa")] };
    assert_eq!(ex.count(), 5);
    let txs = ex.txs();
    assert_eq!(txs, vec![b"a".to_vec(), b"aa".to_vec(), b"aa".to_vec(), b"m".to_vec(), b"zz".to_vec()]);
    assert_eq!(txs.len(), ex.count());
    assert_eq!(empty_extrinsic().count(), 0);
    assert!(empty_extrinsic().txs().is_empty());
}

fn signed_header(slot: u32, keys: &[SigningKey], sig_len: Option<usize>) -> Header {
    let mut h = header(slot);
    let hash = h.hash();
    for k in keys {
        let mut sig = k.sign(&hash).to_bytes().to_vec();
        if let Some(n) = sig_len {
            sig.truncate(n);
        }
        h.votes.push((k.verifying_key().to_bytes(), sig));
    }
    h
}

#[test]
fn validate_votes_counts_valid_validator_signatures() {
    let keys: Vec<SigningKey> = (1u8..=3).map(|i| SigningKey::from_bytes(&[i; 32])).collect();
    let bft = Bft {
        validators: keys.iter().map(|k| k.verifying_key().to_bytes()).collect(),
        threshold: 2,
        series: vec![],
    };
    let ok = signed_header(5, &keys[..2], None);
    assert_eq!(bft.validate_votes(&ok), Ok(()));

    let few = signed_header(5, &keys[..1], None);
    assert_eq!(bft.validate_votes(&few), Err(CoreError::InsufficientVotes { threshold: 2, votes: 1 }));

    let mut forged = signed_header(5, &keys[..2], None);
    forged.votes[1].1[0] ^= 1;
    assert_eq!(bft.validate_votes(&forged), Err(CoreError::InsufficientVotes { threshold: 2, votes: 1 }));

    let short = signed_header(5, &keys[..2], Some(63));
    assert_eq!(bft.validate_votes(&short), Err(CoreError::InvalidLength { expected: 64, got: 63 }));

    let outsider = SigningKey::from_bytes(&[42u8; 32]);
    let mut mixed = signed_header(5, &keys[..2], None);
    mixed.votes.push((outsider.verifying_key().to_bytes(), vec![0u8; 3]));
    assert_eq!(bft.validate_votes(&mixed), Ok(()));

    let mut twice = signed_header(5, &keys[..1], None);
    let first = twice.votes[0].clone();
    twice.votes.push(first);
    assert_eq!(bft.validate_votes(&twice), Err(CoreError::InsufficientVotes { threshold: 2, votes: 1 }));
}

#[test]
fn check_threshold_boundary() {
    let bft = Bft { validators: vec![], threshold: 3, series: vec![] };
    assert_eq!(bft.check_threshold(3), Ok(()));
    assert_eq!(bft.check_threshold(2), Err(CoreError::InsufficientVotes { threshold: 3, votes: 2 }));
    let zero = Bft { validators: vec![], threshold: 0, series: vec![] };
    assert_eq!(zero.validate_votes(&header(1)), Ok(()));
}

#[test]
fn ed25519_verify_wrapper() {
    let key = SigningKey::from_bytes(&[5u8; 32]);
    let sig = key.sign(b"msg").to_bytes();
    let pk = key.verifying_key().to_bytes();
    assert!(verify(&pk, b"msg", &sig).is_ok());
    assert!(verify(&pk, b"other", &sig).is_err());
}

#[test]
fn history_keeps_the_last_epoch() {
    let mut history = History::new();
    for slot in 0..(EPOCH_LENGTH as u32 + 3) {
        history.import(Block { header: header(slot), extrinsic: empty_extrinsic() }).unwrap();
    }
    assert_eq!(history.blocks.len(), EPOCH_LENGTH);
    let slots: Vec<u32> = history.blocks.iter().map(|h: &Head| h.slot).collect();
    assert_eq!(slots, (3..(EPOCH_LENGTH as u32 + 3)).collect::<Vec<u32>>());
    assert_eq!(history.blocks.back().unwrap().hash, header(EPOCH_LENGTH as u32 + 2).hash());
}

#[test]
fn history_below_the_epoch_keeps_everything() {
    let mut history = History::new();
    history.import(Block { header: header(7), extrinsic: empty_extrinsic() }).unwrap();
    assert_eq!(history.blocks.len(), 1);
    assert_eq!(history.blocks[0].slot, 7);
}

#[test]
fn mint_bundle_message_and_signatures() {
    let mut bundle = MintBundle { nonce: 0x0102, entries: vec![([5u8; 32], 0x0304)], signatures: vec![], source: vec![] };
    let mut expected = vec![2u8, 1, 0, 0, 0, 0, 0, 0];
    expected.extend_from_slice(&[5u8; 32]);
    expected.extend_from_slice(&[4u8, 3, 0, 0, 0, 0, 0, 0]);
    assert_eq!(SignedMessage::message(&bundle), expected);
    bundle.append_signature([8u8; 64]);
    assert_eq!(bundle.signatures, vec![vec![8u8; 64]]);
    assert_eq!(SignedMessage::message(&bundle), expected);

    let state_bundle = zosh::state::sol::MintBundle { nonce: 0x0102, entries: vec![([5u8; 32], 0x0304)], signatures: vec![] };
    assert_eq!(Message::message(&state_bundle), expected);
}

#[test]
fn mint_receipt_message() {
    let mut receipt = MintBundleReceipt { signature: vec![1, 2, 3], nonce: 1, signatures: vec![] };
    assert_eq!(SignedMessage::message(&receipt), vec![1u8, 0, 0, 0, 0, 0, 0, 0, 1, 2, 3]);
    receipt.append_signature([0u8; 64]);
    assert_eq!(receipt.signatures.len(), 1);
    let ex_receipt = zosh::ex::sol::MintBundleReceipt { hash: [0u8; 32], signature: vec![9], nonce: 2 };
    assert_eq!(Message::message(&ex_receipt), vec![2u8, 0, 0, 0, 0, 0, 0, 0, 9]);
}

#[test]
fn fixed_bytes_conversions() {
    let v = vec![3u8; 32];
    assert_eq!(v.bytes32(), Ok([3u8; 32]));
    assert_eq!(v.bytes64(), Err(CoreError::InvalidLength { expected: 64, got: 32 }));
    assert_eq!(v.bytes::<4>(), Err(CoreError::InvalidLength { expected: 4, got: 32 }));
    let s: &[u8] = &[1u8, 2, 3, 4];
    assert_eq!(s.bytes::<4>(), Ok([1u8, 2, 3, 4]));
}

#[test]
fn state_keys() {
    let k = to_key(ZEC_KEY_ID);
    assert_eq!(k[0], 3);
    assert!(k[1..].iter().all(|b| *b == 0));
    assert_eq!(to_key(BFT_KEY_ID), [0u8; 31]);
}

#[test]
fn blake3_of_header_differs_from_input() {
    assert_ne!(blake3(&[]).to_vec(), Vec::<u8>::new());
}

#[test]
fn error_texts_and_defaults() {
    assert_eq!(
        CoreError::InsufficientVotes { threshold: 2, votes: 1 }.message(),
        "Insufficient votes, expected 2 votes, got 1"
    );
    assert_eq!(CoreError::InvalidLength { expected: 64, got: 63 }.message(), "expected 64 bytes, got 63 bytes");
    let bft = Bft::default();
    assert!(bft.validators.is_empty() && bft.series.is_empty());
    assert_eq!(bft.threshold, 0);
    let ex = Extrinsic::default();
    assert_eq!(ex.count(), 0);
    let state = zosh::State::default();
    assert!(state.sol.is_empty() && state.zec.is_empty() && state.history.blocks.is_empty());
}
