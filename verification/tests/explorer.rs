use zosh::block::{Block, Header};
use zosh::codec::{parse_u32, push_decimal, str_eq};
use zosh::ex::{Bridge, BridgeBundle, Extrinsic, Receipt};
use zosh::registry::{Chain, Coin};
use zosh::ui::db::{heads_from_rows, head_from_row, joined_receipt, summarize_block, BridgeTransactionResult, ReceiptInfo, RowError};
use zosh::ui::error::AppError;
use zosh::ui::rows::{block_from_rows, BlockRow, BridgeRow, ReceiptRow};
use zosh::ui::util::{decode_txid, encode_recipient, encode_txid, parse_chain, parse_coin, reversed};
use zosh::ui::view::{UIBlock, UIBridge, UIHead, UIReceipt, UITxn};
use zosh::ui::web::{
    decode_query_id, feed_action, is_websocket_upgrade, page_offset, page_params, parse_block_ref, poll_step,
    reversed_hex, should_broadcast, socket_action, BlockRef, FeedAction, FeedEvent, PollAction, PollStatus,
    SocketAction, SocketEvent,
};
use zosh::ui::web;

fn b58(data: &[u8]) -> String {
    bs58::encode(data).into_string()
}

#[test]
fn hex_text_of_ids() {
    assert_eq!(reversed_hex(&[0x10, 0xab, 0x00]), "00ab10");
    assert_eq!(decode_txid("00AB10").unwrap(), vec![0x10, 0xab, 0x00]);
    assert_eq!(decode_txid("00ab10").unwrap(), vec![0x10, 0xab, 0x00]);
    // odd length: not hexadecimal, read as base58
    assert_eq!(decode_txid("abc").unwrap(), bs58::decode("abc").into_vec().unwrap());
}

#[test]
fn base58_text_of_ids() {
    let head = zosh::Head { slot: 3, hash: [9u8; 32] };
    assert_eq!(UIHead::from_head(&head, 0).hash, b58(&[9u8; 32]));
    assert_eq!(decode_query_id("he11owor1d").unwrap(), vec![0x04, 0x30, 0x5e, 0x2b, 0x24, 0x73, 0xf0, 0x58]);
    assert_eq!(decode_query_id("0OIl").unwrap_err(), "Invalid query ID: must be base58 encoded");
}

#[test]
fn utf8_and_text_helpers() {
    assert_eq!(encode_recipient(b"u1abc"), "u1abc");
    assert_eq!(encode_recipient(&[0xffu8, 0xfe]), "fffe");
    assert!(str_eq("Solana", "Solana"));
    assert!(!str_eq("Solana", "solana"));
    let mut s = "n=".to_string();
    push_decimal(&mut s, 0);
    push_decimal(&mut s, 1234567);
    assert_eq!(s, "n=01234567");
}

#[test]
fn parse_u32_like_std() {
    for text in ["0", "42", "+42", "007", "4294967295", "4294967296", "", "+", "-1", " 1", "1a", "99999999999"] {
        assert_eq!(parse_u32(text), text.parse::<u32>().ok(), "{text}");
    }
}

#[test]
fn encode_txid_by_length() {
    let zcash: Vec<u8> = (0u8..32).collect();
    let mut rev = zcash.clone();
    rev.reverse();
    assert_eq!(encode_txid(&zcash), hex::encode(&rev));
    let solana = vec![7u8; 64];
    assert_eq!(encode_txid(&solana), b58(&solana));
    assert_eq!(encode_txid(&[1u8, 2]), "0102");
    assert_eq!(reversed(&[1u8, 2, 3]), vec![3u8, 2, 1]);
}

#[test]
fn encode_recipient_forms() {
    let sol = vec![1u8; 32];
    assert_eq!(encode_recipient(&sol), b58(&sol));
    assert_eq!(encode_recipient(b"u1unified"), "u1unified");
    assert_eq!(encode_recipient(&[0xffu8, 0x00]), "ff00");
}

#[test]
fn decode_txid_roundtrip_and_errors() {
    let zcash: Vec<u8> = (100u8..132).collect();
    assert_eq!(decode_txid(&encode_txid(&zcash)).unwrap(), zcash);
    let solana: Vec<u8> = vec![200u8; 64];
    assert_eq!(decode_txid(&b58(&solana)).unwrap(), solana);
    match decode_txid("not-a-txid!") {
        Err(AppError::BadRequest(m)) => assert_eq!(m, "Invalid txid format: must be hex or base58 encoded"),
        other => panic!("unexpected {other:?}"),
    }
}

#[test]
fn chain_and_coin_parsing() {
    assert_eq!(parse_chain("Solana"), Chain::Solana);
    assert_eq!(parse_chain("Zcash"), Chain::Zcash);
    assert_eq!(parse_chain("Ethereum"), Chain::Zcash);
    assert_eq!(parse_coin("zec"), Coin::Zec);
    assert_eq!(parse_coin("anything"), Coin::Zec);
}

#[test]
fn web_decode_txid_classifies_chains() {
    let zcash: Vec<u8> = (0u8..32).collect();
    let (bytes, chain) = web::decode_txid(&encode_txid(&zcash)).unwrap();
    assert_eq!((bytes, chain), (zcash, "Zcash"));
    let solana = vec![3u8; 64];
    assert_eq!(web::decode_txid(&b58(&solana)).unwrap(), (solana, "Solana"));
    assert_eq!(
        web::decode_txid("0102").unwrap_err(),
        "Invalid txid length: expected 32 (Zcash) or 64 (Solana) bytes, got 2"
    );
    assert_eq!(web::decode_txid("!!").unwrap_err(), "Invalid txid format: must be hex or base58 encoded");
}

#[test]
fn decode_query_id_base58() {
    assert_eq!(decode_query_id(&b58(&[1, 2, 3])).unwrap(), vec![1u8, 2, 3]);
    assert_eq!(decode_query_id("0abc").unwrap_err(), "Invalid query ID: must be base58 encoded");
    assert_eq!(reversed_hex(&[0x01, 0xff]), "ff01");
}

#[test]
fn block_references() {
    assert!(matches!(parse_block_ref("12"), Ok(BlockRef::Slot(12))));
    let hash = [9u8; 32];
    match parse_block_ref(&b58(&hash)) {
        Ok(BlockRef::Hash(h)) => assert_eq!(h, hash.to_vec()),
        other => panic!("unexpected {other:?}"),
    }
    match parse_block_ref("0xyz") {
        Err(AppError::BadRequest(m)) => assert_eq!(m, "Invalid hash: must be base58 encoded"),
        other => panic!("unexpected {other:?}"),
    }
    match parse_block_ref(&b58(&[1u8; 5])) {
        Err(e) => {
            assert_eq!(e.status_code(), 400);
            assert_eq!(e.message(), "Invalid hash length: expected 32 bytes, got 5");
        }
        other => panic!("unexpected {other:?}"),
    }
}

#[test]
fn paging() {
    assert_eq!(page_params(None, None), (0, 10));
    assert_eq!(page_params(Some(3), Some(500)), (3, 100));
    assert_eq!(page_params(Some(1), Some(20)), (1, 20));
    assert_eq!(page_offset(3, 20), 60);
}

#[test]
fn subscription_steps() {
    assert_eq!(poll_step(false, PollStatus::NotFound), (PollAction::NotifyPending, true));
    assert_eq!(poll_step(true, PollStatus::NotFound), (PollAction::Wait, true));
    assert_eq!(poll_step(true, PollStatus::Found), (PollAction::SendAndClose, true));
    assert_eq!(poll_step(false, PollStatus::Failed), (PollAction::FailAndClose, false));
    assert_eq!(socket_action(SocketEvent::Ping), SocketAction::Pong);
    assert_eq!(socket_action(SocketEvent::Closed), SocketAction::Stop);
    assert_eq!(socket_action(SocketEvent::Other), SocketAction::Ignore);
    assert_eq!(feed_action(FeedEvent::Lagged), FeedAction::Skip);
    assert_eq!(feed_action(FeedEvent::Update), FeedAction::Forward);
    assert_eq!(feed_action(FeedEvent::Closed), FeedAction::Stop);
}

#[test]
fn websocket_upgrade_header() {
    assert!(is_websocket_upgrade(Some("websocket")));
    assert!(is_websocket_upgrade(Some("WebSocket")));
    assert!(!is_websocket_upgrade(Some("websockets")));
    assert!(!is_websocket_upgrade(Some("h2c")));
    assert!(!is_websocket_upgrade(None));
}

fn stats(blocks: u32, head: &str) -> zosh::ui::db::Stats {
    zosh::ui::db::Stats { blocks, txns: 1, head: head.to_string(), slot: 2, zec_to_solana: 0, zozec_to_zcash: 0, receipts: 0 }
}

#[test]
fn stats_broadcast_decision() {
    assert!(should_broadcast(&None, &stats(1, "a")));
    assert!(!should_broadcast(&Some(stats(1, "a")), &stats(1, "b")));
    assert!(should_broadcast(&Some(stats(1, "a")), &stats(2, "a")));
}

#[test]
fn stats_polling_sequence() {
    // first read is sent
    let (send, last) = web::stats_poll_step(None, Some(stats(1, "a")));
    assert!(send);
    assert_eq!(last.as_ref().map(|s| s.blocks), Some(1));
    // a failed read sends nothing and keeps the last sent
    let (send, last) = web::stats_poll_step(last, None);
    assert!(!send);
    assert_eq!(last.as_ref().map(|s| s.head.clone()), Some("a".to_string()));
    // a change of head alone is not sent and does not replace the last sent
    let (send, last) = web::stats_poll_step(last, Some(stats(1, "b")));
    assert!(!send);
    assert_eq!(last.as_ref().map(|s| s.head.clone()), Some("a".to_string()));
    // a change of blocks is sent
    let (send, last) = web::stats_poll_step(last, Some(stats(2, "c")));
    assert!(send);
    assert_eq!(last.map(|s| (s.blocks, s.head)), Some((2, "c".to_string())));
}

#[test]
fn app_error_codes() {
    assert_eq!(AppError::NotFound("x".into()).status_code(), 404);
    assert_eq!(AppError::Internal("y".into()).status_code(), 500);
    assert_eq!(AppError::Internal("y".into()).message(), "y");
}

fn bridge_row(txid: u8, bundle: u8, target: &str) -> BridgeRow {
    BridgeRow {
        txid: vec![txid; 32],
        coin: "ZEC".into(),
        recipient: vec![1u8; 32],
        amount: txid as u64,
        source: "Zcash".into(),
        target: target.into(),
        bundle_hash: vec![bundle; 32],
    }
}

fn header_row() -> BlockRow {
    BlockRow { slot: 4, parent: vec![1u8; 32], state: vec![2u8; 32], accumulator: vec![3u8; 32], extrinsic: vec![4u8; 32] }
}

#[test]
fn block_from_rows_groups_bridges() {
    let rows = vec![bridge_row(1, 9, "Solana"), bridge_row(2, 5, "Zcash"), bridge_row(3, 9, "Zcash")];
    let receipts = vec![ReceiptRow { txid: vec![8u8; 64], anchor: vec![1u8; 32], coin: "Zec".into(), source: "Solana".into(), target: "Zcash".into() }];
    let block = block_from_rows(&header_row(), vec![([6u8; 32], vec![1u8; 64])], &rows, &receipts).unwrap();
    assert_eq!(block.header.slot, 4);
    assert_eq!(block.header.parent, [1u8; 32]);
    assert_eq!(block.header.votes.len(), 1);
    let keys: Vec<[u8; 32]> = block.extrinsic.bridge.iter().map(|(k, _)| *k).collect();
    assert_eq!(keys, vec![[5u8; 32], [9u8; 32]]);
    let nine = &block.extrinsic.bridge[1].1;
    assert_eq!(nine.target, Chain::Solana);
    assert_eq!(nine.bridge.iter().map(|b| b.amount).collect::<Vec<_>>(), vec![1, 3]);
    assert_eq!(nine.bridge[1].target, Chain::Zcash);
    assert_eq!(block.extrinsic.bridge[0].1.target, Chain::Zcash);
    assert_eq!(block.extrinsic.receipts[0].source, Chain::Solana);
    assert_eq!(block.extrinsic.count(), 4);
}

#[test]
fn block_from_rows_errors() {
    let mut bad = bridge_row(1, 9, "Solana");
    bad.bundle_hash.pop();
    let mut header = header_row();
    header.state = vec![];
    assert_eq!(block_from_rows(&header, vec![], &vec![bad], &vec![]).unwrap_err(), RowError::InvalidBundleHash);
    assert_eq!(block_from_rows(&header, vec![], &vec![], &vec![]).unwrap_err(), RowError::InvalidState);
    assert_eq!(RowError::InvalidState.message(), "Invalid state hash");
    let mut header = header_row();
    header.parent = vec![0u8; 33];
    assert_eq!(block_from_rows(&header, vec![], &vec![], &vec![]).unwrap_err(), RowError::InvalidParent);
}

#[test]
fn heads_from_stored_rows() {
    let rows = vec![(3u32, vec![1u8; 32], 2u32), (2u32, vec![1u8; 31], 5u32), (1u32, vec![2u8; 32], 0u32)];
    let heads = heads_from_rows(&rows);
    assert_eq!(heads.len(), 2);
    assert_eq!((heads[0].0.slot, heads[0].1), (3, 2));
    assert_eq!((heads[1].0.slot, heads[1].0.hash), (1, [2u8; 32]));
    assert_eq!(head_from_row(1, &[0u8; 3]).unwrap_err(), RowError::InvalidHash);
}

fn sample_block() -> Block {
    let mut to_sol = BridgeBundle::new(Chain::Solana);
    to_sol.bridge.push(Bridge { coin: Coin::Zec, recipient: vec![2u8; 32], amount: 5, source: Chain::Zcash, target: Chain::Solana, txid: vec![1u8; 32] });
    to_sol.bridge.push(Bridge { coin: Coin::Zec, recipient: b"u1x".to_vec(), amount: 7, source: Chain::Zcash, target: Chain::Solana, txid: vec![2u8; 32] });
    let mut to_zec = BridgeBundle::new(Chain::Zcash);
    to_zec.bridge.push(Bridge { coin: Coin::Zec, recipient: b"u1y".to_vec(), amount: 11, source: Chain::Solana, target: Chain::Zcash, txid: vec![3u8; 64] });
    Block {
        header: Header { slot: 9, parent: [1u8; 32], state: [2u8; 32], accumulator: [3u8; 32], extrinsic: [4u8; 32], votes: vec![([5u8; 32], vec![6u8; 64])] },
        extrinsic: Extrinsic {
            bridge: vec![([1u8; 32], to_sol), ([2u8; 32], to_zec)],
            receipts: vec![Receipt { anchor: vec![1u8; 32], coin: Coin::Zec, txid: vec![4u8; 64], source: Chain::Zcash, target: Chain::Solana }],
        },
    }
}

#[test]
fn stored_block_reads_back() {
    let block = sample_block();
    let (header, votes, bridges, receipts) = zosh::ui::stored::block_rows(&block).unwrap();
    let map: std::collections::BTreeMap<[u8; 32], Vec<u8>> = block.header.votes.iter().cloned().collect();
    assert_eq!(votes, postcard::to_allocvec(&map).unwrap());
    assert_eq!(bridges.len(), 3);
    assert_eq!(bridges[0].coin, "ZEC");
    assert_eq!(bridges[2].source, "Solana");
    assert_eq!(bridges[2].bundle_hash, vec![2u8; 32]);
    assert_eq!(receipts[0].coin, "Zec");
    let read = zosh::ui::stored::read_block(&header, &votes, &bridges, &receipts).unwrap();
    assert_eq!(read.header.votes, block.header.votes);
    assert_eq!(
        zosh::ui::stored::read_block(&header, &[0xff, 0xff], &bridges, &receipts).unwrap_err(),
        RowError::InvalidVotes
    );
    assert_eq!(RowError::InvalidVotes.message(), "Invalid votes encoding");
    let (slot, hash) = zosh::ui::view::latest_view(&zosh::Head { slot: 7, hash: [3u8; 32] });
    assert_eq!((slot, hash), (7, b58(&[3u8; 32])));
    assert_eq!(read.header.hash(), block.header.hash());
    assert_eq!(read.extrinsic.bridge.len(), 2);
    for ((k1, b1), (k2, b2)) in read.extrinsic.bridge.iter().zip(block.extrinsic.bridge.iter()) {
        assert_eq!(k1, k2);
        assert_eq!(b1.target, b2.target);
        let t1: Vec<_> = b1.bridge.iter().map(|b| (b.txid.clone(), b.recipient.clone(), b.amount, b.source, b.target)).collect();
        let t2: Vec<_> = b2.bridge.iter().map(|b| (b.txid.clone(), b.recipient.clone(), b.amount, b.source, b.target)).collect();
        assert_eq!(t1, t2);
    }
    assert_eq!(read.extrinsic.receipts[0].txid, vec![4u8; 64]);
    assert_eq!(read.extrinsic.receipts[0].target, Chain::Solana);
}

#[test]
fn block_summary_totals() {
    let block = sample_block();
    let s = summarize_block(&block);
    assert_eq!(s.txns, 4);
    assert_eq!(s.receipts, 1);
    assert_eq!(s.zec_to_solana, 12);
    assert_eq!(s.zozec_to_zcash, 11);
    assert_eq!(s.hash, block.header.hash());
    assert_eq!(s.head, b58(&block.header.hash()));
    assert_eq!(s.slot, 9);
}

#[test]
fn ui_block_view() {
    let block = sample_block();
    let ui = UIBlock::from_block(&block);
    assert_eq!(ui.slot, 9);
    assert_eq!(ui.hash, b58(&block.header.hash()));
    assert_eq!(ui.parent, b58(&[1u8; 32]));
    assert_eq!(ui.votes, vec![(b58(&[5u8; 32]), b58(&[6u8; 64]))]);
    assert_eq!(ui.extrinsic.bridge.len(), 2);
    let bundle = &ui.extrinsic.bridge[0];
    assert_eq!(bundle.target, "Solana");
    assert_eq!(bundle.hash, b58(&[1u8; 32]));
    assert_eq!(bundle.data, "");
    assert_eq!(bundle.bridges[1].recipient, "u1x");
    assert_eq!(bundle.bridges[0].coin, "Zec");
    let receipt = &ui.extrinsic.receipts[0];
    assert_eq!(receipt.source, "Zcash");
    assert_eq!(receipt.txid, b58(&[4u8; 64]));
    let one: UIBridge = UIBridge::from_bridge(&block.extrinsic.bridge[1].1.bridge[0]);
    assert_eq!(one.amount, 11);
    assert_eq!(one.txid, b58(&[3u8; 64]));
    let r: UIReceipt = UIReceipt::from_receipt(&block.extrinsic.receipts[0]);
    assert_eq!(r.target, "Solana");
    let head = UIHead::from_head(&block.head(), 4);
    assert_eq!(head.hash, b58(&block.header.hash()));
    assert_eq!(head.txns, 4);
}

#[test]
fn transaction_records() {
    let info = joined_receipt(Some(vec![4u8; 64]), Some(vec![1u8; 32]), Some("Zec".into()), Some("Zcash".into()), Some("Solana".into()), Some(8)).unwrap();
    assert_eq!(info.txid, b58(&[4u8; 64]));
    assert_eq!(info.slot, 8);
    assert!(joined_receipt(Some(vec![4u8; 64]), None, Some("Zec".into()), Some("Zcash".into()), Some("Solana".into()), Some(8)).is_none());
    let direct = ReceiptInfo::from_row(&[4u8; 64], &[1u8; 32], "Zec".into(), "Zcash".into(), "Solana".into(), 8);
    assert_eq!(direct.anchor, info.anchor);
    let tx = BridgeTransactionResult::from_row(&[1u8; 32], "ZEC".into(), b"u1z", 3, "Zcash".into(), "Solana".into(), 8, Some(info));
    assert_eq!(tx.recipient, "u1z");
    assert_eq!(tx.txid, encode_txid(&[1u8; 32]));
    let view = UITxn::from_result(&tx);
    assert_eq!(view.amount, 3);
    assert_eq!(view.receipt.as_ref().unwrap().txid, b58(&[4u8; 64]));
}

#[test]
fn checked_summary_and_offset() {
    let block = sample_block();
    let s = zosh::ui::db::checked_summary(&block).unwrap();
    assert_eq!((s.txns, s.zec_to_solana, s.zozec_to_zcash), (4, 12, 11));
    let mut big = sample_block();
    big.extrinsic.bridge[0].1.bridge[0].amount = u64::MAX;
    assert!(zosh::ui::db::checked_summary(&big).is_none());
    assert_eq!(web::checked_page_offset(3, 10), Some(30));
    assert_eq!(web::checked_page_offset(0, 100), Some(0));
    assert_eq!(web::checked_page_offset(u32::MAX, 2), None);
    assert_eq!(web::checked_page_offset(65536, 65536), None);
}

#[test]
fn base58_leading_zeros_and_digits() {
    // one '1' per leading zero byte, then the digits of 256 = 4 * 58 + 24
    assert_eq!(b58(&[0u8, 1, 0]), "15R");
    assert_eq!(decode_query_id("15R").unwrap(), vec![0u8, 1, 0]);
    assert_eq!(decode_query_id("").unwrap(), Vec::<u8>::new());
    assert_eq!(decode_query_id("11").unwrap(), vec![0u8, 0]);
}
