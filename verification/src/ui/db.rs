//! The records of the explorer store and the computations around storage:
//! what a stored block contributes to the statistics, and how rows read
//! back become records and blocks again.
use vstd::prelude::*;

use crate::block::{Block, Head};
use crate::codec::{base58_encode, base58_text};
use crate::crypto::blake3_digest;
use crate::ex::{bridge_count, lemma_bridge_count_prefix, Bridge, BridgeBundle, Extrinsic, Receipt};
use crate::registry::{Chain, Coin};
use crate::ui::util::{encode_recipient, encode_txid, recipient_text, txid_text};

verus! {

/// Query result for a bridge transaction
#[derive(Debug)]
pub struct BridgeTransactionResult {
    pub txid: String,
    pub coin: String,
    pub amount: u64,
    pub recipient: String,
    pub source: String,
    pub target: String,
    pub slot: u32,
    pub receipt: Option<ReceiptInfo>,
}

/// Receipt information
#[derive(Debug)]
pub struct ReceiptInfo {
    pub anchor: String,
    pub coin: String,
    pub txid: String,
    pub source: String,
    pub target: String,
    pub slot: u32,
}

/// Network statistics
#[derive(Debug, Clone)]
pub struct Stats {
    /// Total number of blocks
    pub blocks: u32,
    /// Total number of transactions
    pub txns: u32,
    /// Latest block hash (base58)
    pub head: String,
    /// Latest block slot
    pub slot: u32,
    /// Accumulated ZEC bridged to Solana (in zatoshi)
    pub zec_to_solana: u64,
    /// Accumulated ZEC bridged back to Zcash (in zatoshi)
    pub zozec_to_zcash: u64,
    /// Total number of receipts
    pub receipts: u32,
}

impl ReceiptInfo {
    /// The receipt record of a stored receipt row.
    pub fn from_row(
        txid: &[u8],
        anchor: &[u8],
        coin: String,
        source: String,
        target: String,
        slot: u32,
    ) -> (info: ReceiptInfo)
        ensures
            info.anchor@ == txid_text(anchor@),
            info.coin@ == coin@,
            info.txid@ == txid_text(txid@),
            info.source@ == source@,
            info.target@ == target@,
            info.slot == slot,
    {
        ReceiptInfo {
            anchor: encode_txid(anchor),
            coin,
            txid: encode_txid(txid),
            source,
            target,
            slot,
        }
    }
}

/// The receipt of a row of the bridge/receipt join: present exactly when
/// every receipt column is present.
pub fn joined_receipt(
    txid: Option<Vec<u8>>,
    anchor: Option<Vec<u8>>,
    coin: Option<String>,
    source: Option<String>,
    target: Option<String>,
    slot: Option<u32>,
) -> (info: Option<ReceiptInfo>)
    ensures
        info is Some <==> (txid is Some && anchor is Some && coin is Some && source is Some
            && target is Some && slot is Some),
        info matches Some(i) ==> {
            &&& i.anchor@ == txid_text(anchor->0@)
            &&& i.coin@ == coin->0@
            &&& i.txid@ == txid_text(txid->0@)
            &&& i.source@ == source->0@
            &&& i.target@ == target->0@
            &&& i.slot == slot->0
        },
{
    match (txid, anchor, coin, source, target, slot) {
        (Some(txid), Some(anchor), Some(coin), Some(source), Some(target), Some(slot)) => Some(
            ReceiptInfo::from_row(txid.as_slice(), anchor.as_slice(), coin, source, target, slot),
        ),
        _ => None,
    }
}

impl BridgeTransactionResult {
    /// The transaction record of a stored bridge row and its receipt.
    pub fn from_row(
        txid: &[u8],
        coin: String,
        recipient: &[u8],
        amount: u64,
        source: String,
        target: String,
        slot: u32,
        receipt: Option<ReceiptInfo>,
    ) -> (tx: BridgeTransactionResult)
        ensures
            tx.txid@ == txid_text(txid@),
            tx.coin@ == coin@,
            tx.amount == amount,
            tx.recipient@ == recipient_text(recipient@),
            tx.source@ == source@,
            tx.target@ == target@,
            tx.slot == slot,
            tx.receipt == receipt,
    {
        BridgeTransactionResult {
            txid: encode_txid(txid),
            coin,
            amount,
            recipient: encode_recipient(recipient),
            source,
            target,
            slot,
            receipt,
        }
    }
}

/// A stored value that does not have the length of its column.
#[derive(Debug, Clone, Copy, PartialEq, Eq, Structural)]
pub enum RowError {
    /// A block hash is not 32 bytes.
    InvalidHash,
    /// A bundle hash is not 32 bytes.
    InvalidBundleHash,
    /// A parent hash is not 32 bytes.
    InvalidParent,
    /// A state root is not 32 bytes.
    InvalidState,
    /// An accumulator is not 32 bytes.
    InvalidAccumulator,
    /// An extrinsic root is not 32 bytes.
    InvalidExtrinsic,
    /// The stored votes are not an encoded vote map.
    InvalidVotes,
}

/// The message of the row error `e`.
pub open spec fn row_error_message(e: RowError) -> Seq<char> {
    match e {
        RowError::InvalidHash => "Invalid hash length in database"@,
        RowError::InvalidBundleHash => "Invalid bundle hash length"@,
        RowError::InvalidParent => "Invalid parent hash"@,
        RowError::InvalidState => "Invalid state hash"@,
        RowError::InvalidAccumulator => "Invalid accumulator"@,
        RowError::InvalidExtrinsic => "Invalid extrinsic hash"@,
        RowError::InvalidVotes => "Invalid votes encoding"@,
    }
}

impl RowError {
    /// The message of the error.
    pub fn message(&self) -> (message: &'static str)
        ensures
            message@ == row_error_message(*self),
    {
        match self {
            RowError::InvalidHash => "Invalid hash length in database",
            RowError::InvalidBundleHash => "Invalid bundle hash length",
            RowError::InvalidParent => "Invalid parent hash",
            RowError::InvalidState => "Invalid state hash",
            RowError::InvalidAccumulator => "Invalid accumulator",
            RowError::InvalidExtrinsic => "Invalid extrinsic hash",
            RowError::InvalidVotes => "Invalid votes encoding",
        }
    }
}

/// The head stored as `(slot, hash)`; the hash must be 32 bytes.
pub fn head_from_row(slot: u32, hash: &[u8]) -> (head: Result<Head, RowError>)
    ensures
        hash@.len() == 32 <==> head is Ok,
        head matches Ok(h) ==> h.slot == slot && h.hash@ == hash@,
        head matches Err(e) ==> e == RowError::InvalidHash,
{
    if hash.len() != 32 {
        return Err(RowError::InvalidHash);
    }
    Ok(Head { slot, hash: crate::bytes::to_array32(hash) })
}

/// The rows `(slot, hash, txns)` of a block list whose hash is 32 bytes, in order.
pub open spec fn well_formed_rows(rows: Seq<(u32, Vec<u8>, u32)>) -> Seq<(u32, Vec<u8>, u32)> {
    rows.filter(|r: (u32, Vec<u8>, u32)| r.1@.len() == 32)
}

/// The heads and transaction counts of the rows `(slot, hash, txns)` of a
/// block list; rows whose hash is not 32 bytes are skipped.
pub fn heads_from_rows(rows: &Vec<(u32, Vec<u8>, u32)>) -> (heads: Vec<(Head, u32)>)
    ensures
        heads@.len() == well_formed_rows(rows@).len(),
        forall|i: int|
            0 <= i < heads@.len() ==> {
                &&& (#[trigger] heads@[i]).0.slot == well_formed_rows(rows@)[i].0
                &&& heads@[i].0.hash@ == well_formed_rows(rows@)[i].1@
                &&& heads@[i].1 == well_formed_rows(rows@)[i].2
            },
{
    let mut heads: Vec<(Head, u32)> = Vec::new();
    let mut i: usize = 0;
    proof {
        assert(rows@.take(0) =~= Seq::<(u32, Vec<u8>, u32)>::empty());
        assert(well_formed_rows(rows@.take(0)) =~= Seq::<(u32, Vec<u8>, u32)>::empty());
    }
    while i < rows.len()
        invariant
            0 <= i <= rows@.len(),
            heads@.len() == well_formed_rows(rows@.take(i as int)).len(),
            forall|j: int|
                0 <= j < heads@.len() ==> {
                    &&& (#[trigger] heads@[j]).0.slot == well_formed_rows(rows@.take(i as int))[j].0
                    &&& heads@[j].0.hash@ == well_formed_rows(rows@.take(i as int))[j].1@
                    &&& heads@[j].1 == well_formed_rows(rows@.take(i as int))[j].2
                },
        decreases rows@.len() - i,
    {
        let ghost before = well_formed_rows(rows@.take(i as int));
        let ghost row = rows@[i as int];
        proof {
            assert(rows@.take(i + 1) =~= rows@.take(i as int).push(row));
            rows@.take(i as int).lemma_filter_push(row, |r: (u32, Vec<u8>, u32)| r.1@.len() == 32);
        }
        if let Ok(head) = head_from_row(rows[i].0, rows[i].1.as_slice()) {
            heads.push((head, rows[i].2));
            assert(well_formed_rows(rows@.take(i + 1)) == before.push(row));
        } else {
            assert(well_formed_rows(rows@.take(i + 1)) == before);
        }
        i = i + 1;
    }
    proof {
        assert(rows@.take(i as int) =~= rows@);
    }
    heads
}

/// The amount moved by `b` from `from` to `to`: its amount when it moves
/// ZEC that way, else zero.
pub open spec fn flow_of(b: Bridge, from: Chain, to: Chain) -> nat {
    if b.coin == Coin::Zec && b.source == from && b.target == to {
        b.amount as nat
    } else {
        0
    }
}

/// The ZEC moved from `from` to `to` by `bridges`.
pub open spec fn bridges_flow(bridges: Seq<Bridge>, from: Chain, to: Chain) -> nat
    decreases bridges.len(),
{
    if bridges.len() == 0 {
        0
    } else {
        bridges_flow(bridges.drop_last(), from, to) + flow_of(bridges.last(), from, to)
    }
}

/// The ZEC moved from `from` to `to` by the bridge transactions of `bundles`.
pub open spec fn bundles_flow(bundles: Seq<([u8; 32], BridgeBundle)>, from: Chain, to: Chain) -> nat
    decreases bundles.len(),
{
    if bundles.len() == 0 {
        0
    } else {
        bundles_flow(bundles.drop_last(), from, to) + bridges_flow(bundles.last().1.bridge@, from, to)
    }
}

/// What a block contributes to the statistics.
#[derive(Debug)]
pub struct BlockSummary {
    /// The hash of the block header.
    pub hash: [u8; 32],
    /// The base58 text of the hash.
    pub head: String,
    /// The slot of the block.
    pub slot: u32,
    /// The number of transactions, truncated to 32 bits.
    pub txns: u32,
    /// The number of receipts, truncated to 32 bits.
    pub receipts: u32,
    /// The ZEC bridged from Zcash to Solana by the block.
    pub zec_to_solana: u64,
    /// The ZEC bridged from Solana back to Zcash by the block.
    pub zozec_to_zcash: u64,
}

proof fn lemma_bridges_flow_prefix(bridges: Seq<Bridge>, from: Chain, to: Chain, n: int)
    requires
        0 <= n <= bridges.len(),
    ensures
        bridges_flow(bridges.take(n), from, to) <= bridges_flow(bridges, from, to),
    decreases bridges.len() - n,
{
    if n < bridges.len() {
        lemma_bridges_flow_prefix(bridges, from, to, n + 1);
        assert(bridges.take(n + 1).drop_last() =~= bridges.take(n));
    } else {
        assert(bridges.take(n) =~= bridges);
    }
}

proof fn lemma_bundles_flow_prefix(
    bundles: Seq<([u8; 32], BridgeBundle)>,
    from: Chain,
    to: Chain,
    n: int,
)
    requires
        0 <= n <= bundles.len(),
    ensures
        bundles_flow(bundles.take(n), from, to) <= bundles_flow(bundles, from, to),
    decreases bundles.len() - n,
{
    if n < bundles.len() {
        lemma_bundles_flow_prefix(bundles, from, to, n + 1);
        assert(bundles.take(n + 1).drop_last() =~= bundles.take(n));
    } else {
        assert(bundles.take(n) =~= bundles);
    }
}

/// Adds the ZEC moved from `from` to `to` by `bundles` to `total`.
fn add_flow(bundles: &Vec<([u8; 32], BridgeBundle)>, from: Chain, to: Chain) -> (total: u64)
    requires
        bundles_flow(bundles@, from, to) <= u64::MAX,
    ensures
        total == bundles_flow(bundles@, from, to),
{
    let mut total: u64 = 0;
    let mut i: usize = 0;
    proof {
        assert(bundles@.take(0) =~= Seq::<([u8; 32], BridgeBundle)>::empty());
    }
    while i < bundles.len()
        invariant
            0 <= i <= bundles@.len(),
            bundles_flow(bundles@, from, to) <= u64::MAX,
            total == bundles_flow(bundles@.take(i as int), from, to),
        decreases bundles@.len() - i,
    {
        let bridges = &bundles[i].1.bridge;
        let ghost base = total as nat;
        proof {
            assert(bundles@.take(i + 1).drop_last() =~= bundles@.take(i as int));
            assert(bundles@.take(i + 1).last() == bundles@[i as int]);
            lemma_bundles_flow_prefix(bundles@, from, to, i + 1);
            assert(bridges_flow(bridges@.take(0), from, to) == 0) by {
                assert(bridges@.take(0) =~= Seq::<Bridge>::empty());
            }
        }
        let mut j: usize = 0;
        while j < bridges.len()
            invariant
                0 <= j <= bridges@.len(),
                base + bridges_flow(bridges@, from, to) <= u64::MAX,
                total == base + bridges_flow(bridges@.take(j as int), from, to),
            decreases bridges@.len() - j,
        {
            let b = &bridges[j];
            proof {
                assert(bridges@.take(j + 1).drop_last() =~= bridges@.take(j as int));
                assert(bridges@.take(j + 1).last() == bridges@[j as int]);
                lemma_bridges_flow_prefix(bridges@, from, to, j + 1);
            }
            let moves = match b.coin {
                Coin::Zec => b.source == from && b.target == to,
            };
            if moves {
                total = total + b.amount;
            }
            j = j + 1;
        }
        proof {
            assert(bridges@.take(j as int) =~= bridges@);
        }
        i = i + 1;
    }
    proof {
        assert(bundles@.take(i as int) =~= bundles@);
    }
    total
}

/// What `block` contributes to the statistics when it is stored: its hash,
/// its transaction and receipt counts (truncated to 32 bits) and the ZEC it
/// moves in each direction.
pub fn summarize_block(block: &Block) -> (summary: BlockSummary)
    requires
        block.extrinsic.tx_count() <= usize::MAX,
        bundles_flow(block.extrinsic.bridge@, Chain::Zcash, Chain::Solana) <= u64::MAX,
        bundles_flow(block.extrinsic.bridge@, Chain::Solana, Chain::Zcash) <= u64::MAX,
    ensures
        summary.hash@ == blake3_digest(block.header.preimage()),
        summary.head@ == base58_text(summary.hash@),
        summary.slot == block.header.slot,
        summary.txns == block.extrinsic.tx_count() as u32,
        summary.receipts == block.extrinsic.receipts@.len() as u32,
        summary.zec_to_solana == bundles_flow(block.extrinsic.bridge@, Chain::Zcash, Chain::Solana),
        summary.zozec_to_zcash == bundles_flow(block.extrinsic.bridge@, Chain::Solana, Chain::Zcash),
{
    let hash = block.header.hash();
    let txns = block.extrinsic.count() as u32;
    let zec_to_solana = add_flow(&block.extrinsic.bridge, Chain::Zcash, Chain::Solana);
    let zozec_to_zcash = add_flow(&block.extrinsic.bridge, Chain::Solana, Chain::Zcash);
    let receipts = block.extrinsic.receipts.len() as u32;
    let head = base58_encode(hash.as_slice());
    BlockSummary { hash, head, slot: block.header.slot, txns, receipts, zec_to_solana, zozec_to_zcash }
}

/// The ZEC moved from `from` to `to` by `bundles`, or `None` when it does
/// not fit in 64 bits.
fn checked_flow(bundles: &Vec<([u8; 32], BridgeBundle)>, from: Chain, to: Chain) -> (total: Option<u64>)
    ensures
        total is Some <==> bundles_flow(bundles@, from, to) <= u64::MAX,
        total matches Some(t) ==> t == bundles_flow(bundles@, from, to),
{
    let mut total: u64 = 0;
    let mut i: usize = 0;
    proof {
        assert(bundles@.take(0) =~= Seq::<([u8; 32], BridgeBundle)>::empty());
    }
    while i < bundles.len()
        invariant
            0 <= i <= bundles@.len(),
            total == bundles_flow(bundles@.take(i as int), from, to),
        decreases bundles@.len() - i,
    {
        let bridges = &bundles[i].1.bridge;
        let ghost base = total as nat;
        proof {
            assert(bundles@.take(i + 1).drop_last() =~= bundles@.take(i as int));
            assert(bundles@.take(i + 1).last() == bundles@[i as int]);
            lemma_bundles_flow_prefix(bundles@, from, to, i + 1);
            assert(bridges_flow(bridges@.take(0), from, to) == 0) by {
                assert(bridges@.take(0) =~= Seq::<Bridge>::empty());
            }
        }
        let mut j: usize = 0;
        while j < bridges.len()
            invariant
                0 <= j <= bridges@.len(),
                i < bundles@.len(),
                bridges@ == bundles@[i as int].1.bridge@,
                base == bundles_flow(bundles@.take(i as int), from, to),
                base + bridges_flow(bridges@, from, to) == bundles_flow(bundles@.take(i + 1), from, to),
                bundles_flow(bundles@.take(i + 1), from, to) <= bundles_flow(bundles@, from, to),
                total == base + bridges_flow(bridges@.take(j as int), from, to),
            decreases bridges@.len() - j,
        {
            let b = &bridges[j];
            proof {
                assert(bridges@.take(j + 1).drop_last() =~= bridges@.take(j as int));
                assert(bridges@.take(j + 1).last() == bridges@[j as int]);
                lemma_bridges_flow_prefix(bridges@, from, to, j + 1);
            }
            let moves = match b.coin {
                Coin::Zec => b.source == from && b.target == to,
            };
            if moves {
                match total.checked_add(b.amount) {
                    Some(t) => total = t,
                    None => return None,
                }
            }
            j = j + 1;
        }
        proof {
            assert(bridges@.take(j as int) =~= bridges@);
        }
        i = i + 1;
    }
    proof {
        assert(bundles@.take(i as int) =~= bundles@);
    }
    Some(total)
}

/// The number of transactions of `ex`, or `None` when it does not fit in a
/// `usize`.
fn checked_tx_count(ex: &Extrinsic) -> (n: Option<usize>)
    ensures
        n is Some <==> ex.tx_count() <= usize::MAX,
        n matches Some(k) ==> k == ex.tx_count(),
{
    let mut total: usize = 0;
    let mut i: usize = 0;
    proof {
        assert(ex.bridge@.take(0) =~= Seq::<([u8; 32], BridgeBundle)>::empty());
    }
    while i < ex.bridge.len()
        invariant
            0 <= i <= ex.bridge@.len(),
            total == bridge_count(ex.bridge@.take(i as int)),
        decreases ex.bridge@.len() - i,
    {
        proof {
            lemma_bridge_count_prefix(ex.bridge@, i + 1);
        }
        match total.checked_add(ex.bridge[i].1.bridge.len()) {
            Some(t) => total = t,
            None => return None,
        }
        i = i + 1;
    }
    proof {
        assert(ex.bridge@.take(i as int) =~= ex.bridge@);
    }
    total.checked_add(ex.receipts.len())
}

/// What `block` contributes to the statistics, or `None` when its
/// transaction count does not fit in a `usize` or the ZEC it moves in a
/// direction does not fit in 64 bits (where storing it overflows).
pub fn checked_summary(block: &Block) -> (summary: Option<BlockSummary>)
    ensures
        summary is Some <==> {
            &&& block.extrinsic.tx_count() <= usize::MAX
            &&& bundles_flow(block.extrinsic.bridge@, Chain::Zcash, Chain::Solana) <= u64::MAX
            &&& bundles_flow(block.extrinsic.bridge@, Chain::Solana, Chain::Zcash) <= u64::MAX
        },
        summary matches Some(s) ==> {
            &&& s.hash@ == blake3_digest(block.header.preimage())
            &&& s.head@ == base58_text(s.hash@)
            &&& s.slot == block.header.slot
            &&& s.txns == block.extrinsic.tx_count() as u32
            &&& s.receipts == block.extrinsic.receipts@.len() as u32
            &&& s.zec_to_solana == bundles_flow(block.extrinsic.bridge@, Chain::Zcash, Chain::Solana)
            &&& s.zozec_to_zcash == bundles_flow(block.extrinsic.bridge@, Chain::Solana, Chain::Zcash)
        },
{
    if checked_tx_count(&block.extrinsic).is_none() {
        return None;
    }
    if checked_flow(&block.extrinsic.bridge, Chain::Zcash, Chain::Solana).is_none() {
        return None;
    }
    if checked_flow(&block.extrinsic.bridge, Chain::Solana, Chain::Zcash).is_none() {
        return None;
    }
    Some(summarize_block(block))
}

} // verus!
