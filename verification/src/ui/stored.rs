//! The rows that store a block, and reading them back.
//!
//! A block is stored as a header row, one row per bridge transaction (bundle
//! by bundle, each row naming its bundle hash) and one row per receipt.
use std::collections::BTreeMap;
use vstd::prelude::*;

use crate::block::{votes_ordered, Block};
use crate::bytes::to_vec;
use crate::ex::{bundles_ordered, Bridge, BridgeBundle, Receipt};
use crate::order::{bytes_le, lemma_bytes_le_antisymmetric};
use crate::registry::{chain_name, coin_name, coin_symbol, Chain};
use crate::ex::bridge_count;
use crate::ui::db::RowError;
use crate::ui::rows::{
    block_from_rows, bridge_of_row, bundle_of_rows, chain_of, groups_rows, has_key,
    lemma_ordered_drop_last, receipt_of_row, rows_error, rows_with_key, BlockRow, BridgeRow,
    ReceiptRow,
};

verus! {

/// `row` stores the bridge transaction `b` of the bundle stored under `key`.
pub open spec fn row_of_bridge(row: BridgeRow, b: Bridge, key: Seq<u8>) -> bool {
    &&& row.txid@ == b.txid@
    &&& row.coin@ == coin_symbol(b.coin)
    &&& row.recipient@ == b.recipient@
    &&& row.amount == b.amount
    &&& row.source@ == chain_name(b.source)
    &&& row.target@ == chain_name(b.target)
    &&& row.bundle_hash@ == key
}

/// `row` stores the receipt `r`.
pub open spec fn row_of_receipt(row: ReceiptRow, r: Receipt) -> bool {
    &&& row.txid@ == r.txid@
    &&& row.anchor@ == r.anchor@
    &&& row.coin@ == coin_name(r.coin)
    &&& row.source@ == chain_name(r.source)
    &&& row.target@ == chain_name(r.target)
}

/// `rows` stores the bridge transactions of `bundles`: bundle by bundle, in
/// order, each row naming the hash of its bundle.
pub open spec fn stores_bundles(bundles: Seq<([u8; 32], BridgeBundle)>, rows: Seq<BridgeRow>) -> bool
    decreases bundles.len(),
{
    if bundles.len() == 0 {
        rows.len() == 0
    } else {
        let n = bundles.last().1.bridge@.len();
        let split = rows.len() - n;
        &&& split >= 0
        &&& stores_bundles(bundles.drop_last(), rows.take(split))
        &&& forall|k: int|
            0 <= k < n ==> #[trigger] row_of_bridge(rows[split + k], bundles.last().1.bridge@[k], bundles.last().0@)
    }
}

/// The row that stores the bridge transaction `b` of the bundle stored under `key`.
fn bridge_row(b: &Bridge, key: &[u8; 32]) -> (row: BridgeRow)
    ensures
        row_of_bridge(row, *b, key@),
{
    BridgeRow {
        txid: to_vec(b.txid.as_slice()),
        coin: b.coin.to_string(),
        recipient: to_vec(b.recipient.as_slice()),
        amount: b.amount,
        source: b.source.as_str().to_owned(),
        target: b.target.as_str().to_owned(),
        bundle_hash: to_vec(key.as_slice()),
    }
}

/// The row that stores the receipt `r`.
fn receipt_row(r: &Receipt) -> (row: ReceiptRow)
    ensures
        row_of_receipt(row, *r),
{
    ReceiptRow {
        txid: to_vec(r.txid.as_slice()),
        anchor: to_vec(r.anchor.as_slice()),
        coin: r.coin.as_str().to_owned(),
        source: r.source.as_str().to_owned(),
        target: r.target.as_str().to_owned(),
    }
}

/// The votes of a header as plain values: validator key and signature bytes.
pub open spec fn votes_view(votes: Seq<([u8; 32], Vec<u8>)>) -> Seq<([u8; 32], Seq<u8>)> {
    votes.map_values(|v: ([u8; 32], Vec<u8>)| (v.0, v.1@))
}

/// The votes that the stored bytes `bytes` hold, as `postcard` decodes a
/// map from validator key to signature from them, in key order; `None`
/// when they are no such encoding.
pub uninterp spec fn stored_votes(bytes: Seq<u8>) -> Option<Seq<([u8; 32], Seq<u8>)>>;

/// The bytes that `postcard` writes for the votes `votes`, listed in order
/// (a length, then each key and signature); `None` when it fails.
pub uninterp spec fn votes_bytes(votes: Seq<([u8; 32], Seq<u8>)>) -> Option<Seq<u8>>;

/// Decodes the stored votes `bytes`.
///
/// Trusted: calls `postcard::from_bytes` into a `BTreeMap<[u8; 32],
/// Vec<u8>>` and lists its entries. The contract names the (deterministic)
/// outcome, and claims that the entries come in strictly increasing key
/// order, as std documents for a `BTreeMap`'s iteration and for the order
/// of byte arrays.
#[verifier::external_body]
fn decode_votes(bytes: &[u8]) -> (votes: Option<Vec<([u8; 32], Vec<u8>)>>)
    ensures
        votes is Some <==> stored_votes(bytes@) is Some,
        votes matches Some(v) ==> votes_view(v@) == stored_votes(bytes@)->0 && votes_ordered(v@),
{
    let map: BTreeMap<[u8; 32], Vec<u8>> = postcard::from_bytes(bytes).ok()?;
    Some(map.into_iter().collect())
}

/// Encodes the votes `votes` for storage.
///
/// Trusted: calls `postcard::to_allocvec` on the list of entries, whose
/// bytes are those of a map with the same entries in the same order. The
/// contract names the (deterministic) outcome.
#[verifier::external_body]
fn encode_votes(votes: &Vec<([u8; 32], Vec<u8>)>) -> (bytes: Option<Vec<u8>>)
    ensures
        match bytes {
            Some(b) => votes_bytes(votes_view(votes@)) == Some(b@),
            None => votes_bytes(votes_view(votes@)) is None,
        },
{
    postcard::to_allocvec(votes).ok()
}

/// The rows that store `block`: its header row, the stored bytes of its
/// votes, its bridge rows (bundle by bundle) and its receipt rows, in
/// order; `None` when the votes cannot be encoded.
pub fn block_rows(block: &Block) -> (rows: Option<(BlockRow, Vec<u8>, Vec<BridgeRow>, Vec<ReceiptRow>)>)
    ensures
        rows is Some <==> votes_bytes(votes_view(block.header.votes@)) is Some,
        rows matches Some(r) ==> {
            &&& r.0.slot == block.header.slot
            &&& r.0.parent@ == block.header.parent@
            &&& r.0.state@ == block.header.state@
            &&& r.0.accumulator@ == block.header.accumulator@
            &&& r.0.extrinsic@ == block.header.extrinsic@
            &&& votes_bytes(votes_view(block.header.votes@)) == Some(r.1@)
            &&& stores_bundles(block.extrinsic.bridge@, r.2@)
            &&& r.3@.len() == block.extrinsic.receipts@.len()
            &&& forall|i: int|
                0 <= i < r.3@.len() ==> #[trigger] row_of_receipt(r.3@[i], block.extrinsic.receipts@[i])
        },
{
    let votes = match encode_votes(&block.header.votes) {
        Some(v) => v,
        None => return None,
    };
    let (header, bridges, receipts) = rows_of_block(block);
    Some((header, votes, bridges, receipts))
}

/// Rebuilds the block stored as `header`, the vote bytes `votes`, `bridges`
/// and `receipts`. Fails when the votes are no encoded vote map, and then
/// as `block_from_rows` does; otherwise the votes are the decoded ones and
/// the rest is as `block_from_rows` rebuilds it.
pub fn read_block(
    header: &BlockRow,
    votes: &[u8],
    bridges: &Vec<BridgeRow>,
    receipts: &Vec<ReceiptRow>,
) -> (block: Result<Block, RowError>)
    ensures
        stored_votes(votes@) is None ==> block == Err::<Block, RowError>(RowError::InvalidVotes),
        stored_votes(votes@) is Some ==> {
            &&& block is Err <==> rows_error(*header, bridges@) is Some
            &&& block matches Err(e) ==> rows_error(*header, bridges@) == Some(e)
        },
        block matches Ok(b) ==> {
            &&& b.header.slot == header.slot
            &&& b.header.parent@ == header.parent@
            &&& b.header.state@ == header.state@
            &&& b.header.accumulator@ == header.accumulator@
            &&& b.header.extrinsic@ == header.extrinsic@
            &&& stored_votes(votes@) == Some(votes_view(b.header.votes@))
            &&& b.well_formed()
            &&& groups_rows(b.extrinsic.bridge@, bridges@)
            &&& bridge_count(b.extrinsic.bridge@) == bridges@.len()
            &&& b.extrinsic.receipts@.len() == receipts@.len()
            &&& forall|i: int|
                0 <= i < receipts@.len() ==> #[trigger] receipt_of_row(b.extrinsic.receipts@[i], receipts@[i])
        },
{
    let decoded = match decode_votes(votes) {
        Some(v) => v,
        None => return Err(RowError::InvalidVotes),
    };
    block_from_rows(header, decoded, bridges, receipts)
}

/// The header row, bridge rows (bundle by bundle) and receipt rows of `block`.
fn rows_of_block(block: &Block) -> (rows: (BlockRow, Vec<BridgeRow>, Vec<ReceiptRow>))
    ensures
        rows.0.slot == block.header.slot,
        rows.0.parent@ == block.header.parent@,
        rows.0.state@ == block.header.state@,
        rows.0.accumulator@ == block.header.accumulator@,
        rows.0.extrinsic@ == block.header.extrinsic@,
        stores_bundles(block.extrinsic.bridge@, rows.1@),
        rows.2@.len() == block.extrinsic.receipts@.len(),
        forall|i: int|
            0 <= i < rows.2@.len() ==> #[trigger] row_of_receipt(rows.2@[i], block.extrinsic.receipts@[i]),
{
    let header = BlockRow {
        slot: block.header.slot,
        parent: to_vec(block.header.parent.as_slice()),
        state: to_vec(block.header.state.as_slice()),
        accumulator: to_vec(block.header.accumulator.as_slice()),
        extrinsic: to_vec(block.header.extrinsic.as_slice()),
    };
    let bundles = &block.extrinsic.bridge;
    let mut bridges: Vec<BridgeRow> = Vec::new();
    let mut i: usize = 0;
    proof {
        assert(bundles@.take(0) =~= Seq::<([u8; 32], BridgeBundle)>::empty());
    }
    while i < bundles.len()
        invariant
            0 <= i <= bundles@.len(),
            stores_bundles(bundles@.take(i as int), bridges@),
        decreases bundles@.len() - i,
    {
        let key = &bundles[i].0;
        let bundle = &bundles[i].1;
        let ghost base = bridges@;
        let mut k: usize = 0;
        while k < bundle.bridge.len()
            invariant
                0 <= k <= bundle.bridge@.len(),
                bridges@.len() == base.len() + k,
                bridges@.take(base.len() as int) == base,
                forall|m: int|
                    0 <= m < k ==> #[trigger] row_of_bridge(bridges@[base.len() + m], bundle.bridge@[m], key@),
            decreases bundle.bridge@.len() - k,
        {
            let row = bridge_row(&bundle.bridge[k], key);
            let ghost prev = bridges@;
            bridges.push(row);
            proof {
                assert(bridges@.take(base.len() as int) =~= prev.take(base.len() as int));
                assert forall|m: int| 0 <= m < k + 1 implies #[trigger] row_of_bridge(
                    bridges@[base.len() + m],
                    bundle.bridge@[m],
                    key@,
                ) by {
                    if m < k {
                        assert(bridges@[base.len() + m] == prev[base.len() + m]);
                    }
                }
            }
            k = k + 1;
        }
        proof {
            let taken = bundles@.take(i + 1);
            assert(taken.drop_last() =~= bundles@.take(i as int));
            assert(taken.last() == bundles@[i as int]);
            assert(bridges@.len() - bundle.bridge@.len() == base.len());
            assert forall|m: int| 0 <= m < bundle.bridge@.len() implies #[trigger] row_of_bridge(
                bridges@[(bridges@.len() - taken.last().1.bridge@.len()) + m],
                taken.last().1.bridge@[m],
                taken.last().0@,
            ) by {
                assert(row_of_bridge(bridges@[base.len() + m], bundle.bridge@[m], key@));
            }
        }
        i = i + 1;
    }
    proof {
        assert(bundles@.take(i as int) =~= bundles@);
    }
    let mut receipts: Vec<ReceiptRow> = Vec::new();
    let mut j: usize = 0;
    while j < block.extrinsic.receipts.len()
        invariant
            0 <= j <= block.extrinsic.receipts@.len(),
            receipts@.len() == j,
            forall|m: int| 0 <= m < j ==> #[trigger] row_of_receipt(receipts@[m], block.extrinsic.receipts@[m]),
        decreases block.extrinsic.receipts@.len() - j,
    {
        receipts.push(receipt_row(&block.extrinsic.receipts[j]));
        j = j + 1;
    }
    (header, bridges, receipts)
}

/// `a` and `b` are the same bridge transaction.
pub open spec fn same_bridge(a: Bridge, b: Bridge) -> bool {
    &&& a.coin == b.coin
    &&& a.recipient@ == b.recipient@
    &&& a.amount == b.amount
    &&& a.source == b.source
    &&& a.target == b.target
    &&& a.txid@ == b.txid@
}

/// `a` and `b` are the same receipt.
pub open spec fn same_receipt(a: Receipt, b: Receipt) -> bool {
    &&& a.anchor@ == b.anchor@
    &&& a.coin == b.coin
    &&& a.txid@ == b.txid@
    &&& a.source == b.source
    &&& a.target == b.target
}

/// The keys of `s` are strictly increasing.
spec fn keys_increasing(s: Seq<Seq<u8>>) -> bool {
    forall|i: int, j: int| 0 <= i < j < s.len() ==> bytes_le(#[trigger] s[i], #[trigger] s[j]) && s[i] != s[j]
}

/// The bundle hashes of `bundles`, in order.
spec fn bundle_keys(bundles: Seq<([u8; 32], BridgeBundle)>) -> Seq<Seq<u8>> {
    bundles.map_values(|e: ([u8; 32], BridgeBundle)| e.0@)
}

/// A stored chain name reads back as the chain.
proof fn lemma_chain_read_back(c: Chain)
    ensures
        chain_of(chain_name(c)) == c,
{
    reveal_strlit("Solana");
    reveal_strlit("Zcash");
    assert("Zcash"@ != "Solana"@) by {
        assert("Zcash"@[0] != "Solana"@[0]);
    }
}

/// Rows that all carry the bundle hash `key`: those under `key` are all of
/// them, those under another hash none.
proof fn lemma_rows_all_key(rows: Seq<BridgeRow>, key: Seq<u8>)
    requires
        forall|i: int| 0 <= i < rows.len() ==> (#[trigger] rows[i]).bundle_hash@ == key,
    ensures
        forall|other: Seq<u8>| #[trigger] rows_with_key(rows, other) == (if other == key {
            rows
        } else {
            Seq::<BridgeRow>::empty()
        }),
    decreases rows.len(),
{
    if rows.len() == 0 {
        assert forall|other: Seq<u8>| #[trigger] rows_with_key(rows, other) == (if other == key {
            rows
        } else {
            Seq::<BridgeRow>::empty()
        }) by {
            reveal(Seq::filter);
            assert(rows =~= Seq::<BridgeRow>::empty());
        }
    } else {
        let init = rows.drop_last();
        assert forall|i: int| 0 <= i < init.len() implies (#[trigger] init[i]).bundle_hash@ == key by {
            assert(init[i] == rows[i]);
        }
        lemma_rows_all_key(init, key);
        assert(rows =~= init.push(rows.last()));
        assert(rows[rows.len() - 1].bundle_hash@ == key);
        assert forall|other: Seq<u8>| #[trigger] rows_with_key(rows, other) == (if other == key {
            rows
        } else {
            Seq::<BridgeRow>::empty()
        }) by {
            init.lemma_filter_push(rows.last(), |r: BridgeRow| r.bundle_hash@ == other);
            assert(rows_with_key(init, other) == (if other == key {
                init
            } else {
                Seq::<BridgeRow>::empty()
            }));
        }
    }
}

/// In rows that store `bundles`, the rows under the hash of a bundle store
/// its bridge transactions in order, and no row is under another hash.
proof fn lemma_stored_groups(bundles: Seq<([u8; 32], BridgeBundle)>, rows: Seq<BridgeRow>)
    requires
        stores_bundles(bundles, rows),
        bundles_ordered(bundles),
    ensures
        forall|j: int|
            0 <= j < bundles.len() ==> (#[trigger] rows_with_key(rows, bundles[j].0@)).len()
                == bundles[j].1.bridge@.len(),
        forall|j: int, k: int|
            0 <= j < bundles.len() && 0 <= k < bundles[j].1.bridge@.len() ==> #[trigger] row_of_bridge(
                rows_with_key(rows, bundles[j].0@)[k],
                bundles[j].1.bridge@[k],
                bundles[j].0@,
            ),
        forall|key: Seq<u8>| !has_key(bundles, key) ==> #[trigger] rows_with_key(rows, key).len() == 0,
    decreases bundles.len(),
{
    if bundles.len() == 0 {
        assert forall|key: Seq<u8>| !has_key(bundles, key) implies #[trigger] rows_with_key(rows, key).len() == 0 by {
            reveal(Seq::filter);
        }
    } else {
        let init = bundles.drop_last();
        let last = bundles.len() - 1;
        let lkey = bundles[last].0@;
        let n = bundles[last].1.bridge@.len();
        let split = rows.len() - n;
        let head = rows.take(split);
        let tail = rows.skip(split);
        lemma_ordered_drop_last(bundles);
        lemma_stored_groups(init, head);
        assert(rows =~= head + tail);
        assert forall|i: int| 0 <= i < tail.len() implies (#[trigger] tail[i]).bundle_hash@ == lkey by {
            assert(tail[i] == rows[split + i]);
            assert(row_of_bridge(rows[split + i], bundles.last().1.bridge@[i], bundles.last().0@));
        }
        lemma_rows_all_key(tail, lkey);
        assert forall|key: Seq<u8>| #[trigger] rows_with_key(rows, key) == rows_with_key(head, key)
            + rows_with_key(tail, key) by {
            Seq::filter_distributes_over_add(head, tail, |r: BridgeRow| r.bundle_hash@ == key);
        }
        assert(!has_key(init, lkey)) by {
            if has_key(init, lkey) {
                let j = choose|j: int| 0 <= j < init.len() && #[trigger] init[j].0@ == lkey;
                assert(init[j] == bundles[j]);
            }
        }
        assert(rows_with_key(head, lkey) =~= Seq::<BridgeRow>::empty());
        assert(rows_with_key(rows, lkey) =~= tail);
        assert forall|j: int| 0 <= j < init.len() implies #[trigger] rows_with_key(rows, bundles[j].0@)
            == rows_with_key(head, init[j].0@) by {
            assert(init[j] == bundles[j]);
            assert(bundles[j].0@ != lkey);
            assert(rows_with_key(rows, bundles[j].0@) =~= rows_with_key(head, init[j].0@));
        }
        assert forall|j: int, k: int|
            0 <= j < bundles.len() && 0 <= k < bundles[j].1.bridge@.len() implies #[trigger] row_of_bridge(
                rows_with_key(rows, bundles[j].0@)[k],
                bundles[j].1.bridge@[k],
                bundles[j].0@,
            ) by {
            if j < init.len() {
                assert(init[j] == bundles[j]);
                assert(row_of_bridge(
                    rows_with_key(head, init[j].0@)[k],
                    init[j].1.bridge@[k],
                    init[j].0@,
                ));
            } else {
                assert(tail[k] == rows[split + k]);
                assert(row_of_bridge(rows[split + k], bundles.last().1.bridge@[k], bundles.last().0@));
            }
        }
        assert forall|j: int| 0 <= j < bundles.len() implies (#[trigger] rows_with_key(rows, bundles[j].0@)).len()
            == bundles[j].1.bridge@.len() by {
            if j < init.len() {
                assert(init[j] == bundles[j]);
                assert(rows_with_key(head, init[j].0@).len() == init[j].1.bridge@.len());
            }
        }
        assert forall|key: Seq<u8>| !has_key(bundles, key) implies #[trigger] rows_with_key(rows, key).len() == 0 by {
            if has_key(init, key) {
                let j = choose|j: int| 0 <= j < init.len() && #[trigger] init[j].0@ == key;
                assert(bundles[j] == init[j]);
            }
            if key == lkey {
                assert(bundles[last].0@ == key);
            }
        }
    }
}

/// When some row is under `key`, some row of `rows` carries `key`.
proof fn lemma_key_in_rows(rows: Seq<BridgeRow>, key: Seq<u8>)
    requires
        rows_with_key(rows, key).len() > 0,
    ensures
        exists|i: int| 0 <= i < rows.len() && (#[trigger] rows[i]).bundle_hash@ == key,
    decreases rows.len(),
{
    if rows.len() == 0 {
        reveal(Seq::filter);
    } else {
        let init = rows.drop_last();
        if rows.last().bundle_hash@ == key {
            assert(rows[rows.len() - 1].bundle_hash@ == key);
        } else {
            assert(rows_with_key(rows, key) == rows_with_key(init, key)) by {
                reveal(Seq::filter);
            }
            lemma_key_in_rows(init, key);
            let i = choose|i: int| 0 <= i < init.len() && (#[trigger] init[i]).bundle_hash@ == key;
            assert(rows[i] == init[i]);
        }
    }
}

/// Two strictly increasing sequences of byte strings with the same elements
/// are equal.
proof fn lemma_increasing_equal(a: Seq<Seq<u8>>, b: Seq<Seq<u8>>)
    requires
        keys_increasing(a),
        keys_increasing(b),
        forall|i: int| 0 <= i < a.len() ==> b.contains(#[trigger] a[i]),
        forall|i: int| 0 <= i < b.len() ==> a.contains(#[trigger] b[i]),
    ensures
        a == b,
    decreases a.len(),
{
    if a.len() == 0 {
        if b.len() > 0 {
            assert(a.contains(b[0]));
        }
        assert(a =~= b);
    } else {
        if b.len() == 0 {
            assert(b.contains(a[0]));
        }
        assert(b.contains(a[0]));
        assert(a.contains(b[0]));
        let m = choose|m: int| 0 <= m < b.len() && b[m] == a[0];
        let n = choose|n: int| 0 <= n < a.len() && a[n] == b[0];
        if m > 0 {
            assert(bytes_le(b[0], b[m]) && b[0] != b[m]);
            if n > 0 {
                assert(bytes_le(a[0], a[n]));
                lemma_bytes_le_antisymmetric(b[0], b[m]);
            }
        }
        assert(a[0] == b[0]);
        let ta = a.drop_first();
        let tb = b.drop_first();
        assert forall|i: int| 0 <= i < ta.len() implies tb.contains(#[trigger] ta[i]) by {
            assert(ta[i] == a[i + 1]);
            assert(b.contains(a[i + 1]));
            let j = choose|j: int| 0 <= j < b.len() && b[j] == a[i + 1];
            assert(a[0] != a[i + 1]);
            assert(j != 0);
            assert(tb[j - 1] == b[j]);
        }
        assert forall|i: int| 0 <= i < tb.len() implies ta.contains(#[trigger] tb[i]) by {
            assert(tb[i] == b[i + 1]);
            assert(a.contains(b[i + 1]));
            let j = choose|j: int| 0 <= j < a.len() && a[j] == b[i + 1];
            assert(b[0] != b[i + 1]);
            assert(j != 0);
            assert(ta[j - 1] == a[j]);
        }
        assert forall|i: int, j: int| 0 <= i < j < ta.len() implies bytes_le(#[trigger] ta[i], #[trigger] ta[j])
            && ta[i] != ta[j] by {
            assert(ta[i] == a[i + 1] && ta[j] == a[j + 1]);
        }
        assert forall|i: int, j: int| 0 <= i < j < tb.len() implies bytes_le(#[trigger] tb[i], #[trigger] tb[j])
            && tb[i] != tb[j] by {
            assert(tb[i] == b[i + 1] && tb[j] == b[j + 1]);
        }
        lemma_increasing_equal(ta, tb);
        assert(a =~= seq![a[0]] + ta);
        assert(b =~= seq![b[0]] + tb);
    }
}

/// Reading stored bridge rows back gives the stored bundles: when `rows`
/// store `bundles` (ordered by hash, none empty, each sent to the chain of
/// its first transaction) and `read` groups `rows` by bundle hash, as
/// `block_from_rows` does, then `read` has the same hashes in the same
/// order, the same targets and the same bridge transactions in the same
/// order. (Only the bundle data and signatures, which are not stored, are
/// lost.)
pub proof fn lemma_stored_bundles_read_back(
    bundles: Seq<([u8; 32], BridgeBundle)>,
    rows: Seq<BridgeRow>,
    read: Seq<([u8; 32], BridgeBundle)>,
)
    requires
        bundles_ordered(bundles),
        forall|j: int|
            0 <= j < bundles.len() ==> (#[trigger] bundles[j]).1.bridge@.len() > 0
                && bundles[j].1.target == bundles[j].1.bridge@[0].target,
        stores_bundles(bundles, rows),
        groups_rows(read, rows),
    ensures
        read.len() == bundles.len(),
        forall|j: int|
            0 <= j < read.len() ==> {
                &&& (#[trigger] read[j]).0@ == bundles[j].0@
                &&& read[j].1.target == bundles[j].1.target
                &&& read[j].1.bridge@.len() == bundles[j].1.bridge@.len()
            },
        forall|j: int, k: int|
            0 <= j < read.len() && 0 <= k < read[j].1.bridge@.len() ==> #[trigger] same_bridge(
                read[j].1.bridge@[k],
                bundles[j].1.bridge@[k],
            ),
{
    lemma_stored_groups(bundles, rows);
    let ka = bundle_keys(bundles);
    let kb = bundle_keys(read);
    assert forall|i: int, j: int| 0 <= i < j < ka.len() implies bytes_le(#[trigger] ka[i], #[trigger] ka[j])
        && ka[i] != ka[j] by {
        assert(bytes_le(bundles[i].0@, bundles[j].0@));
    }
    assert forall|i: int, j: int| 0 <= i < j < kb.len() implies bytes_le(#[trigger] kb[i], #[trigger] kb[j])
        && kb[i] != kb[j] by {
        assert(bytes_le(read[i].0@, read[j].0@));
    }
    assert forall|i: int| 0 <= i < kb.len() implies ka.contains(#[trigger] kb[i]) by {
        assert(bundle_of_rows(read, rows, i));
        let key = read[i].0@;
        assert(rows_with_key(rows, key).len() > 0);
        assert(has_key(bundles, key));
        let m = choose|m: int| 0 <= m < bundles.len() && #[trigger] bundles[m].0@ == key;
        assert(ka[m] == key);
    }
    assert forall|m: int| 0 <= m < ka.len() implies kb.contains(#[trigger] ka[m]) by {
        let key = bundles[m].0@;
        let group = rows_with_key(rows, key);
        assert(bundles[m].1.bridge@.len() > 0);
        assert(group.len() > 0);
        assert(row_of_bridge(group[0], bundles[m].1.bridge@[0], key));
        lemma_key_in_rows(rows, key);
        let i = choose|i: int| 0 <= i < rows.len() && (#[trigger] rows[i]).bundle_hash@ == key;
        assert(has_key(read, rows[i].bundle_hash@));
        let j = choose|j: int| 0 <= j < read.len() && #[trigger] read[j].0@ == key;
        assert(kb[j] == key);
    }
    lemma_increasing_equal(ka, kb);
    assert(read.len() == kb.len());
    assert forall|j: int| 0 <= j < read.len() implies {
        &&& (#[trigger] read[j]).0@ == bundles[j].0@
        &&& read[j].1.target == bundles[j].1.target
        &&& read[j].1.bridge@.len() == bundles[j].1.bridge@.len()
    } by {
        assert(ka[j] == kb[j]);
        assert(bundle_of_rows(read, rows, j));
        let group = rows_with_key(rows, bundles[j].0@);
        assert(row_of_bridge(group[0], bundles[j].1.bridge@[0], bundles[j].0@));
        lemma_chain_read_back(bundles[j].1.bridge@[0].target);
    }
    assert forall|j: int, k: int|
        0 <= j < read.len() && 0 <= k < read[j].1.bridge@.len() implies #[trigger] same_bridge(
            read[j].1.bridge@[k],
            bundles[j].1.bridge@[k],
        ) by {
        assert(ka[j] == kb[j]);
        assert(bundle_of_rows(read, rows, j));
        let group = rows_with_key(rows, bundles[j].0@);
        assert(bridge_of_row(read[j].1.bridge@[k], group[k]));
        assert(row_of_bridge(group[k], bundles[j].1.bridge@[k], bundles[j].0@));
        lemma_chain_read_back(bundles[j].1.bridge@[k].source);
        lemma_chain_read_back(bundles[j].1.bridge@[k].target);
    }
}

/// Reading stored receipt rows back gives the stored receipts: when row `i`
/// stores receipt `i` and receipt `i` of `read` is read from row `i`, as in
/// `block_rows` and `block_from_rows`, the receipts are the same.
pub proof fn lemma_stored_receipts_read_back(
    receipts: Seq<Receipt>,
    rows: Seq<ReceiptRow>,
    read: Seq<Receipt>,
)
    requires
        rows.len() == receipts.len(),
        read.len() == rows.len(),
        forall|i: int| 0 <= i < rows.len() ==> #[trigger] row_of_receipt(rows[i], receipts[i]),
        forall|i: int| 0 <= i < rows.len() ==> #[trigger] receipt_of_row(read[i], rows[i]),
    ensures
        forall|i: int| 0 <= i < read.len() ==> #[trigger] same_receipt(read[i], receipts[i]),
{
    assert forall|i: int| 0 <= i < read.len() implies #[trigger] same_receipt(read[i], receipts[i]) by {
        assert(row_of_receipt(rows[i], receipts[i]));
        assert(receipt_of_row(read[i], rows[i]));
        lemma_chain_read_back(receipts[i].source);
        lemma_chain_read_back(receipts[i].target);
    }
}

} // verus!
