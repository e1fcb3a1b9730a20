//! Rebuilding a block from its stored rows.
//!
//! The bridge rows of a block are grouped into bundles by their bundle
//! hash: each bundle holds the rows with its hash, in row order, and takes
//! its target chain from the first of them; the bundles are ordered by hash.
use vstd::prelude::*;

use crate::block::{votes_ordered, Block, Header};
use crate::bytes::{bytes_eq, to_array32, to_vec};
use crate::ex::{bridge_count, bundles_ordered, Bridge, BridgeBundle, Extrinsic, Receipt};
use crate::order::{
    bytes_le, bytes_le_exec, lemma_bytes_le_antisymmetric, lemma_bytes_le_total,
    lemma_bytes_le_transitive,
};
use crate::registry::{Chain, Coin};
use crate::ui::util::{parse_chain, parse_coin};

verus! {

/// A stored bridge transaction row.
#[derive(Debug)]
pub struct BridgeRow {
    pub txid: Vec<u8>,
    pub coin: String,
    pub recipient: Vec<u8>,
    pub amount: u64,
    pub source: String,
    pub target: String,
    pub bundle_hash: Vec<u8>,
}

/// A stored receipt row.
#[derive(Debug)]
pub struct ReceiptRow {
    pub txid: Vec<u8>,
    pub anchor: Vec<u8>,
    pub coin: String,
    pub source: String,
    pub target: String,
}

/// A stored block header row.
#[derive(Debug)]
pub struct BlockRow {
    pub slot: u32,
    pub parent: Vec<u8>,
    pub state: Vec<u8>,
    pub accumulator: Vec<u8>,
    pub extrinsic: Vec<u8>,
}

/// The chain that the stored name `name` reads as.
pub open spec fn chain_of(name: Seq<char>) -> Chain {
    if name == "Solana"@ {
        Chain::Solana
    } else {
        Chain::Zcash
    }
}

/// `b` is the bridge transaction stored as `row`.
pub open spec fn bridge_of_row(b: Bridge, row: BridgeRow) -> bool {
    &&& b.coin == Coin::Zec
    &&& b.recipient@ == row.recipient@
    &&& b.amount == row.amount
    &&& b.source == chain_of(row.source@)
    &&& b.target == chain_of(row.target@)
    &&& b.txid@ == row.txid@
}

/// `r` is the receipt stored as `row`.
pub open spec fn receipt_of_row(r: Receipt, row: ReceiptRow) -> bool {
    &&& r.anchor@ == row.anchor@
    &&& r.coin == Coin::Zec
    &&& r.txid@ == row.txid@
    &&& r.source == chain_of(row.source@)
    &&& r.target == chain_of(row.target@)
}

/// The rows of `rows` stored under the bundle hash `key`, in order.
pub open spec fn rows_with_key(rows: Seq<BridgeRow>, key: Seq<u8>) -> Seq<BridgeRow> {
    rows.filter(|r: BridgeRow| r.bundle_hash@ == key)
}

/// Some bundle of `bundles` has the hash `key`.
pub open spec fn has_key(bundles: Seq<([u8; 32], BridgeBundle)>, key: Seq<u8>) -> bool {
    exists|j: int| 0 <= j < bundles.len() && #[trigger] bundles[j].0@ == key
}

/// Bundle `j` of `bundles` holds the rows of `rows` stored under its hash.
pub open spec fn bundle_of_rows(bundles: Seq<([u8; 32], BridgeBundle)>, rows: Seq<BridgeRow>, j: int) -> bool {
    let group = rows_with_key(rows, bundles[j].0@);
    let bundle = bundles[j].1;
    &&& group.len() > 0
    &&& bundle.target == chain_of(group[0].target@)
    &&& bundle.bridge@.len() == group.len()
    &&& forall|k: int| 0 <= k < group.len() ==> #[trigger] bridge_of_row(bundle.bridge@[k], group[k])
    &&& bundle.data@.len() == 0
    &&& bundle.signatures@.len() == 0
}

/// `bundles` groups `rows` by bundle hash: ordered by hash, one bundle for
/// each hash that occurs, each holding the rows stored under its hash.
pub open spec fn groups_rows(bundles: Seq<([u8; 32], BridgeBundle)>, rows: Seq<BridgeRow>) -> bool {
    &&& bundles_ordered(bundles)
    &&& forall|i: int| 0 <= i < rows.len() ==> has_key(bundles, #[trigger] rows[i].bundle_hash@)
    &&& forall|j: int| 0 <= j < bundles.len() ==> #[trigger] bundle_of_rows(bundles, rows, j)
}

/// The number of rows of `rows` stored under the hashes of `bundles`.
spec fn group_sizes(bundles: Seq<([u8; 32], BridgeBundle)>, rows: Seq<BridgeRow>) -> nat
    decreases bundles.len(),
{
    if bundles.len() == 0 {
        0
    } else {
        group_sizes(bundles.drop_last(), rows) + rows_with_key(rows, bundles.last().0@).len()
    }
}

pub(crate) proof fn lemma_ordered_drop_last(bundles: Seq<([u8; 32], BridgeBundle)>)
    requires
        bundles.len() > 0,
        bundles_ordered(bundles),
    ensures
        bundles_ordered(bundles.drop_last()),
{
    let init = bundles.drop_last();
    assert forall|i: int, j: int| 0 <= i < j < init.len() implies bytes_le(
        #[trigger] init[i].0@,
        #[trigger] init[j].0@,
    ) && init[i].0@ != init[j].0@ by {
        assert(init[i] == bundles[i]);
        assert(init[j] == bundles[j]);
    }
}

proof fn lemma_group_sizes_empty(bundles: Seq<([u8; 32], BridgeBundle)>, rows: Seq<BridgeRow>)
    requires
        rows.len() == 0,
    ensures
        group_sizes(bundles, rows) == 0,
    decreases bundles.len(),
{
    if bundles.len() > 0 {
        lemma_group_sizes_empty(bundles.drop_last(), rows);
        reveal(Seq::filter);
    }
}

proof fn lemma_group_sizes_push(
    bundles: Seq<([u8; 32], BridgeBundle)>,
    rows: Seq<BridgeRow>,
    row: BridgeRow,
)
    requires
        bundles_ordered(bundles),
    ensures
        group_sizes(bundles, rows.push(row)) == group_sizes(bundles, rows) + (if has_key(
            bundles,
            row.bundle_hash@,
        ) {
            1int
        } else {
            0int
        }),
    decreases bundles.len(),
{
    if bundles.len() > 0 {
        let init = bundles.drop_last();
        let last = bundles.len() - 1;
        let k = row.bundle_hash@;
        lemma_ordered_drop_last(bundles);
        lemma_group_sizes_push(init, rows, row);
        rows.lemma_filter_push(row, |r: BridgeRow| r.bundle_hash@ == bundles.last().0@);
        if has_key(init, k) {
            let j = choose|j: int| 0 <= j < init.len() && #[trigger] init[j].0@ == k;
            assert(init[j] == bundles[j]);
            assert(bundles[j].0@ != bundles[last].0@);
            assert(has_key(bundles, k));
        }
        if has_key(bundles, k) && bundles.last().0@ != k {
            let j = choose|j: int| 0 <= j < bundles.len() && #[trigger] bundles[j].0@ == k;
            assert(init[j] == bundles[j]);
            assert(has_key(init, k));
        }
        if bundles.last().0@ == k {
            assert(bundles[last].0@ == k);
            assert(has_key(bundles, k));
        }
    }
}

proof fn lemma_group_sizes_total(bundles: Seq<([u8; 32], BridgeBundle)>, rows: Seq<BridgeRow>)
    requires
        bundles_ordered(bundles),
        forall|i: int| 0 <= i < rows.len() ==> has_key(bundles, #[trigger] rows[i].bundle_hash@),
    ensures
        group_sizes(bundles, rows) == rows.len(),
    decreases rows.len(),
{
    if rows.len() == 0 {
        lemma_group_sizes_empty(bundles, rows);
    } else {
        let init = rows.drop_last();
        assert(rows =~= init.push(rows.last()));
        assert forall|i: int| 0 <= i < init.len() implies has_key(bundles, #[trigger] init[i].bundle_hash@) by {
            assert(init[i] == rows[i]);
        }
        lemma_group_sizes_total(bundles, init);
        assert(has_key(bundles, rows[rows.len() - 1].bundle_hash@));
        lemma_group_sizes_push(bundles, init, rows.last());
    }
}

proof fn lemma_bridge_count_sizes(bundles: Seq<([u8; 32], BridgeBundle)>, rows: Seq<BridgeRow>)
    requires
        forall|j: int| 0 <= j < bundles.len() ==> #[trigger] bundle_of_rows(bundles, rows, j),
    ensures
        bridge_count(bundles) == group_sizes(bundles, rows),
    decreases bundles.len(),
{
    if bundles.len() > 0 {
        let init = bundles.drop_last();
        assert forall|j: int| 0 <= j < init.len() implies #[trigger] bundle_of_rows(init, rows, j) by {
            assert(init[j] == bundles[j]);
            assert(bundle_of_rows(bundles, rows, j));
        }
        lemma_bridge_count_sizes(init, rows);
        assert(bundle_of_rows(bundles, rows, bundles.len() - 1));
    }
}

/// Grouping stored rows into bundles loses no bridge transaction and adds
/// none: bundles that group `rows` hold exactly as many bridge transactions
/// as there are rows.
pub proof fn lemma_groups_rows_count(bundles: Seq<([u8; 32], BridgeBundle)>, rows: Seq<BridgeRow>)
    requires
        groups_rows(bundles, rows),
    ensures
        bridge_count(bundles) == rows.len(),
{
    lemma_bridge_count_sizes(bundles, rows);
    lemma_group_sizes_total(bundles, rows);
}

/// The error of rebuilding a block from `header` and `bridges`, if any: a
/// bundle hash of the wrong length comes first, then the header roots in
/// the order parent, state, accumulator, extrinsic.
pub open spec fn rows_error(header: BlockRow, bridges: Seq<BridgeRow>) -> Option<crate::ui::db::RowError> {
    if exists|i: int| 0 <= i < bridges.len() && (#[trigger] bridges[i]).bundle_hash@.len() != 32 {
        Some(crate::ui::db::RowError::InvalidBundleHash)
    } else if header.parent@.len() != 32 {
        Some(crate::ui::db::RowError::InvalidParent)
    } else if header.state@.len() != 32 {
        Some(crate::ui::db::RowError::InvalidState)
    } else if header.accumulator@.len() != 32 {
        Some(crate::ui::db::RowError::InvalidAccumulator)
    } else if header.extrinsic@.len() != 32 {
        Some(crate::ui::db::RowError::InvalidExtrinsic)
    } else {
        None
    }
}

/// The bridge transaction stored as `row`.
fn bridge_from_row(row: &BridgeRow) -> (b: Bridge)
    ensures
        bridge_of_row(b, *row),
{
    proof {
        reveal_strlit("Solana");
    }
    let recipient = to_vec(row.recipient.as_slice());
    let txid = to_vec(row.txid.as_slice());
    Bridge {
        coin: parse_coin(row.coin.as_str()),
        recipient,
        amount: row.amount,
        source: parse_chain(row.source.as_str()),
        target: parse_chain(row.target.as_str()),
        txid,
    }
}

/// The receipt stored as `row`.
fn receipt_from_row(row: &ReceiptRow) -> (r: Receipt)
    ensures
        receipt_of_row(r, *row),
{
    Receipt {
        anchor: to_vec(row.anchor.as_slice()),
        coin: parse_coin(row.coin.as_str()),
        txid: to_vec(row.txid.as_slice()),
        source: parse_chain(row.source.as_str()),
        target: parse_chain(row.target.as_str()),
    }
}

/// Adds the bridge transaction `b` stored as `row` (whose bundle hash is
/// `key`) to the bundles grouping `rows`, so that they group `rows` followed
/// by `row`.
fn add_row(
    bundles: &mut Vec<([u8; 32], BridgeBundle)>,
    key: [u8; 32],
    b: Bridge,
    Ghost(rows): Ghost<Seq<BridgeRow>>,
    Ghost(row): Ghost<BridgeRow>,
)
    requires
        groups_rows(old(bundles)@, rows),
        bridge_of_row(b, row),
        row.bundle_hash@ == key@,
    ensures
        groups_rows(final(bundles)@, rows.push(row)),
{
    let ghost old_b = bundles@;
    let ghost new_rows = rows.push(row);
    let ghost pred = |r: BridgeRow| r.bundle_hash@ == key@;
    let n = bundles.len();
    let mut p: usize = 0;
    let mut found = false;
    while p < n
        invariant
            n == bundles@.len(),
            bundles@ == old_b,
            bundles_ordered(old_b),
            0 <= p <= n,
            forall|q: int| 0 <= q < p ==> bytes_le(#[trigger] old_b[q].0@, key@) && old_b[q].0@ != key@,
            found ==> p < n && old_b[p as int].0@ == key@,
        ensures
            0 <= p <= n,
            forall|q: int| 0 <= q < p ==> bytes_le(#[trigger] old_b[q].0@, key@) && old_b[q].0@ != key@,
            found ==> p < n && old_b[p as int].0@ == key@,
            !found ==> p == n || !bytes_le(old_b[p as int].0@, key@),
        decreases n - p,
    {
        if bytes_eq(bundles[p].0.as_slice(), key.as_slice()) {
            found = true;
            break;
        }
        if !bytes_le_exec(bundles[p].0.as_slice(), key.as_slice()) {
            break;
        }
        p = p + 1;
    }
    proof {
        assert forall|k: Seq<u8>| #[trigger] rows_with_key(new_rows, k) == (if row.bundle_hash@ == k {
            rows_with_key(rows, k).push(row)
        } else {
            rows_with_key(rows, k)
        }) by {
            rows.lemma_filter_push(row, |r: BridgeRow| r.bundle_hash@ == k);
        }
    }
    if found {
        let (k, mut bundle) = bundles.remove(p);
        let ghost old_bundle = bundle;
        bundle.bridge.push(b);
        bundles.insert(p, (k, bundle));
        proof {
            let nb = bundles@;
            assert(nb =~= old_b.update(p as int, (k, bundle)));
            assert(k == old_b[p as int].0);
            assert forall|i: int, j: int|
                0 <= i < j < nb.len() implies bytes_le(#[trigger] nb[i].0@, #[trigger] nb[j].0@)
                && nb[i].0@ != nb[j].0@ by {
                assert(nb[i].0 == old_b[i].0);
                assert(nb[j].0 == old_b[j].0);
            }
            assert forall|i: int| 0 <= i < new_rows.len() implies has_key(nb, #[trigger] new_rows[i].bundle_hash@) by {
                if i < rows.len() {
                    assert(new_rows[i] == rows[i]);
                    assert(has_key(old_b, rows[i].bundle_hash@));
                    let j = choose|j: int| 0 <= j < old_b.len() && #[trigger] old_b[j].0@ == rows[i].bundle_hash@;
                    assert(nb[j].0 == old_b[j].0);
                } else {
                    assert(nb[p as int].0@ == key@);
                }
            }
            assert forall|j: int| 0 <= j < nb.len() implies #[trigger] bundle_of_rows(nb, new_rows, j) by {
                assert(bundle_of_rows(old_b, rows, j));
                let kj = old_b[j].0@;
                assert(nb[j].0@ == kj);
                if j == p {
                    let group = rows_with_key(rows, kj);
                    assert(rows_with_key(new_rows, kj) == group.push(row));
                    assert(nb[j].1.bridge@ == old_bundle.bridge@.push(b));
                    assert forall|m: int| 0 <= m < group.len() + 1 implies #[trigger] bridge_of_row(
                        nb[j].1.bridge@[m],
                        group.push(row)[m],
                    ) by {
                        if m < group.len() {
                            assert(bridge_of_row(old_bundle.bridge@[m], group[m]));
                        }
                    }
                } else {
                    assert(kj != key@) by {
                        if kj == key@ {
                            assert(bytes_le(old_b[j].0@, old_b[p as int].0@) || bytes_le(old_b[p as int].0@, old_b[j].0@));
                        }
                    }
                    assert(rows_with_key(new_rows, kj) == rows_with_key(rows, kj));
                    assert(nb[j] == old_b[j]);
                }
            }
        }
    } else {
        let mut bundle = BridgeBundle::new(b.target);
        let ghost bv = b;
        bundle.bridge.push(b);
        bundles.insert(p, (key, bundle));
        proof {
            let nb = bundles@;
            assert(nb =~= old_b.insert(p as int, (key, bundle)));
            assert(!has_key(old_b, key@)) by {
                if has_key(old_b, key@) {
                    let j = choose|j: int| 0 <= j < old_b.len() && #[trigger] old_b[j].0@ == key@;
                    if j >= p {
                        assert(p < n);
                        lemma_bytes_le_total(old_b[p as int].0@, key@);
                        if j > p {
                            assert(bytes_le(old_b[p as int].0@, old_b[j].0@));
                        }
                    }
                }
            }
            assert(rows_with_key(rows, key@).len() == 0) by {
                let g = rows_with_key(rows, key@);
                if g.len() > 0 {
                    assert(g.contains(g[0]));
                    rows.lemma_filter_contains_rev(|r: BridgeRow| r.bundle_hash@ == key@, g[0]);
                    assert(rows.contains(g[0]));
                    let i = choose|i: int| 0 <= i < rows.len() && rows[i] == g[0];
                    assert(has_key(old_b, rows[i].bundle_hash@));
                }
            }
            if p < n {
                lemma_bytes_le_total(old_b[p as int].0@, key@);
            }
            assert forall|i: int, j: int|
                0 <= i < j < nb.len() implies bytes_le(#[trigger] nb[i].0@, #[trigger] nb[j].0@)
                && nb[i].0@ != nb[j].0@ by {
                if j < p {
                    assert(nb[i] == old_b[i] && nb[j] == old_b[j]);
                } else if j == p {
                    assert(nb[i] == old_b[i]);
                } else if i < p {
                    assert(nb[i] == old_b[i] && nb[j] == old_b[j - 1]);
                    assert(bytes_le(old_b[i].0@, key@));
                    assert(bytes_le(key@, old_b[p as int].0@));
                    lemma_bytes_le_transitive(old_b[i].0@, key@, old_b[p as int].0@);
                    if j - 1 > p {
                        lemma_bytes_le_transitive(old_b[i].0@, old_b[p as int].0@, old_b[j - 1].0@);
                    }
                } else if i == p {
                    assert(nb[j] == old_b[j - 1]);
                    if j - 1 > p {
                        lemma_bytes_le_transitive(key@, old_b[p as int].0@, old_b[j - 1].0@);
                        if key@ == old_b[j - 1].0@ {
                            lemma_bytes_le_antisymmetric(key@, old_b[p as int].0@);
                        }
                    }
                } else {
                    assert(nb[i] == old_b[i - 1] && nb[j] == old_b[j - 1]);
                }
            }
            assert forall|i: int| 0 <= i < new_rows.len() implies has_key(nb, #[trigger] new_rows[i].bundle_hash@) by {
                if i < rows.len() {
                    assert(new_rows[i] == rows[i]);
                    assert(has_key(old_b, rows[i].bundle_hash@));
                    let j = choose|j: int| 0 <= j < old_b.len() && #[trigger] old_b[j].0@ == rows[i].bundle_hash@;
                    if j < p {
                        assert(nb[j] == old_b[j]);
                    } else {
                        assert(nb[j + 1] == old_b[j]);
                    }
                } else {
                    assert(nb[p as int].0@ == key@);
                }
            }
            assert forall|j: int| 0 <= j < nb.len() implies #[trigger] bundle_of_rows(nb, new_rows, j) by {
                if j == p {
                    assert(rows_with_key(new_rows, key@) == rows_with_key(rows, key@).push(row));
                    assert(rows_with_key(new_rows, key@) =~= seq![row]);
                    assert(nb[j].1.bridge@ =~= seq![bv]);
                } else {
                    let oj = if j < p { j } else { j - 1 };
                    assert(nb[j] == old_b[oj]);
                    assert(bundle_of_rows(old_b, rows, oj));
                    assert(old_b[oj].0@ != key@);
                    assert(rows_with_key(new_rows, old_b[oj].0@) == rows_with_key(rows, old_b[oj].0@));
                }
            }
        }
    }
}

/// Rebuilds the block stored as `header`, `votes`, `bridges` and `receipts`.
/// Fails when a stored hash or root does not have 32 bytes (see
/// `rows_error`); otherwise the header holds the stored values, the bridge
/// rows are grouped into bundles by bundle hash, and the receipts follow the
/// receipt rows.
pub fn block_from_rows(
    header: &BlockRow,
    votes: Vec<([u8; 32], Vec<u8>)>,
    bridges: &Vec<BridgeRow>,
    receipts: &Vec<ReceiptRow>,
) -> (block: Result<Block, crate::ui::db::RowError>)
    ensures
        block is Err <==> rows_error(*header, bridges@) is Some,
        block matches Err(e) ==> rows_error(*header, bridges@) == Some(e),
        block matches Ok(b) ==> {
            &&& b.header.slot == header.slot
            &&& b.header.parent@ == header.parent@
            &&& b.header.state@ == header.state@
            &&& b.header.accumulator@ == header.accumulator@
            &&& b.header.extrinsic@ == header.extrinsic@
            &&& b.header.votes@ == votes@
            &&& votes_ordered(votes@) ==> b.well_formed()
            &&& groups_rows(b.extrinsic.bridge@, bridges@)
            &&& bridge_count(b.extrinsic.bridge@) == bridges@.len()
            &&& b.extrinsic.receipts@.len() == receipts@.len()
            &&& forall|i: int|
                0 <= i < receipts@.len() ==> #[trigger] receipt_of_row(b.extrinsic.receipts@[i], receipts@[i])
        },
{
    let mut bundles: Vec<([u8; 32], BridgeBundle)> = Vec::new();
    let mut i: usize = 0;
    proof {
        assert(bridges@.take(0) =~= Seq::<BridgeRow>::empty());
    }
    while i < bridges.len()
        invariant
            0 <= i <= bridges@.len(),
            groups_rows(bundles@, bridges@.take(i as int)),
            forall|k: int| 0 <= k < i ==> (#[trigger] bridges@[k]).bundle_hash@.len() == 32,
        decreases bridges@.len() - i,
    {
        let row = &bridges[i];
        if row.bundle_hash.len() != 32 {
            return Err(crate::ui::db::RowError::InvalidBundleHash);
        }
        let key = to_array32(row.bundle_hash.as_slice());
        let b = bridge_from_row(row);
        proof {
            assert(bridges@.take(i + 1) =~= bridges@.take(i as int).push(bridges@[i as int]));
        }
        add_row(&mut bundles, key, b, Ghost(bridges@.take(i as int)), Ghost(bridges@[i as int]));
        i = i + 1;
    }
    proof {
        assert(bridges@.take(i as int) =~= bridges@);
        lemma_groups_rows_count(bundles@, bridges@);
    }
    let mut list: Vec<Receipt> = Vec::new();
    let mut k: usize = 0;
    while k < receipts.len()
        invariant
            0 <= k <= receipts@.len(),
            list@.len() == k,
            forall|j: int| 0 <= j < k ==> #[trigger] receipt_of_row(list@[j], receipts@[j]),
        decreases receipts@.len() - k,
    {
        list.push(receipt_from_row(&receipts[k]));
        k = k + 1;
    }
    if header.parent.len() != 32 {
        return Err(crate::ui::db::RowError::InvalidParent);
    }
    if header.state.len() != 32 {
        return Err(crate::ui::db::RowError::InvalidState);
    }
    if header.accumulator.len() != 32 {
        return Err(crate::ui::db::RowError::InvalidAccumulator);
    }
    if header.extrinsic.len() != 32 {
        return Err(crate::ui::db::RowError::InvalidExtrinsic);
    }
    let head = Header {
        slot: header.slot,
        parent: to_array32(header.parent.as_slice()),
        state: to_array32(header.state.as_slice()),
        accumulator: to_array32(header.accumulator.as_slice()),
        extrinsic: to_array32(header.extrinsic.as_slice()),
        votes,
    };
    Ok(Block { header: head, extrinsic: Extrinsic { bridge: bundles, receipts: list } })
}

} // verus!
