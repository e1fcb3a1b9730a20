//! The transactions inside of a block.
//!
//! The bundles of an extrinsic are kept as a list of `(hash, bundle)`
//! entries; `bundles_ordered` states the map discipline the list keeps:
//! hashes strictly increasing, so no hash occurs twice.
pub mod bridge;
pub mod sol;
pub mod ticket;
pub mod zec;

pub use bridge::{Bridge, BridgeBundle, Receipt};

use vstd::prelude::*;
use vstd::relations::sorted_by;

use crate::order::{bytes_le, bytes_order, sort_bytes};

verus! {

/// The transactions inside of a block
#[derive(Debug, Clone)]
pub struct Extrinsic {
    /// The bridge bundles, keyed by their hash
    pub bridge: Vec<([u8; 32], BridgeBundle)>,
    /// The receipts of the bridge transactions
    pub receipts: Vec<Receipt>,
}

/// The bundle hashes of `bundles` are strictly increasing.
pub open spec fn bundles_ordered(bundles: Seq<([u8; 32], BridgeBundle)>) -> bool {
    forall|i: int, j: int|
        0 <= i < j < bundles.len() ==> bytes_le(#[trigger] bundles[i].0@, #[trigger] bundles[j].0@)
            && bundles[i].0@ != bundles[j].0@
}

/// The number of bridge transactions held by `bundles`.
pub open spec fn bridge_count(bundles: Seq<([u8; 32], BridgeBundle)>) -> nat
    decreases bundles.len(),
{
    if bundles.len() == 0 {
        0
    } else {
        bridge_count(bundles.drop_last()) + bundles.last().1.bridge@.len()
    }
}

/// The transaction ids of the bridge transactions of `bridges`, in order.
pub open spec fn bridge_txids(bridges: Seq<Bridge>) -> Seq<Seq<u8>> {
    bridges.map_values(|b: Bridge| b.txid@)
}

/// The transaction ids of the bridge transactions of `bundles`, bundle by bundle.
pub open spec fn bundle_txids(bundles: Seq<([u8; 32], BridgeBundle)>) -> Seq<Seq<u8>>
    decreases bundles.len(),
{
    if bundles.len() == 0 {
        seq![]
    } else {
        bundle_txids(bundles.drop_last()) + bridge_txids(bundles.last().1.bridge@)
    }
}

/// The transaction ids of `receipts`, in order.
pub open spec fn receipt_txids(receipts: Seq<Receipt>) -> Seq<Seq<u8>> {
    receipts.map_values(|r: Receipt| r.txid@)
}

proof fn lemma_bundle_txids_len(bundles: Seq<([u8; 32], BridgeBundle)>)
    ensures
        bundle_txids(bundles).len() == bridge_count(bundles),
    decreases bundles.len(),
{
    if bundles.len() > 0 {
        lemma_bundle_txids_len(bundles.drop_last());
    }
}

impl Default for Extrinsic {
    /// No bridge bundles and no receipts.
    fn default() -> (ex: Extrinsic)
        ensures
            ex.bridge@.len() == 0,
            ex.receipts@.len() == 0,
    {
        Extrinsic { bridge: Vec::new(), receipts: Vec::new() }
    }
}

impl Extrinsic {
    /// The number of transactions: bridge transactions and receipts.
    pub open spec fn tx_count(self) -> nat {
        bridge_count(self.bridge@) + self.receipts@.len()
    }

    /// The transaction ids of all bridge transactions and receipts, in order.
    pub open spec fn txids(self) -> Seq<Seq<u8>> {
        bundle_txids(self.bridge@) + receipt_txids(self.receipts@)
    }

    /// Get the number of transactions in the extrinsic
    pub fn count(&self) -> (n: usize)
        requires
            self.tx_count() <= usize::MAX,
        ensures
            n == self.tx_count(),
    {
        let mut total: usize = 0;
        let mut i: usize = 0;
        proof {
            assert(self.bridge@.take(0) =~= Seq::<([u8; 32], BridgeBundle)>::empty());
        }
        while i < self.bridge.len()
            invariant
                0 <= i <= self.bridge@.len(),
                total == bridge_count(self.bridge@.take(i as int)),
                self.tx_count() <= usize::MAX,
            decreases self.bridge@.len() - i,
        {
            proof {
                let s = self.bridge@.take(i + 1);
                assert(s.drop_last() =~= self.bridge@.take(i as int));
                lemma_bridge_count_prefix(self.bridge@, i + 1);
            }
            total = total + self.bridge[i].1.bridge.len();
            i = i + 1;
        }
        proof {
            assert(self.bridge@.take(i as int) =~= self.bridge@);
        }
        total + self.receipts.len()
    }

    /// Get the signatures of the extrinsic: the transaction ids of all bridge
    /// transactions and receipts, sorted in lexicographic order.
    pub fn txs(&self) -> (txids: Vec<Vec<u8>>)
        ensures
            txids.deep_view() == self.txids().sort_by(bytes_order()),
            sorted_by(txids.deep_view(), bytes_order()),
            txids.deep_view().to_multiset() == self.txids().to_multiset(),
            txids@.len() == self.tx_count(),
    {
        let mut signatures: Vec<Vec<u8>> = Vec::new();
        let mut i: usize = 0;
        proof {
            assert(self.bridge@.take(0) =~= Seq::<([u8; 32], BridgeBundle)>::empty());
            assert(signatures.deep_view() =~= bundle_txids(self.bridge@.take(0)));
        }
        while i < self.bridge.len()
            invariant
                0 <= i <= self.bridge@.len(),
                signatures.deep_view() == bundle_txids(self.bridge@.take(i as int)),
            decreases self.bridge@.len() - i,
        {
            let bundle = &self.bridge[i].1;
            let ghost before = signatures.deep_view();
            let mut j: usize = 0;
            while j < bundle.bridge.len()
                invariant
                    0 <= j <= bundle.bridge@.len(),
                    signatures.deep_view() == before + bridge_txids(bundle.bridge@.take(j as int)),
                decreases bundle.bridge@.len() - j,
            {
                let ghost prev = signatures.deep_view();
                let txid = bundle.bridge[j].txid.clone();
                assert(txid@ =~= bundle.bridge@[j as int].txid@);
                assert(txid.deep_view() =~= txid@);
                signatures.push(txid);
                proof {
                    assert(signatures.deep_view() =~= prev.push(bundle.bridge@[j as int].txid@));
                    assert(bridge_txids(bundle.bridge@.take(j + 1)) =~= bridge_txids(
                        bundle.bridge@.take(j as int),
                    ).push(bundle.bridge@[j as int].txid@));
                }
                j = j + 1;
            }
            proof {
                assert(bundle.bridge@.take(j as int) =~= bundle.bridge@);
                let s = self.bridge@.take(i + 1);
                assert(s.drop_last() =~= self.bridge@.take(i as int));
                assert(s.last() == self.bridge@[i as int]);
            }
            i = i + 1;
        }
        proof {
            assert(self.bridge@.take(i as int) =~= self.bridge@);
        }
        let ghost bundles_part = signatures.deep_view();
        let mut k: usize = 0;
        while k < self.receipts.len()
            invariant
                0 <= k <= self.receipts@.len(),
                bundles_part == bundle_txids(self.bridge@),
                signatures.deep_view() == bundles_part + receipt_txids(self.receipts@.take(k as int)),
            decreases self.receipts@.len() - k,
        {
            let ghost prev = signatures.deep_view();
            let txid = self.receipts[k].txid.clone();
            assert(txid@ =~= self.receipts@[k as int].txid@);
            assert(txid.deep_view() =~= txid@);
            signatures.push(txid);
            proof {
                assert(signatures.deep_view() =~= prev.push(self.receipts@[k as int].txid@));
                assert(receipt_txids(self.receipts@.take(k + 1)) =~= receipt_txids(
                    self.receipts@.take(k as int),
                ).push(self.receipts@[k as int].txid@));
            }
            k = k + 1;
        }
        proof {
            assert(self.receipts@.take(k as int) =~= self.receipts@);
        }
        let sorted = sort_bytes(signatures);
        proof {
            lemma_txs_len_is_count(*self);
            assert(sorted@.len() == sorted.deep_view().len());
        }
        sorted
    }
}

pub(crate) proof fn lemma_bridge_count_prefix(bundles: Seq<([u8; 32], BridgeBundle)>, n: int)
    requires
        0 < n <= bundles.len(),
    ensures
        bridge_count(bundles.take(n)) == bridge_count(bundles.take(n - 1)) + bundles[n - 1].1.bridge@.len(),
        bridge_count(bundles.take(n)) <= bridge_count(bundles),
    decreases bundles.len() - n,
{
    assert(bundles.take(n).drop_last() =~= bundles.take(n - 1));
    if n < bundles.len() {
        lemma_bridge_count_prefix(bundles, n + 1);
    } else {
        assert(bundles.take(n) =~= bundles);
    }
}

/// The list of transaction ids has one entry per transaction:
/// `txs().len() == count()`.
pub proof fn lemma_txs_len_is_count(ex: Extrinsic)
    ensures
        ex.txids().sort_by(bytes_order()).len() == ex.tx_count(),
{
    broadcast use vstd::seq_lib::group_to_multiset_ensures;

    lemma_bundle_txids_len(ex.bridge@);
    crate::order::lemma_bytes_order_total();
    ex.txids().lemma_sort_by_ensures(bytes_order());
    assert(ex.txids().to_multiset().len() == ex.txids().len());
    assert(ex.txids().sort_by(bytes_order()).to_multiset().len() == ex.txids().sort_by(bytes_order()).len());
}

} // verus!
