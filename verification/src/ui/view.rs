//! The records the explorer serves: blocks, bundles, transactions and
//! receipts with their ids in display form.
use vstd::prelude::*;

use crate::block::{Block, Head};
use crate::codec::{base58_encode, base58_text};
use crate::crypto::blake3_digest;
use crate::ex::{Bridge, BridgeBundle, Receipt};
use crate::registry::{chain_name, coin_name};
use crate::ui::db::{BridgeTransactionResult, ReceiptInfo};
use crate::ui::util::{encode_recipient, encode_txid, recipient_text, txid_text};

verus! {

/// UI representation of a block
#[derive(Debug)]
pub struct UIBlock {
    pub slot: u32,
    pub hash: String,
    pub parent: String,
    pub state: String,
    pub accumulator: String,
    pub extrinsic_root: String,
    /// The votes in base58: validator key and signature, in header order.
    pub votes: Vec<(String, String)>,
    pub extrinsic: UIExtrinsic,
}

/// UI representation of extrinsic data
#[derive(Debug)]
pub struct UIExtrinsic {
    pub bridge: Vec<UIBridgeBundle>,
    pub receipts: Vec<UIReceipt>,
}

/// UI representation of a bridge bundle
#[derive(Debug)]
pub struct UIBridgeBundle {
    pub hash: String,
    pub target: String,
    pub bridges: Vec<UIBridge>,
    pub data: String,
    pub signatures: Vec<String>,
}

/// UI representation of a bridge transaction
#[derive(Debug)]
pub struct UIBridge {
    pub coin: String,
    pub recipient: String,
    pub amount: u64,
    pub source: String,
    pub target: String,
    pub txid: String,
}

/// UI representation of a receipt
#[derive(Debug)]
pub struct UIReceipt {
    pub anchor: String,
    pub coin: String,
    pub txid: String,
    pub source: String,
    pub target: String,
}

/// UI representation of a block head with transaction count
#[derive(Debug)]
pub struct UIHead {
    pub slot: u32,
    pub hash: String,
    pub txns: u32,
}

/// UI representation of paginated blocks response
#[derive(Debug)]
pub struct UIBlocksPage {
    pub blocks: Vec<UIHead>,
    pub total: u32,
    pub page: u32,
    pub row: u32,
}

/// UI representation of a transaction with optional receipt
#[derive(Debug)]
pub struct UITxn {
    pub txid: String,
    pub coin: String,
    pub amount: u64,
    pub recipient: String,
    pub source: String,
    pub target: String,
    pub slot: u32,
    pub receipt: Option<UIReceipt>,
}

/// UI representation of paginated transactions response
#[derive(Debug)]
pub struct UITxnsPage {
    pub txns: Vec<UITxn>,
    pub total: u32,
    pub page: u32,
    pub row: u32,
}

/// `u` shows the bridge transaction `b`.
pub open spec fn shows_bridge(u: UIBridge, b: Bridge) -> bool {
    &&& u.coin@ == coin_name(b.coin)
    &&& u.recipient@ == recipient_text(b.recipient@)
    &&& u.amount == b.amount
    &&& u.source@ == chain_name(b.source)
    &&& u.target@ == chain_name(b.target)
    &&& u.txid@ == txid_text(b.txid@)
}

/// `u` shows the receipt `r`.
pub open spec fn shows_receipt(u: UIReceipt, r: Receipt) -> bool {
    &&& u.anchor@ == txid_text(r.anchor@)
    &&& u.coin@ == coin_name(r.coin)
    &&& u.txid@ == txid_text(r.txid@)
    &&& u.source@ == chain_name(r.source)
    &&& u.target@ == chain_name(r.target)
}

/// `u` shows the bundle `b` stored under `hash`.
pub open spec fn shows_bundle(u: UIBridgeBundle, hash: Seq<u8>, b: BridgeBundle) -> bool {
    &&& u.hash@ == base58_text(hash)
    &&& u.target@ == chain_name(b.target)
    &&& u.bridges@.len() == b.bridge@.len()
    &&& forall|i: int| 0 <= i < b.bridge@.len() ==> #[trigger] shows_bridge(u.bridges@[i], b.bridge@[i])
    &&& u.data@ == base58_text(b.data@)
    &&& u.signatures@.len() == b.signatures@.len()
    &&& forall|i: int|
        0 <= i < b.signatures@.len() ==> #[trigger] u.signatures@[i]@ == base58_text(b.signatures@[i]@)
}

/// `u` shows the bundles `bundles` and the receipts `receipts`.
pub open spec fn shows_extrinsic(
    u: UIExtrinsic,
    bundles: Seq<([u8; 32], BridgeBundle)>,
    receipts: Seq<Receipt>,
) -> bool {
    &&& u.bridge@.len() == bundles.len()
    &&& forall|i: int|
        0 <= i < bundles.len() ==> #[trigger] shows_bundle(u.bridge@[i], bundles[i].0@, bundles[i].1)
    &&& u.receipts@.len() == receipts.len()
    &&& forall|i: int| 0 <= i < receipts.len() ==> #[trigger] shows_receipt(u.receipts@[i], receipts[i])
}

/// `u` shows the receipt information `r` (its slot aside).
pub open spec fn shows_receipt_info(u: UIReceipt, r: ReceiptInfo) -> bool {
    &&& u.anchor@ == r.anchor@
    &&& u.coin@ == r.coin@
    &&& u.txid@ == r.txid@
    &&& u.source@ == r.source@
    &&& u.target@ == r.target@
}

/// Copies a string.
fn copy_string(s: &String) -> (out: String)
    ensures
        out@ == s@,
{
    s.as_str().to_owned()
}

impl UIBridge {
    /// The view of a bridge transaction.
    pub fn from_bridge(bridge: &Bridge) -> (u: UIBridge)
        ensures
            shows_bridge(u, *bridge),
    {
        UIBridge {
            coin: bridge.coin.as_str().to_owned(),
            recipient: encode_recipient(bridge.recipient.as_slice()),
            amount: bridge.amount,
            source: bridge.source.as_str().to_owned(),
            target: bridge.target.as_str().to_owned(),
            txid: encode_txid(bridge.txid.as_slice()),
        }
    }
}

impl UIReceipt {
    /// The view of a receipt.
    pub fn from_receipt(receipt: &Receipt) -> (u: UIReceipt)
        ensures
            shows_receipt(u, *receipt),
    {
        UIReceipt {
            anchor: encode_txid(receipt.anchor.as_slice()),
            coin: receipt.coin.as_str().to_owned(),
            txid: encode_txid(receipt.txid.as_slice()),
            source: receipt.source.as_str().to_owned(),
            target: receipt.target.as_str().to_owned(),
        }
    }

    /// The receipt part of a stored transaction record (its slot aside).
    pub fn from_info(info: &ReceiptInfo) -> (u: UIReceipt)
        ensures
            shows_receipt_info(u, *info),
    {
        UIReceipt {
            anchor: copy_string(&info.anchor),
            coin: copy_string(&info.coin),
            txid: copy_string(&info.txid),
            source: copy_string(&info.source),
            target: copy_string(&info.target),
        }
    }
}

impl UIBridgeBundle {
    /// The view of the bundle `bundle` stored under `hash`.
    pub fn from_bundle(hash: &[u8; 32], bundle: &BridgeBundle) -> (u: UIBridgeBundle)
        ensures
            shows_bundle(u, hash@, *bundle),
    {
        let mut bridges: Vec<UIBridge> = Vec::new();
        let mut i: usize = 0;
        while i < bundle.bridge.len()
            invariant
                0 <= i <= bundle.bridge@.len(),
                bridges@.len() == i,
                forall|j: int| 0 <= j < i ==> #[trigger] shows_bridge(bridges@[j], bundle.bridge@[j]),
            decreases bundle.bridge@.len() - i,
        {
            bridges.push(UIBridge::from_bridge(&bundle.bridge[i]));
            i = i + 1;
        }
        let mut signatures: Vec<String> = Vec::new();
        let mut k: usize = 0;
        while k < bundle.signatures.len()
            invariant
                0 <= k <= bundle.signatures@.len(),
                signatures@.len() == k,
                forall|j: int|
                    0 <= j < k ==> #[trigger] signatures@[j]@ == base58_text(bundle.signatures@[j]@),
            decreases bundle.signatures@.len() - k,
        {
            signatures.push(base58_encode(bundle.signatures[k].as_slice()));
            k = k + 1;
        }
        UIBridgeBundle {
            hash: base58_encode(hash.as_slice()),
            target: bundle.target.as_str().to_owned(),
            bridges,
            data: base58_encode(bundle.data.as_slice()),
            signatures,
        }
    }
}

impl UIExtrinsic {
    /// The view of the bundles and receipts of an extrinsic.
    pub fn from_extrinsic(bridge: &Vec<([u8; 32], BridgeBundle)>, receipts: &[Receipt]) -> (u: UIExtrinsic)
        ensures
            shows_extrinsic(u, bridge@, receipts@),
    {
        let mut bundles: Vec<UIBridgeBundle> = Vec::new();
        let mut i: usize = 0;
        while i < bridge.len()
            invariant
                0 <= i <= bridge@.len(),
                bundles@.len() == i,
                forall|j: int|
                    0 <= j < i ==> #[trigger] shows_bundle(bundles@[j], bridge@[j].0@, bridge@[j].1),
            decreases bridge@.len() - i,
        {
            bundles.push(UIBridgeBundle::from_bundle(&bridge[i].0, &bridge[i].1));
            i = i + 1;
        }
        let mut shown: Vec<UIReceipt> = Vec::new();
        let mut k: usize = 0;
        while k < receipts.len()
            invariant
                0 <= k <= receipts@.len(),
                shown@.len() == k,
                forall|j: int| 0 <= j < k ==> #[trigger] shows_receipt(shown@[j], receipts@[j]),
            decreases receipts@.len() - k,
        {
            shown.push(UIReceipt::from_receipt(&receipts[k]));
            k = k + 1;
        }
        UIExtrinsic { bridge: bundles, receipts: shown }
    }
}

impl UIBlock {
    /// The view of a block: base58 hashes and roots, base58 votes, and the
    /// view of its extrinsic.
    pub fn from_block(block: &Block) -> (u: UIBlock)
        ensures
            u.slot == block.header.slot,
            u.hash@ == base58_text(blake3_digest(block.header.preimage())),
            u.parent@ == base58_text(block.header.parent@),
            u.state@ == base58_text(block.header.state@),
            u.accumulator@ == base58_text(block.header.accumulator@),
            u.extrinsic_root@ == base58_text(block.header.extrinsic@),
            u.votes@.len() == block.header.votes@.len(),
            forall|i: int|
                0 <= i < block.header.votes@.len() ==> {
                    &&& (#[trigger] u.votes@[i]).0@ == base58_text(block.header.votes@[i].0@)
                    &&& u.votes@[i].1@ == base58_text(block.header.votes@[i].1@)
                },
            shows_extrinsic(u.extrinsic, block.extrinsic.bridge@, block.extrinsic.receipts@),
    {
        let hash = block.header.hash();
        let votes_in = &block.header.votes;
        let mut votes: Vec<(String, String)> = Vec::new();
        let mut i: usize = 0;
        while i < votes_in.len()
            invariant
                0 <= i <= votes_in@.len(),
                votes@.len() == i,
                forall|j: int|
                    0 <= j < i ==> {
                        &&& (#[trigger] votes@[j]).0@ == base58_text(votes_in@[j].0@)
                        &&& votes@[j].1@ == base58_text(votes_in@[j].1@)
                    },
            decreases votes_in@.len() - i,
        {
            let key = base58_encode(votes_in[i].0.as_slice());
            let sig = base58_encode(votes_in[i].1.as_slice());
            votes.push((key, sig));
            i = i + 1;
        }
        UIBlock {
            slot: block.header.slot,
            hash: base58_encode(hash.as_slice()),
            parent: base58_encode(block.header.parent.as_slice()),
            state: base58_encode(block.header.state.as_slice()),
            accumulator: base58_encode(block.header.accumulator.as_slice()),
            extrinsic_root: base58_encode(block.header.extrinsic.as_slice()),
            votes,
            extrinsic: UIExtrinsic::from_extrinsic(&block.extrinsic.bridge, block.extrinsic.receipts.as_slice()),
        }
    }
}

impl UIHead {
    /// The head row of a block list: slot, base58 hash and transaction count.
    pub fn from_head(head: &Head, txns: u32) -> (u: UIHead)
        ensures
            u.slot == head.slot,
            u.hash@ == base58_text(head.hash@),
            u.txns == txns,
    {
        UIHead { slot: head.slot, hash: base58_encode(head.hash.as_slice()), txns }
    }
}

/// The answer to a request for the newest block: its slot and the base58
/// text of its hash.
pub fn latest_view(head: &Head) -> (view: (u32, String))
    ensures
        view.0 == head.slot,
        view.1@ == base58_text(head.hash@),
{
    (head.slot, base58_encode(head.hash.as_slice()))
}

impl UITxn {
    /// The transaction record served to clients from a stored record.
    pub fn from_result(tx: &BridgeTransactionResult) -> (u: UITxn)
        ensures
            u.txid@ == tx.txid@,
            u.coin@ == tx.coin@,
            u.amount == tx.amount,
            u.recipient@ == tx.recipient@,
            u.source@ == tx.source@,
            u.target@ == tx.target@,
            u.slot == tx.slot,
            u.receipt is Some <==> tx.receipt is Some,
            tx.receipt matches Some(r) ==> shows_receipt_info(u.receipt->0, r),
    {
        let receipt = match &tx.receipt {
            Some(r) => Some(UIReceipt::from_info(r)),
            None => None,
        };
        UITxn {
            txid: copy_string(&tx.txid),
            coin: copy_string(&tx.coin),
            amount: tx.amount,
            recipient: copy_string(&tx.recipient),
            source: copy_string(&tx.source),
            target: copy_string(&tx.target),
            slot: tx.slot,
            receipt,
        }
    }
}

} // verus!
