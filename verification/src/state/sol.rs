//! Solana related state.
use vstd::prelude::*;

use crate::bytes::{append_bytes, le_digits, lemma_u64_le_digits, push_u64_le, u64_le};
use crate::util::Message;

verus! {

/// The bridge bundle of the transaction
///
/// Note: one block can only contain one solana bridge
/// bundle at the moment due to the current design of nonce.
#[derive(Debug, Clone)]
pub struct MintBundle {
    /// The nonce of the bundle, also its unique id.
    pub nonce: u64,
    /// The mint entries: recipient and amount
    pub entries: Vec<([u8; 32], u64)>,
    /// The signatures of the bundle
    pub signatures: Vec<Vec<u8>>,
}

/// The bytes of mint entries: each recipient followed by its amount in
/// little-endian order.
pub open spec fn entries_bytes(entries: Seq<([u8; 32], u64)>) -> Seq<u8>
    decreases entries.len(),
{
    if entries.len() == 0 {
        seq![]
    } else {
        entries_bytes(entries.drop_last()) + entries.last().0@ + u64_le(entries.last().1)
    }
}

/// The mint message: the nonce in little-endian order followed by the entries.
pub open spec fn mint_message(nonce: u64, entries: Seq<([u8; 32], u64)>) -> Seq<u8> {
    u64_le(nonce) + entries_bytes(entries)
}

/// `m` holds the nonce and then every entry in order: 8 bytes of the nonce,
/// least significant first, then for each entry its 32-byte recipient and
/// the 8 bytes of its amount, least significant first.
pub open spec fn mint_layout(m: Seq<u8>, nonce: u64, entries: Seq<([u8; 32], u64)>) -> bool {
    &&& m.len() == 8 + 40 * entries.len()
    &&& m.subrange(0, 8) == le_digits(nonce)
    &&& forall|k: int|
        0 <= k < entries.len() ==> m.subrange(8 + 40 * k, 8 + 40 * k + 32) == (#[trigger] entries[k]).0@
            && m.subrange(8 + 40 * k + 32, 8 + 40 * k + 40) == le_digits(entries[k].1)
}

proof fn lemma_entries_bytes_layout(entries: Seq<([u8; 32], u64)>)
    ensures
        entries_bytes(entries).len() == 40 * entries.len(),
        forall|k: int|
            0 <= k < entries.len() ==> entries_bytes(entries).subrange(40 * k, 40 * k + 32)
                == (#[trigger] entries[k]).0@ && entries_bytes(entries).subrange(40 * k + 32, 40 * k + 40)
                == le_digits(entries[k].1),
    decreases entries.len(),
{
    if entries.len() > 0 {
        let init = entries.drop_last();
        let n = entries.len() - 1;
        lemma_entries_bytes_layout(init);
        lemma_u64_le_digits(entries.last().1);
        let b = entries_bytes(entries);
        let bi = entries_bytes(init);
        assert(b == bi + entries.last().0@ + u64_le(entries.last().1));
        assert forall|k: int| 0 <= k < entries.len() implies b.subrange(40 * k, 40 * k + 32)
            == (#[trigger] entries[k]).0@ && b.subrange(40 * k + 32, 40 * k + 40) == le_digits(entries[k].1) by {
            if k < n {
                assert(init[k] == entries[k]);
                assert(b.subrange(40 * k, 40 * k + 32) =~= bi.subrange(40 * k, 40 * k + 32));
                assert(b.subrange(40 * k + 32, 40 * k + 40) =~= bi.subrange(40 * k + 32, 40 * k + 40));
            } else {
                assert(b.subrange(40 * k, 40 * k + 32) =~= entries.last().0@);
                assert(b.subrange(40 * k + 32, 40 * k + 40) =~= u64_le(entries.last().1));
            }
        }
    }
}

/// The mint message of `nonce` and `entries` is the nonce followed by every
/// entry in order, nothing left out or added: 8 + 40 bytes per entry, the
/// nonce's bytes first, then each entry's recipient and amount.
pub proof fn lemma_mint_message_layout(nonce: u64, entries: Seq<([u8; 32], u64)>)
    ensures
        mint_layout(mint_message(nonce, entries), nonce, entries),
{
    lemma_entries_bytes_layout(entries);
    lemma_u64_le_digits(nonce);
    let m = mint_message(nonce, entries);
    let e = entries_bytes(entries);
    assert(m.subrange(0, 8) =~= u64_le(nonce));
    assert forall|k: int| 0 <= k < entries.len() implies m.subrange(8 + 40 * k, 8 + 40 * k + 32)
        == (#[trigger] entries[k]).0@ && m.subrange(8 + 40 * k + 32, 8 + 40 * k + 40) == le_digits(entries[k].1) by {
        assert(m.subrange(8 + 40 * k, 8 + 40 * k + 32) =~= e.subrange(40 * k, 40 * k + 32));
        assert(m.subrange(8 + 40 * k + 32, 8 + 40 * k + 40) =~= e.subrange(40 * k + 32, 40 * k + 40));
    }
}

/// Builds the mint message of `nonce` and `entries`.
pub fn mint_message_bytes(nonce: u64, entries: &Vec<([u8; 32], u64)>) -> (message: Vec<u8>)
    ensures
        message@ == mint_message(nonce, entries@),
        mint_layout(message@, nonce, entries@),
{
    let mut message: Vec<u8> = Vec::new();
    push_u64_le(&mut message, nonce);
    let mut i: usize = 0;
    proof {
        assert(entries@.take(0) =~= Seq::<([u8; 32], u64)>::empty());
        assert(message@ =~= u64_le(nonce) + entries_bytes(entries@.take(0)));
    }
    while i < entries.len()
        invariant
            0 <= i <= entries@.len(),
            message@ == u64_le(nonce) + entries_bytes(entries@.take(i as int)),
        decreases entries@.len() - i,
    {
        let ghost before = message@;
        append_bytes(&mut message, entries[i].0.as_slice());
        push_u64_le(&mut message, entries[i].1);
        proof {
            let s = entries@.take(i + 1);
            assert(s.drop_last() =~= entries@.take(i as int));
            assert(s.last() == entries@[i as int]);
            assert(message@ =~= u64_le(nonce) + entries_bytes(s));
        }
        i = i + 1;
    }
    proof {
        assert(entries@.take(i as int) =~= entries@);
        lemma_mint_message_layout(nonce, entries@);
    }
    message
}

impl Message for MintBundle {
    open spec fn message_bytes(&self) -> Seq<u8> {
        mint_message(self.nonce, self.entries@)
    }

    fn message(&self) -> (message: Vec<u8>)
        ensures
            mint_layout(message@, self.nonce, self.entries@),
    {
        mint_message_bytes(self.nonce, &self.entries)
    }
}

} // verus!
