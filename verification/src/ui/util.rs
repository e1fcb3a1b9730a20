//! Text forms of transaction ids, recipients, chains and coins.
use vstd::prelude::*;
use vstd::string::StringSliceAdditionalSpecFns;
use vstd::utf8::{decode_utf8, encode_utf8, valid_utf8};

use crate::codec::{
    base58_bytes, base58_decode, base58_encode, base58_text, base58_valid, hex_bytes, hex_char,
    lemma_base58_roundtrip,
    hex_decode, hex_encode, hex_text, hex_valid, hex_value, str_eq, utf8_text,
};
use crate::registry::{Chain, Coin};
use crate::ui::error::AppError;

verus! {

/// The display text of a transaction id: a 32-byte (Zcash) id is shown
/// byte-reversed in hexadecimal, a 64-byte (Solana) id in base58, and any
/// other id in hexadecimal.
pub open spec fn txid_text(txid: Seq<u8>) -> Seq<char> {
    if txid.len() == 32 {
        hex_text(txid.reverse())
    } else if txid.len() == 64 {
        base58_text(txid)
    } else {
        hex_text(txid)
    }
}

/// The display text of a recipient: a 32-byte (Solana) address in base58,
/// otherwise the address as UTF-8 text (a Zcash unified address) when it is
/// valid UTF-8, else hexadecimal.
pub open spec fn recipient_text(recipient: Seq<u8>) -> Seq<char> {
    if recipient.len() == 32 {
        base58_text(recipient)
    } else if valid_utf8(recipient) {
        decode_utf8(recipient)
    } else {
        hex_text(recipient)
    }
}

/// The bytes that the text `text` of a transaction id stands for: hex text
/// (a Zcash id in display order) read and reversed back to stored order,
/// else base58 text (a Solana signature) read as it is; `None` for text
/// that is neither.
pub open spec fn decoded_txid(text: &str) -> Option<Seq<u8>> {
    if hex_valid(text.spec_bytes()) {
        Some(hex_bytes(text.spec_bytes()).reverse())
    } else if base58_valid(text@) {
        Some(base58_bytes(text@))
    } else {
        None
    }
}

/// The message of a transaction id that is neither hex nor base58.
pub open spec fn invalid_txid_message() -> Seq<char> {
    "Invalid txid format: must be hex or base58 encoded"@
}

/// The bytes of `data` in reverse order.
pub fn reversed(data: &[u8]) -> (out: Vec<u8>)
    ensures
        out@ == data@.reverse(),
{
    let mut out: Vec<u8> = Vec::new();
    let mut i: usize = data.len();
    while i > 0
        invariant
            0 <= i <= data@.len(),
            out@ == data@.subrange(i as int, data@.len() as int).reverse(),
        decreases i,
    {
        i = i - 1;
        out.push(data[i]);
        assert(out@ =~= data@.subrange(i as int, data@.len() as int).reverse());
    }
    assert(data@.subrange(0, data@.len() as int) =~= data@);
    out
}

/// Encode txid to appropriate string format based on length
pub fn encode_txid(txid: &[u8]) -> (text: String)
    ensures
        text@ == txid_text(txid@),
        txid@.len() == 64 ==> base58_valid(text@) && base58_bytes(text@) == txid@,
{
    proof {
        lemma_base58_roundtrip(txid@);
    }
    if txid.len() == 32 {
        let bytes = reversed(txid);
        hex_encode(bytes.as_slice())
    } else if txid.len() == 64 {
        base58_encode(txid)
    } else {
        hex_encode(txid)
    }
}

/// Encode recipient address
pub fn encode_recipient(recipient: &[u8]) -> (text: String)
    ensures
        text@ == recipient_text(recipient@),
        recipient@.len() == 32 ==> base58_valid(text@) && base58_bytes(text@) == recipient@,
{
    proof {
        lemma_base58_roundtrip(recipient@);
    }
    if recipient.len() == 32 {
        base58_encode(recipient)
    } else {
        let copy = crate::bytes::to_vec(recipient);
        match utf8_text(copy) {
            Some(text) => text,
            None => hex_encode(recipient),
        }
    }
}

/// Decode txid from hex or base58 string: hex text (a Zcash id in display
/// order) is decoded and reversed back to stored order; otherwise base58
/// text (a Solana signature) is decoded as it is.
pub fn decode_txid(txid_str: &str) -> (r: Result<Vec<u8>, AppError>)
    ensures
        decoded_txid(txid_str) matches Some(t) ==> (r matches Ok(b) && b@ == t),
        decoded_txid(txid_str) is None ==> (r matches Err(AppError::BadRequest(m)) && m@
            == invalid_txid_message()),
        !hex_valid(txid_str.spec_bytes()) && base58_valid(txid_str@) ==> (r matches Ok(b) && b@
            == base58_bytes(txid_str@)),
{
    if let Ok(bytes) = hex_decode(txid_str) {
        return Ok(reversed(bytes.as_slice()));
    }
    if let Ok(bytes) = base58_decode(txid_str) {
        return Ok(bytes);
    }
    proof {
        reveal_strlit("Invalid txid format: must be hex or base58 encoded");
    }
    Err(AppError::BadRequest("Invalid txid format: must be hex or base58 encoded".to_owned()))
}

/// Parse chain from its name: `"Solana"` is Solana, any other text Zcash.
pub fn parse_chain(s: &str) -> (chain: Chain)
    ensures
        chain == (if s@ == "Solana"@ {
            Chain::Solana
        } else {
            Chain::Zcash
        }),
{
    proof {
        reveal_strlit("Zcash");
        reveal_strlit("Solana");
        assert("Zcash"@.len() == 5);
        assert("Solana"@.len() == 6);
        assert("Zcash"@ != "Solana"@);
    }
    if str_eq(s, "Zcash") {
        Chain::Zcash
    } else if str_eq(s, "Solana") {
        Chain::Solana
    } else {
        Chain::Zcash
    }
}

/// Parse coin from its name: every name reads as ZEC, the only coin.
pub fn parse_coin(s: &str) -> (coin: Coin)
    ensures
        coin == Coin::Zec,
{
    Coin::Zec
}

/// Hexadecimal text is ASCII: its UTF-8 bytes are its characters.
proof fn lemma_hex_text_bytes(bytes: Seq<u8>)
    ensures
        encode_utf8(hex_text(bytes)).len() == hex_text(bytes).len(),
        forall|i: int|
            0 <= i < hex_text(bytes).len() ==> encode_utf8(hex_text(bytes))[i] == hex_text(
                bytes,
            )[i] as u8,
{
    let t = hex_text(bytes);
    assert forall|i: int| 0 <= i < t.len() implies '\0' <= #[trigger] t[i] <= '\u{7f}' by {}
    vstd::utf8::is_ascii_chars_encode_utf8(t);
}

/// A 64-byte (Solana) transaction id is shown as the base58 text of its
/// bytes in stored order: the text is base58, and the bytes it stands for
/// are the id again.
pub proof fn lemma_solana_txid_text(txid: Seq<u8>)
    requires
        txid.len() == 64,
    ensures
        base58_valid(txid_text(txid)),
        base58_bytes(txid_text(txid)) == txid,
{
    lemma_base58_roundtrip(txid);
}

/// A 32-byte (Solana) recipient is shown as the base58 text of its bytes in
/// order: the text is base58, and the bytes it stands for are the
/// recipient again.
pub proof fn lemma_solana_recipient_text(recipient: Seq<u8>)
    requires
        recipient.len() == 32,
    ensures
        base58_valid(recipient_text(recipient)),
        base58_bytes(recipient_text(recipient)) == recipient,
{
    lemma_base58_roundtrip(recipient);
}

/// Text that is not hexadecimal but is base58 reads as exactly the bytes
/// that base58 text stands for, whatever their number.
pub proof fn lemma_base58_txid_read(text: &str)
    requires
        !hex_valid(text.spec_bytes()),
        base58_valid(text@),
    ensures
        decoded_txid(text) == Some(base58_bytes(text@)),
{
}

/// Reading back the display text of a 64-byte (Solana) transaction id gives
/// the id, whenever that text is not also hexadecimal (then it reads as a
/// Zcash id first).
pub proof fn lemma_solana_txid_roundtrip(txid: Seq<u8>, text: &str)
    requires
        txid.len() == 64,
        text@ == txid_text(txid),
        !hex_valid(text.spec_bytes()),
    ensures
        decoded_txid(text) == Some(txid),
{
    lemma_base58_roundtrip(txid);
}

/// Reading back the display text of a 32-byte transaction id gives the id:
/// its UTF-8 bytes are valid hexadecimal, and the bytes they write,
/// reversed, are the id again. So `decode_txid(&encode_txid(t))` is `Ok(t)`
/// for every 32-byte `t`.
pub proof fn lemma_txid_roundtrip(txid: Seq<u8>)
    requires
        txid.len() == 32,
    ensures
        hex_valid(encode_utf8(txid_text(txid))),
        hex_bytes(encode_utf8(txid_text(txid))).reverse() == txid,
{
    let r = txid.reverse();
    let t = hex_text(r);
    lemma_hex_text_bytes(r);
    let b = encode_utf8(t);
    assert forall|i: int| 0 <= i < b.len() implies hex_value(#[trigger] b[i]) >= 0 by {
        assert(b[i] == t[i] as u8);
    }
    assert forall|j: int| 0 <= j < r.len() implies #[trigger] hex_bytes(b)[j] == r[j] by {
        assert(b[2 * j] == t[2 * j] as u8);
        assert(b[2 * j + 1] == t[2 * j + 1] as u8);
        assert((2 * j) % 2 == 0);
        assert((2 * j + 1) % 2 == 1);
        assert((2 * j) / 2 == j);
        assert((2 * j + 1) / 2 == j);
    }
    assert(hex_bytes(b) =~= r);
    assert(r.reverse() =~= txid);
}

} // verus!
