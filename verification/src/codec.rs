//! Text encodings of byte strings: hexadecimal, base58, UTF-8 and decimal.
use vstd::prelude::*;
use vstd::string::{StringExecFns, StringSliceAdditionalSpecFns};
use vstd::utf8::{decode_utf8, encode_utf8, valid_utf8};

verus! {

/// The lowercase hexadecimal digit of `n` (`0 <= n < 16`).
pub open spec fn hex_char(n: int) -> char {
    if n < 10 {
        (48 + n) as char
    } else {
        (87 + n) as char
    }
}

/// The lowercase hexadecimal text of `bytes`: two digits per byte, high
/// nibble first.
pub open spec fn hex_text(bytes: Seq<u8>) -> Seq<char> {
    Seq::new(
        2 * bytes.len(),
        |i: int|
            if i % 2 == 0 {
                hex_char(bytes[i / 2] as int / 16)
            } else {
                hex_char(bytes[i / 2] as int % 16)
            },
    )
}

/// The value of the hexadecimal digit with byte code `c`, or -1 when `c`
/// is no hexadecimal digit (either case is accepted).
pub open spec fn hex_value(c: u8) -> int {
    if 48 <= c <= 57 {
        c - 48
    } else if 97 <= c <= 102 {
        c - 87
    } else if 65 <= c <= 70 {
        c - 55
    } else {
        -1
    }
}

/// `text` (as bytes) is an even number of hexadecimal digits.
pub open spec fn hex_valid(text: Seq<u8>) -> bool {
    &&& text.len() % 2 == 0
    &&& forall|i: int| 0 <= i < text.len() ==> hex_value(#[trigger] text[i]) >= 0
}

/// The bytes written by the hexadecimal digits `text`.
pub open spec fn hex_bytes(text: Seq<u8>) -> Seq<u8> {
    Seq::new(
        text.len() / 2,
        |i: int| (hex_value(text[2 * i]) * 16 + hex_value(text[2 * i + 1])) as u8,
    )
}

/// The characters of the base58 alphabet of the `bs58` crate (Bitcoin's):
/// digits and letters except `0`, `I`, `O` and `l`.
pub open spec fn is_base58_char(c: char) -> bool {
    ||| '1' <= c <= '9'
    ||| 'A' <= c <= 'H'
    ||| 'J' <= c <= 'N'
    ||| 'P' <= c <= 'Z'
    ||| 'a' <= c <= 'k'
    ||| 'm' <= c <= 'z'
}

/// Every character of `text` is in the base58 alphabet.
pub open spec fn base58_valid(text: Seq<char>) -> bool {
    forall|i: int| 0 <= i < text.len() ==> is_base58_char(#[trigger] text[i])
}

/// The base58 digit `d` (`0 <= d < 58`) in the alphabet of the `bs58`
/// crate: `123456789ABCDEFGHJKLMNPQRSTUVWXYZabcdefghijkmnopqrstuvwxyz`.
pub open spec fn base58_char(d: int) -> char {
    if d < 9 {
        (49 + d) as char
    } else if d < 17 {
        (65 + d - 9) as char
    } else if d < 22 {
        (74 + d - 17) as char
    } else if d < 33 {
        (80 + d - 22) as char
    } else if d < 44 {
        (97 + d - 33) as char
    } else {
        (109 + d - 44) as char
    }
}

/// The value of the base58 character `c` (one of the alphabet).
pub open spec fn base58_value(c: char) -> int {
    if '1' <= c <= '9' {
        c as int - 49
    } else if 'A' <= c <= 'H' {
        c as int - 65 + 9
    } else if 'J' <= c <= 'N' {
        c as int - 74 + 17
    } else if 'P' <= c <= 'Z' {
        c as int - 80 + 22
    } else if 'a' <= c <= 'k' {
        c as int - 97 + 33
    } else {
        c as int - 109 + 44
    }
}

/// The number that `bytes` writes in big-endian order.
pub open spec fn be_number(bytes: Seq<u8>) -> nat
    decreases bytes.len(),
{
    if bytes.len() == 0 {
        0
    } else {
        be_number(bytes.drop_last()) * 256 + bytes.last() as nat
    }
}

/// The minimal big-endian bytes of `n` (none for zero).
pub open spec fn be_bytes(n: nat) -> Seq<u8>
    decreases n,
{
    if n == 0 {
        seq![]
    } else {
        be_bytes(n / 256) + seq![(n % 256) as u8]
    }
}

/// The number of zero bytes that `bytes` starts with.
pub open spec fn leading_zero_bytes(bytes: Seq<u8>) -> nat
    decreases bytes.len(),
{
    if bytes.len() == 0 || bytes[0] != 0 {
        0
    } else {
        1 + leading_zero_bytes(bytes.drop_first())
    }
}

/// The number of `'1'` characters (base58 zeros) that `text` starts with.
pub open spec fn leading_ones(text: Seq<char>) -> nat
    decreases text.len(),
{
    if text.len() == 0 || text[0] != '1' {
        0
    } else {
        1 + leading_ones(text.drop_first())
    }
}

/// The minimal base58 digits of `n` (none for zero).
pub open spec fn base58_digits(n: nat) -> Seq<char>
    decreases n,
{
    if n == 0 {
        seq![]
    } else {
        base58_digits(n / 58) + seq![base58_char((n % 58) as int)]
    }
}

/// The number that the base58 text `text` writes.
pub open spec fn base58_number(text: Seq<char>) -> nat
    decreases text.len(),
{
    if text.len() == 0 {
        0
    } else {
        (base58_number(text.drop_last()) * 58 + base58_value(text.last())) as nat
    }
}

/// The base58 text of `bytes`, as `bs58::encode(..).into_string()` writes
/// it: one `'1'` per leading zero byte, then the base58 digits of the
/// big-endian number that the bytes write.
pub open spec fn base58_text(bytes: Seq<u8>) -> Seq<char> {
    Seq::new(leading_zero_bytes(bytes), |i: int| '1') + base58_digits(be_number(bytes))
}

/// The bytes that the base58 text `text` stands for, as `bs58::decode`
/// reads them: one zero byte per leading `'1'`, then the minimal big-endian
/// bytes of the number that the text writes.
pub open spec fn base58_bytes(text: Seq<char>) -> Seq<u8> {
    Seq::new(leading_ones(text), |i: int| 0u8) + be_bytes(base58_number(text))
}

proof fn lemma_base58_char(d: int)
    requires
        0 <= d < 58,
    ensures
        base58_value(base58_char(d)) == d,
        is_base58_char(base58_char(d)),
        d >= 1 ==> base58_char(d) != '1',
{
}

proof fn lemma_base58_digits(n: nat)
    ensures
        base58_number(base58_digits(n)) == n,
        forall|i: int| 0 <= i < base58_digits(n).len() ==> is_base58_char(#[trigger] base58_digits(n)[i]),
        n > 0 ==> base58_digits(n).len() > 0 && base58_digits(n)[0] != '1',
    decreases n,
{
    if n > 0 {
        let q = n / 58;
        let r = (n % 58) as int;
        lemma_base58_digits(q);
        lemma_base58_char(r);
        let d = base58_digits(q);
        let t = base58_digits(n);
        assert(t == d + seq![base58_char(r)]);
        assert(t.drop_last() =~= d);
        assert(t.last() == base58_char(r));
        assert(q * 58 + r == n);
        assert forall|i: int| 0 <= i < t.len() implies is_base58_char(#[trigger] t[i]) by {
            if i < d.len() {
                assert(t[i] == d[i]);
            }
        }
        if q == 0 {
            assert(d.len() == 0);
            assert(t[0] == base58_char(r));
        } else {
            assert(t[0] == d[0]);
        }
    }
}

proof fn lemma_base58_all_ones(k: nat)
    ensures
        base58_number(Seq::new(k, |i: int| '1')) == 0,
    decreases k,
{
    if k > 0 {
        assert(Seq::new(k, |i: int| '1').drop_last() =~= Seq::new((k - 1) as nat, |i: int| '1'));
        lemma_base58_all_ones((k - 1) as nat);
    }
}

proof fn lemma_base58_number_ones(k: nat, s: Seq<char>)
    ensures
        base58_number(Seq::new(k, |i: int| '1') + s) == base58_number(s),
    decreases s.len(),
{
    let t = Seq::new(k, |i: int| '1') + s;
    if s.len() == 0 {
        assert(t =~= Seq::new(k, |i: int| '1'));
        lemma_base58_all_ones(k);
    } else {
        assert(t.drop_last() =~= Seq::new(k, |i: int| '1') + s.drop_last());
        assert(t.last() == s.last());
        lemma_base58_number_ones(k, s.drop_last());
    }
}

proof fn lemma_leading_ones(k: nat, s: Seq<char>)
    requires
        s.len() == 0 || s[0] != '1',
    ensures
        leading_ones(Seq::new(k, |i: int| '1') + s) == k,
    decreases k,
{
    let t = Seq::new(k, |i: int| '1') + s;
    if k == 0 {
        assert(t =~= s);
    } else {
        assert(t[0] == '1');
        assert(t.drop_first() =~= Seq::new((k - 1) as nat, |i: int| '1') + s);
        lemma_leading_ones((k - 1) as nat, s);
    }
}

proof fn lemma_be_number_zeros(k: nat, s: Seq<u8>)
    ensures
        be_number(Seq::new(k, |i: int| 0u8) + s) == be_number(s),
    decreases s.len(), k,
{
    let t = Seq::new(k, |i: int| 0u8) + s;
    if s.len() == 0 {
        if k > 0 {
            assert(t.drop_last() =~= Seq::new((k - 1) as nat, |i: int| 0u8) + s);
            lemma_be_number_zeros((k - 1) as nat, s);
        } else {
            assert(t =~= s);
        }
    } else {
        assert(t.drop_last() =~= Seq::new(k, |i: int| 0u8) + s.drop_last());
        assert(t.last() == s.last());
        lemma_be_number_zeros(k, s.drop_last());
    }
}

proof fn lemma_be_bytes_number(s: Seq<u8>)
    requires
        s.len() == 0 || s[0] != 0,
    ensures
        be_bytes(be_number(s)) == s,
        s.len() > 0 ==> be_number(s) > 0,
    decreases s.len(),
{
    if s.len() > 0 {
        let init = s.drop_last();
        let last = s.last();
        if init.len() > 0 {
            assert(init[0] == s[0]);
        }
        lemma_be_bytes_number(init);
        let q = be_number(init);
        let n = be_number(s);
        assert(n == q * 256 + last as nat);
        if init.len() == 0 {
            assert(last == s[0]);
        }
        assert(n > 0);
        vstd::arithmetic::div_mod::lemma_fundamental_div_mod_converse(n as int, 256, q as int, last as int);
        assert(be_bytes(n) == be_bytes(q) + seq![(n % 256) as u8]);
        assert(s =~= init + seq![last]);
    }
}

proof fn lemma_split_leading_zeros(t: Seq<u8>)
    ensures
        leading_zero_bytes(t) <= t.len(),
        t == Seq::new(leading_zero_bytes(t), |i: int| 0u8) + t.skip(leading_zero_bytes(t) as int),
        t.skip(leading_zero_bytes(t) as int).len() == 0 || t.skip(leading_zero_bytes(t) as int)[0] != 0,
    decreases t.len(),
{
    let z = leading_zero_bytes(t);
    if t.len() == 0 || t[0] != 0 {
        assert(t =~= Seq::new(0, |i: int| 0u8) + t.skip(0));
    } else {
        let rest = t.drop_first();
        lemma_split_leading_zeros(rest);
        let zr = leading_zero_bytes(rest);
        assert(z == zr + 1);
        assert(t.skip(z as int) =~= rest.skip(zr as int));
        assert(t =~= Seq::new(z, |i: int| 0u8) + t.skip(z as int)) by {
            let zs = Seq::new(zr, |i: int| 0u8);
            let tail = rest.skip(zr as int);
            assert(rest == zs + tail);
            assert(t =~= seq![0u8] + rest);
            assert(Seq::new(z, |i: int| 0u8) =~= seq![0u8] + zs);
            assert(seq![0u8] + (zs + tail) =~= (seq![0u8] + zs) + tail);
        }
    }
}

/// Base58 text reads back as the bytes it was written from: the text of
/// `bytes` is in the alphabet, and the bytes it stands for are `bytes`
/// again (leading zero bytes included).
pub proof fn lemma_base58_roundtrip(bytes: Seq<u8>)
    ensures
        base58_valid(base58_text(bytes)),
        base58_bytes(base58_text(bytes)) == bytes,
{
    let z = leading_zero_bytes(bytes);
    lemma_split_leading_zeros(bytes);
    let rest = bytes.skip(z as int);
    lemma_be_number_zeros(z, rest);
    assert(be_number(bytes) == be_number(rest));
    let n = be_number(bytes);
    lemma_be_bytes_number(rest);
    lemma_base58_digits(n);
    let digits = base58_digits(n);
    let text = base58_text(bytes);
    assert(text == Seq::new(z, |i: int| '1') + digits);
    assert forall|i: int| 0 <= i < text.len() implies is_base58_char(#[trigger] text[i]) by {
        if i >= z {
            assert(text[i] == digits[i - z]);
        }
    }
    lemma_leading_ones(z, digits);
    lemma_base58_number_ones(z, digits);
    assert(base58_bytes(text) =~= Seq::new(z, |i: int| 0u8) + be_bytes(n));
}

/// The error type of `hex` decoding.
#[verifier::external_type_specification]
#[verifier::external_body]
pub struct ExFromHexError(hex::FromHexError);

/// The error type of `bs58` decoding.
#[verifier::external_type_specification]
#[verifier::external_body]
pub struct ExBase58Error(bs58::decode::Error);

/// Encodes `data` as lowercase hexadecimal text.
///
/// Trusted: calls `hex::encode`, which writes each byte as two lowercase
/// hexadecimal digits, high nibble first.
#[verifier::external_body]
pub(crate) fn hex_encode(data: &[u8]) -> (text: String)
    ensures
        text@ == hex_text(data@),
{
    hex::encode(data)
}

/// Decodes the hexadecimal text `text`.
///
/// Trusted: calls `hex::decode`, which reads the bytes of `text` in pairs of
/// digits of either case and fails on an odd length or a byte that is no
/// hexadecimal digit. Which error value comes back is left unsaid.
#[verifier::external_body]
pub(crate) fn hex_decode(text: &str) -> (bytes: Result<Vec<u8>, hex::FromHexError>)
    ensures
        bytes is Ok <==> hex_valid(text.spec_bytes()),
        bytes matches Ok(b) ==> b@ == hex_bytes(text.spec_bytes()),
{
    hex::decode(text)
}

/// Encodes `data` as base58 text.
///
/// Trusted: calls `bs58::encode(..).into_string()`, which writes the
/// base58 text of the bytes (see `base58_text`).
#[verifier::external_body]
pub(crate) fn base58_encode(data: &[u8]) -> (text: String)
    ensures
        text@ == base58_text(data@),
{
    bs58::encode(data).into_string()
}

/// Decodes the base58 text `text`.
///
/// Trusted: calls `bs58::decode(..).into_vec()`. Its source fails only on a
/// byte outside the alphabet (a non-ASCII byte among them), so the result is
/// `Ok` exactly when every character is in the alphabet, and then holds the
/// bytes that the text stands for (see `base58_bytes`). Which error value
/// comes back is left unsaid.
#[verifier::external_body]
pub(crate) fn base58_decode(text: &str) -> (bytes: Result<Vec<u8>, bs58::decode::Error>)
    ensures
        bytes is Ok <==> base58_valid(text@),
        bytes matches Ok(b) ==> b@ == base58_bytes(text@),
{
    bs58::decode(text).into_vec()
}

/// Reads `bytes` as UTF-8 text.
///
/// Trusted: calls `String::from_utf8`, which std documents to succeed
/// exactly on valid UTF-8, keeping the text.
#[verifier::external_body]
pub(crate) fn utf8_text(bytes: Vec<u8>) -> (text: Option<String>)
    ensures
        text is Some <==> valid_utf8(bytes@),
        text matches Some(t) ==> t@ == decode_utf8(bytes@),
{
    String::from_utf8(bytes).ok()
}

/// The decimal digit character of `d` (`0 <= d < 10`).
pub open spec fn digit_char(d: int) -> char {
    (48 + d) as char
}

/// The decimal text of `n`, without leading zeros (`"0"` for zero).
pub open spec fn decimal(n: nat) -> Seq<char>
    decreases n,
{
    if n < 10 {
        seq![digit_char(n as int)]
    } else {
        decimal(n / 10) + seq![digit_char((n % 10) as int)]
    }
}

/// The text of one decimal digit.
fn digit_str(d: usize) -> (s: &'static str)
    requires
        d < 10,
    ensures
        s@ == seq![digit_char(d as int)],
{
    proof {
        reveal_strlit("0");
        reveal_strlit("1");
        reveal_strlit("2");
        reveal_strlit("3");
        reveal_strlit("4");
        reveal_strlit("5");
        reveal_strlit("6");
        reveal_strlit("7");
        reveal_strlit("8");
        reveal_strlit("9");
    }
    let s = if d == 0 {
        "0"
    } else if d == 1 {
        "1"
    } else if d == 2 {
        "2"
    } else if d == 3 {
        "3"
    } else if d == 4 {
        "4"
    } else if d == 5 {
        "5"
    } else if d == 6 {
        "6"
    } else if d == 7 {
        "7"
    } else if d == 8 {
        "8"
    } else {
        "9"
    };
    assert(s@ =~= seq![digit_char(d as int)]);
    s
}

/// Appends the decimal text of `n` to `out`.
pub fn push_decimal(out: &mut String, n: usize)
    ensures
        final(out)@ == old(out)@ + decimal(n as nat),
    decreases n,
{
    if n >= 10 {
        push_decimal(out, n / 10);
    }
    out.append(digit_str(n % 10));
    assert(out@ =~= old(out)@ + decimal(n as nat));
}

/// `text` equals the string `expected`, compared byte by byte.
pub fn str_eq(text: &str, expected: &str) -> (eq: bool)
    ensures
        eq == (text@ == expected@),
{
    broadcast use vstd::utf8::encode_utf8_decode_utf8;

    let a = text.as_bytes();
    let b = expected.as_bytes();
    let eq = crate::bytes::bytes_eq(a, b);
    proof {
        if eq {
            assert(decode_utf8(encode_utf8(text@)) == text@);
            assert(decode_utf8(encode_utf8(expected@)) == expected@);
        }
    }
    eq
}

/// The value of the decimal digits `digits` (bytes `'0'..='9'`).
pub open spec fn digits_value(digits: Seq<u8>) -> nat
    decreases digits.len(),
{
    if digits.len() == 0 {
        0
    } else {
        digits_value(digits.drop_last()) * 10 + (digits.last() - 48) as nat
    }
}

/// `digits` is a non-empty run of ASCII decimal digits.
pub open spec fn all_digits(digits: Seq<u8>) -> bool {
    &&& digits.len() > 0
    &&& forall|i: int| 0 <= i < digits.len() ==> 48 <= #[trigger] digits[i] <= 57
}

/// The `u32` that the text with bytes `text` stands for, as `str::parse::<u32>`
/// reads it: an optional `+` followed by decimal digits, at most `u32::MAX`.
pub open spec fn parse_u32_spec(text: Seq<u8>) -> Option<u32> {
    let digits = if text.len() > 0 && text[0] == 43 {
        text.drop_first()
    } else {
        text
    };
    if all_digits(digits) && digits_value(digits) <= u32::MAX {
        Some(digits_value(digits) as u32)
    } else {
        None
    }
}

proof fn lemma_digits_value_prefix(digits: Seq<u8>, i: int)
    requires
        0 < i <= digits.len(),
    ensures
        digits_value(digits.take(i)) == digits_value(digits.take(i - 1)) * 10 + (digits[i - 1] - 48) as nat,
{
    assert(digits.take(i).drop_last() =~= digits.take(i - 1));
}

proof fn lemma_digits_value_monotone(digits: Seq<u8>, i: int, j: int)
    requires
        0 <= i <= j <= digits.len(),
        forall|k: int| 0 <= k < digits.len() ==> 48 <= #[trigger] digits[k] <= 57,
    ensures
        digits_value(digits.take(i)) <= digits_value(digits.take(j)),
    decreases j - i,
{
    if i < j {
        lemma_digits_value_monotone(digits, i, j - 1);
        lemma_digits_value_prefix(digits, j);
    }
}

/// Reads `text` as a `u32` the way `str::parse::<u32>` does.
pub fn parse_u32(text: &str) -> (value: Option<u32>)
    ensures
        value == parse_u32_spec(text.spec_bytes()),
{
    let bytes = text.as_bytes();
    let ghost b = bytes@;
    let start: usize = if bytes.len() > 0 && bytes[0] == 43u8 {
        1
    } else {
        0
    };
    let ghost digits = b.skip(start as int);
    proof {
        if start == 1 {
            assert(digits =~= b.drop_first());
        } else {
            assert(digits =~= b);
        }
    }
    if start >= bytes.len() {
        assert(digits.len() == 0);
        return None;
    }
    let mut value: u32 = 0;
    let mut i: usize = start;
    proof {
        assert(digits.take(0) =~= Seq::<u8>::empty());
    }
    while i < bytes.len()
        invariant
            b == bytes@,
            b == text.spec_bytes(),
            digits == b.skip(start as int),
            digits == (if b.len() > 0 && b[0] == 43 { b.drop_first() } else { b }),
            start <= i <= b.len(),
            forall|k: int| 0 <= k < i - start ==> 48 <= #[trigger] digits[k] <= 57,
            value == digits_value(digits.take(i - start)),
        decreases b.len() - i,
    {
        let c = bytes[i];
        assert(c == digits[i - start]);
        if c < 48u8 || c > 57u8 {
            assert(!(48 <= digits[i - start] <= 57));
            return None;
        }
        proof {
            lemma_digits_value_prefix(digits, i - start + 1);
        }
        let d = (c - 48u8) as u32;
        if value > 429496729u32 || (value == 429496729u32 && d > 5u32) {
            proof {
                let p = i - start;
                assert(digits_value(digits.take(p + 1)) > u32::MAX);
                if all_digits(digits) {
                    lemma_digits_value_monotone(digits, p + 1, digits.len() as int);
                    assert(digits.take(digits.len() as int) =~= digits);
                }
            }
            return None;
        }
        value = value * 10 + d;
        i = i + 1;
    }
    proof {
        assert(digits.take(i - start) =~= digits);
    }
    Some(value)
}

} // verus!
