//! Byte-level helpers: little-endian encoding, copying and comparison.
use vstd::arithmetic::power::pow;
use vstd::prelude::*;

verus! {

/// The little-endian bytes of a `u32`.
pub open spec fn u32_le(x: u32) -> Seq<u8> {
    seq![
        (x % 0x100) as u8,
        ((x / 0x100) % 0x100) as u8,
        ((x / 0x1_0000) % 0x100) as u8,
        ((x / 0x100_0000) % 0x100) as u8,
    ]
}

/// The little-endian bytes of a `u64`.
pub open spec fn u64_le(x: u64) -> Seq<u8> {
    seq![
        (x % 0x100) as u8,
        ((x / 0x100) % 0x100) as u8,
        ((x / 0x1_0000) % 0x100) as u8,
        ((x / 0x100_0000) % 0x100) as u8,
        ((x / 0x1_0000_0000) % 0x100) as u8,
        ((x / 0x100_0000_0000) % 0x100) as u8,
        ((x / 0x1_0000_0000_0000) % 0x100) as u8,
        ((x / 0x100_0000_0000_0000) % 0x100) as u8,
    ]
}

/// The eight bytes of `x` from the least significant up: byte `b` is
/// `x / 256^b` modulo 256.
pub open spec fn le_digits(x: u64) -> Seq<u8> {
    Seq::new(8, |b: int| ((x as int / pow(256, b as nat)) % 256) as u8)
}

/// `u64_le` writes the bytes of `x` from the least significant up.
pub proof fn lemma_u64_le_digits(x: u64)
    ensures
        u64_le(x) == le_digits(x),
{
    reveal_with_fuel(pow, 9);
    assert(pow(256, 0) == 1);
    assert(pow(256, 1) == 0x100);
    assert(pow(256, 2) == 0x1_0000);
    assert(pow(256, 3) == 0x100_0000);
    assert(pow(256, 4) == 0x1_0000_0000);
    assert(pow(256, 5) == 0x100_0000_0000);
    assert(pow(256, 6) == 0x1_0000_0000_0000);
    assert(pow(256, 7) == 0x100_0000_0000_0000);
    assert(u64_le(x) =~= le_digits(x));
}

/// Appends the little-endian bytes of `x` to `out`.
pub fn push_u32_le(out: &mut Vec<u8>, x: u32)
    ensures
        final(out)@ == old(out)@ + u32_le(x),
{
    out.push((x % 0x100) as u8);
    out.push(((x / 0x100) % 0x100) as u8);
    out.push(((x / 0x1_0000) % 0x100) as u8);
    out.push(((x / 0x100_0000) % 0x100) as u8);
    assert(out@ =~= old(out)@ + u32_le(x));
}

/// Appends the little-endian bytes of `x` to `out`.
pub fn push_u64_le(out: &mut Vec<u8>, x: u64)
    ensures
        final(out)@ == old(out)@ + u64_le(x),
{
    out.push((x % 0x100) as u8);
    out.push(((x / 0x100) % 0x100) as u8);
    out.push(((x / 0x1_0000) % 0x100) as u8);
    out.push(((x / 0x100_0000) % 0x100) as u8);
    out.push(((x / 0x1_0000_0000) % 0x100) as u8);
    out.push(((x / 0x100_0000_0000) % 0x100) as u8);
    out.push(((x / 0x1_0000_0000_0000) % 0x100) as u8);
    out.push(((x / 0x100_0000_0000_0000) % 0x100) as u8);
    assert(out@ =~= old(out)@ + u64_le(x));
}

/// Copies `data` into a new vector.
pub fn to_vec(data: &[u8]) -> (out: Vec<u8>)
    ensures
        out@ == data@,
{
    vstd::slice::slice_to_vec(data)
}

/// Appends a copy of `data` to `out`.
pub fn append_bytes(out: &mut Vec<u8>, data: &[u8])
    ensures
        final(out)@ == old(out)@ + data@,
{
    let mut copy = to_vec(data);
    out.append(&mut copy);
}

/// Whether `a` and `b` hold the same bytes.
pub fn bytes_eq(a: &[u8], b: &[u8]) -> (eq: bool)
    ensures
        eq == (a@ == b@),
{
    if a.len() != b.len() {
        return false;
    }
    let mut i: usize = 0;
    while i < a.len()
        invariant
            a@.len() == b@.len(),
            0 <= i <= a@.len(),
            forall|j: int| 0 <= j < i ==> a@[j] == b@[j],
        decreases a@.len() - i,
    {
        if a[i] != b[i] {
            return false;
        }
        i = i + 1;
    }
    assert(a@ =~= b@);
    true
}

/// Copies `data`, which holds exactly 32 bytes, into an array.
pub fn to_array32(data: &[u8]) -> (out: [u8; 32])
    requires
        data@.len() == 32,
    ensures
        out@ == data@,
{
    let mut out = [0u8; 32];
    let mut i: usize = 0;
    while i < 32
        invariant
            data@.len() == 32,
            0 <= i <= 32,
            forall|j: int| 0 <= j < i ==> out@[j] == data@[j],
        decreases 32 - i,
    {
        out[i] = data[i];
        i = i + 1;
    }
    assert(out@ =~= data@);
    out
}

/// Copies `data`, which holds exactly 64 bytes, into an array.
pub fn to_array64(data: &[u8]) -> (out: [u8; 64])
    requires
        data@.len() == 64,
    ensures
        out@ == data@,
{
    let mut out = [0u8; 64];
    let mut i: usize = 0;
    while i < 64
        invariant
            data@.len() == 64,
            0 <= i <= 64,
            forall|j: int| 0 <= j < i ==> out@[j] == data@[j],
        decreases 64 - i,
    {
        out[i] = data[i];
        i = i + 1;
    }
    assert(out@ =~= data@);
    out
}

} // verus!
