//! Lexicographic order on byte strings, the order of `Vec<u8>` and `[u8]`,
//! and a sort of byte strings by it.
use vstd::prelude::*;
use vstd::relations::{sorted_by, total_ordering};

verus! {

/// `a` comes no later than `b` in lexicographic order: at the first
/// position where they differ the byte of `a` is smaller, or `a` is a
/// prefix of `b`.
pub open spec fn bytes_le(a: Seq<u8>, b: Seq<u8>) -> bool
    decreases a.len(),
{
    if a.len() == 0 {
        true
    } else if b.len() == 0 {
        false
    } else if a[0] != b[0] {
        a[0] < b[0]
    } else {
        bytes_le(a.drop_first(), b.drop_first())
    }
}

/// The lexicographic order as a relation.
pub open spec fn bytes_order() -> spec_fn(Seq<u8>, Seq<u8>) -> bool {
    |a: Seq<u8>, b: Seq<u8>| bytes_le(a, b)
}

/// Every byte string is lexicographically at most itself.
pub proof fn lemma_bytes_le_reflexive(a: Seq<u8>)
    ensures
        bytes_le(a, a),
    decreases a.len(),
{
    if a.len() > 0 {
        lemma_bytes_le_reflexive(a.drop_first());
    }
}

/// Two byte strings each lexicographically at most the other are equal.
pub proof fn lemma_bytes_le_antisymmetric(a: Seq<u8>, b: Seq<u8>)
    requires
        bytes_le(a, b),
        bytes_le(b, a),
    ensures
        a == b,
    decreases a.len(),
{
    if a.len() > 0 {
        lemma_bytes_le_antisymmetric(a.drop_first(), b.drop_first());
        assert(a =~= seq![a[0]] + a.drop_first());
        assert(b =~= seq![b[0]] + b.drop_first());
    } else {
        assert(b.len() == 0);
        assert(a =~= b);
    }
}

/// Lexicographic order on byte strings is transitive.
pub proof fn lemma_bytes_le_transitive(a: Seq<u8>, b: Seq<u8>, c: Seq<u8>)
    requires
        bytes_le(a, b),
        bytes_le(b, c),
    ensures
        bytes_le(a, c),
    decreases a.len(),
{
    if a.len() > 0 && b.len() > 0 && c.len() > 0 {
        if a[0] == b[0] && b[0] == c[0] {
            lemma_bytes_le_transitive(a.drop_first(), b.drop_first(), c.drop_first());
        }
    }
}

/// Any two byte strings are comparable in lexicographic order.
pub proof fn lemma_bytes_le_total(a: Seq<u8>, b: Seq<u8>)
    ensures
        bytes_le(a, b) || bytes_le(b, a),
    decreases a.len(),
{
    if a.len() > 0 && b.len() > 0 && a[0] == b[0] {
        lemma_bytes_le_total(a.drop_first(), b.drop_first());
    }
}

/// Lexicographic order on byte strings is a total order.
pub proof fn lemma_bytes_order_total()
    ensures
        total_ordering(bytes_order()),
{
    assert forall|a: Seq<u8>| #[trigger] bytes_order()(a, a) by {
        lemma_bytes_le_reflexive(a);
    }
    assert forall|a: Seq<u8>, b: Seq<u8>|
        #[trigger] bytes_order()(a, b) && #[trigger] bytes_order()(b, a) implies a == b by {
        lemma_bytes_le_antisymmetric(a, b);
    }
    assert forall|a: Seq<u8>, b: Seq<u8>, c: Seq<u8>|
        #[trigger] bytes_order()(a, b) && #[trigger] bytes_order()(b, c) implies bytes_order()(
        a,
        c,
    ) by {
        lemma_bytes_le_transitive(a, b, c);
    }
    assert forall|a: Seq<u8>, b: Seq<u8>|
        #[trigger] bytes_order()(a, b) || #[trigger] bytes_order()(b, a) by {
        lemma_bytes_le_total(a, b);
    }
}

/// Whether `a` comes no later than `b` in lexicographic order.
pub fn bytes_le_exec(a: &[u8], b: &[u8]) -> (le: bool)
    ensures
        le == bytes_le(a@, b@),
{
    let mut i: usize = 0;
    assert(a@.skip(0) =~= a@);
    assert(b@.skip(0) =~= b@);
    while i < a.len() && i < b.len()
        invariant
            0 <= i <= a@.len(),
            i <= b@.len(),
            bytes_le(a@, b@) == bytes_le(a@.skip(i as int), b@.skip(i as int)),
        decreases a@.len() - i,
    {
        if a[i] != b[i] {
            return a[i] < b[i];
        }
        assert(a@.skip(i as int).drop_first() =~= a@.skip(i + 1));
        assert(b@.skip(i as int).drop_first() =~= b@.skip(i + 1));
        i = i + 1;
    }
    i == a.len()
}

/// Sorts byte strings in lexicographic order.
pub fn sort_bytes(items: Vec<Vec<u8>>) -> (sorted: Vec<Vec<u8>>)
    ensures
        sorted.deep_view() == items.deep_view().sort_by(bytes_order()),
        sorted_by(sorted.deep_view(), bytes_order()),
        sorted.deep_view().to_multiset() == items.deep_view().to_multiset(),
{
    broadcast use vstd::seq_lib::group_to_multiset_ensures;

    proof {
        lemma_bytes_order_total();
    }
    let ghost le = bytes_order();
    let mut out: Vec<Vec<u8>> = Vec::new();
    let mut i: usize = 0;
    while i < items.len()
        invariant
            le == bytes_order(),
            total_ordering(le),
            0 <= i <= items.len(),
            sorted_by(out.deep_view(), le),
            out.deep_view().to_multiset() == items.deep_view().take(i as int).to_multiset(),
        decreases items.len() - i,
    {
        let x = items[i].clone();
        let ghost xv = x@;
        let ghost old_out = out.deep_view();
        let mut p: usize = 0;
        loop
            invariant
                0 <= p <= out.len(),
                old_out == out.deep_view(),
                xv == x@,
                forall|k: int| 0 <= k < p ==> bytes_le(#[trigger] old_out[k], xv),
            ensures
                0 <= p <= out.len(),
                forall|k: int| 0 <= k < p ==> bytes_le(#[trigger] old_out[k], xv),
                p < out.len() ==> !bytes_le(old_out[p as int], xv),
            decreases out.len() - p,
        {
            if p >= out.len() {
                break;
            }
            assert(old_out[p as int] == out[p as int]@);
            if !bytes_le_exec(out[p].as_slice(), x.as_slice()) {
                break;
            }
            p = p + 1;
        }
        let ghost out_before = out@;
        out.insert(p, x);
        proof {
            let nv = out.deep_view();
            assert(out@ == out_before.insert(p as int, x));
            assert forall|k: int| 0 <= k < nv.len() implies nv[k] == old_out.insert(p as int, xv)[k] by {
                if k < p {
                    assert(out@[k] == out_before[k]);
                } else if k > p {
                    assert(out@[k] == out_before[k - 1]);
                }
            }
            assert(nv =~= old_out.insert(p as int, xv));
            if p < old_out.len() {
                assert(!bytes_le(old_out[p as int], xv));
                assert(le(old_out[p as int], xv) || le(xv, old_out[p as int]));
                assert(le(xv, old_out[p as int]));
            }
            assert forall|a: int, b: int| 0 <= a < b < nv.len() implies #[trigger] le(nv[a], nv[b]) by {
                if b < p {
                    assert(le(old_out[a], old_out[b]));
                } else if b == p {
                    assert(bytes_le(old_out[a], xv));
                } else if a < p {
                    assert(le(old_out[a], xv));
                    assert(le(xv, old_out[p as int]));
                    if b - 1 > p {
                        assert(le(old_out[p as int], old_out[b - 1]));
                    }
                } else if a == p {
                    assert(le(xv, old_out[p as int]));
                    if b - 1 > p {
                        assert(le(old_out[p as int], old_out[b - 1]));
                    }
                } else {
                    assert(le(old_out[a - 1], old_out[b - 1]));
                }
            }
            assert(items.deep_view()[i as int] == items@[i as int]@);
            assert(xv == items.deep_view()[i as int]);
            assert(items.deep_view().take(i + 1) =~= items.deep_view().take(i as int).push(xv));
            vstd::seq_lib::to_multiset_insert(old_out, p as int, xv);
            vstd::seq_lib::to_multiset_build(items.deep_view().take(i as int), xv);
            assert(out.deep_view().to_multiset() == old_out.to_multiset().insert(xv));
        }
        i = i + 1;
    }
    proof {
        assert(items.deep_view().take(items.len() as int) =~= items.deep_view());
        items.deep_view().lemma_sort_by_ensures(le);
        vstd::seq_lib::lemma_sorted_unique(out.deep_view(), items.deep_view().sort_by(le), le);
    }
    out
}

} // verus!
