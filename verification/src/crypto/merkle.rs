//! Binary merkle tree.
//!
//! The leaves of a tree with two or more leaves are paired left to right;
//! each pair `(l, r)` becomes the hash of `"node" ++ l ++ r`, and a trailing
//! odd leaf is carried up unchanged. Layers are built until one node is
//! left, which is the root.
use vstd::prelude::*;

use super::{blake2b_256, blake2b_256_digest};

verus! {

/// The 32 zero bytes that stand for the root of an empty tree.
pub open spec fn zero_hash() -> Seq<u8> {
    Seq::new(32, |i: int| 0u8)
}

/// The domain tag `b"node"` that precedes every inner node preimage.
pub open spec fn node_tag() -> Seq<u8> {
    seq![110u8, 111u8, 100u8, 101u8]
}

/// The bytes hashed to build the parent of `left` and `right`.
pub open spec fn node_preimage(left: Seq<u8>, right: Seq<u8>) -> Seq<u8> {
    node_tag() + left + right
}

/// `hash` may return `output` when called on a slice holding `input`.
pub open spec fn hash_yields<F: Fn(&[u8]) -> [u8; 32]>(
    hash: F,
    input: Seq<u8>,
    output: Seq<u8>,
) -> bool {
    exists|x: &[u8], r: [u8; 32]| #[trigger] call_ensures(hash, (x,), r) && x@ == input && r@ == output
}

/// The hash relation of `hash`: the input/output pairs it may produce.
pub open spec fn hash_rel<F: Fn(&[u8]) -> [u8; 32]>(hash: F) -> spec_fn(Seq<u8>, Seq<u8>) -> bool {
    |i: Seq<u8>, o: Seq<u8>| hash_yields(hash, i, o)
}

/// Entry `j` of the layer above `prev` is `entry`, where `rel(i, o)` says
/// that `o` is an admissible hash of `i`.
pub open spec fn parent_ok(
    prev: Seq<Seq<u8>>,
    j: int,
    entry: Seq<u8>,
    rel: spec_fn(Seq<u8>, Seq<u8>) -> bool,
) -> bool {
    if 2 * j + 1 < prev.len() {
        rel(node_preimage(prev[2 * j], prev[2 * j + 1]), entry)
    } else {
        entry == prev[2 * j]
    }
}

/// `next` is the layer built from `prev` by pairing its nodes.
pub open spec fn is_parent_layer(
    prev: Seq<Seq<u8>>,
    next: Seq<Seq<u8>>,
    rel: spec_fn(Seq<u8>, Seq<u8>) -> bool,
) -> bool {
    &&& next.len() == (prev.len() + 1) / 2
    &&& forall|j: int| 0 <= j < next.len() ==> #[trigger] parent_ok(prev, j, next[j], rel)
}

/// `tree` is a merkle tree of `leaves` under the hash relation `rel`:
/// the layers above the leaves, bottom first, ending in the single root.
pub open spec fn is_merkle_tree(
    leaves: Seq<Seq<u8>>,
    tree: Seq<Seq<Seq<u8>>>,
    rel: spec_fn(Seq<u8>, Seq<u8>) -> bool,
) -> bool {
    if leaves.len() == 0 {
        tree == seq![seq![zero_hash()]]
    } else if leaves.len() == 1 {
        &&& tree.len() == 1
        &&& tree[0].len() == 1
        &&& rel(leaves[0], tree[0][0])
    } else {
        &&& tree.len() >= 1
        &&& is_parent_layer(leaves, tree[0], rel)
        &&& forall|k: int| 1 <= k < tree.len() ==> is_parent_layer(tree[k - 1], #[trigger] tree[k], rel)
        &&& forall|k: int| 0 <= k < tree.len() - 1 ==> (#[trigger] tree[k]).len() > 1
        &&& tree.last().len() == 1
    }
}

/// `root` is the root of some merkle tree of `leaves` under `rel`.
pub open spec fn is_merkle_root(
    leaves: Seq<Seq<u8>>,
    root: Seq<u8>,
    rel: spec_fn(Seq<u8>, Seq<u8>) -> bool,
) -> bool {
    if leaves.len() == 0 {
        root == zero_hash()
    } else {
        exists|tree: Seq<Seq<Seq<u8>>>| #[trigger] is_merkle_tree(leaves, tree, rel) && root == tree.last()[0]
    }
}

/// The layer above `prev` under the hash function `h`.
pub open spec fn parent_layer(prev: Seq<Seq<u8>>, h: spec_fn(Seq<u8>) -> Seq<u8>) -> Seq<Seq<u8>> {
    Seq::new(
        ((prev.len() + 1) / 2) as nat,
        |j: int|
            if 2 * j + 1 < prev.len() {
                h(node_preimage(prev[2 * j], prev[2 * j + 1]))
            } else {
                prev[2 * j]
            },
    )
}

/// The layers built above `layer` (which holds at least two nodes) up to the root.
pub open spec fn layers_above(layer: Seq<Seq<u8>>, h: spec_fn(Seq<u8>) -> Seq<u8>) -> Seq<
    Seq<Seq<u8>>,
>
    decreases layer.len(),
{
    let next = parent_layer(layer, h);
    if layer.len() <= 1 || next.len() <= 1 {
        seq![next]
    } else {
        seq![next] + layers_above(next, h)
    }
}

/// The merkle tree of `leaves` under the hash function `h`.
pub open spec fn merkle_tree(leaves: Seq<Seq<u8>>, h: spec_fn(Seq<u8>) -> Seq<u8>) -> Seq<
    Seq<Seq<u8>>,
> {
    if leaves.len() == 0 {
        seq![seq![zero_hash()]]
    } else if leaves.len() == 1 {
        seq![seq![h(leaves[0])]]
    } else {
        layers_above(leaves, h)
    }
}

/// The merkle root of `leaves` under the hash function `h`.
pub open spec fn merkle_root(leaves: Seq<Seq<u8>>, h: spec_fn(Seq<u8>) -> Seq<u8>) -> Seq<u8> {
    if leaves.len() == 0 {
        zero_hash()
    } else {
        merkle_tree(leaves, h).last()[0]
    }
}

/// `rel` relates each input to `h` of it and nothing else.
pub open spec fn rel_within(
    rel: spec_fn(Seq<u8>, Seq<u8>) -> bool,
    h: spec_fn(Seq<u8>) -> Seq<u8>,
) -> bool {
    forall|i: Seq<u8>, o: Seq<u8>| #[trigger] rel(i, o) ==> o == h(i)
}

/// The graph of `h` as a hash relation.
pub open spec fn graph_of(h: spec_fn(Seq<u8>) -> Seq<u8>) -> spec_fn(Seq<u8>, Seq<u8>) -> bool {
    |i: Seq<u8>, o: Seq<u8>| o == h(i)
}

proof fn lemma_parent_layer_unique(
    prev: Seq<Seq<u8>>,
    next: Seq<Seq<u8>>,
    rel: spec_fn(Seq<u8>, Seq<u8>) -> bool,
    h: spec_fn(Seq<u8>) -> Seq<u8>,
)
    requires
        is_parent_layer(prev, next, rel),
        rel_within(rel, h),
    ensures
        next == parent_layer(prev, h),
{
    let p = parent_layer(prev, h);
    assert forall|j: int| 0 <= j < next.len() implies next[j] == p[j] by {
        assert(parent_ok(prev, j, next[j], rel));
    }
    assert(next =~= p);
}

proof fn lemma_parent_layer_is_parent(prev: Seq<Seq<u8>>, h: spec_fn(Seq<u8>) -> Seq<u8>)
    ensures
        is_parent_layer(prev, parent_layer(prev, h), graph_of(h)),
{
    let p = parent_layer(prev, h);
    assert forall|j: int| 0 <= j < p.len() implies #[trigger] parent_ok(prev, j, p[j], graph_of(h)) by {}
}

proof fn lemma_parent_layer_shrinks(prev: Seq<Seq<u8>>, h: spec_fn(Seq<u8>) -> Seq<u8>)
    requires
        prev.len() >= 2,
    ensures
        parent_layer(prev, h).len() < prev.len(),
        parent_layer(prev, h).len() >= 1,
{
}

/// The layers above a layer of `n >= 2` nodes, given as `tree`, match
/// `layers_above` when every hash in them is the one `h` gives.
proof fn lemma_layers_unique(
    layer: Seq<Seq<u8>>,
    tree: Seq<Seq<Seq<u8>>>,
    rel: spec_fn(Seq<u8>, Seq<u8>) -> bool,
    h: spec_fn(Seq<u8>) -> Seq<u8>,
)
    requires
        layer.len() >= 2,
        rel_within(rel, h),
        tree.len() >= 1,
        is_parent_layer(layer, tree[0], rel),
        forall|k: int| 1 <= k < tree.len() ==> is_parent_layer(tree[k - 1], #[trigger] tree[k], rel),
        forall|k: int| 0 <= k < tree.len() - 1 ==> (#[trigger] tree[k]).len() > 1,
        tree.last().len() == 1,
    ensures
        tree == layers_above(layer, h),
    decreases layer.len(),
{
    lemma_parent_layer_unique(layer, tree[0], rel, h);
    let next = parent_layer(layer, h);
    if tree.len() == 1 {
        assert(next.len() == 1);
        assert(tree =~= seq![next]);
    } else {
        assert(tree[0].len() > 1);
        let rest = tree.subrange(1, tree.len() as int);
        assert forall|k: int| 1 <= k < rest.len() implies is_parent_layer(rest[k - 1], #[trigger] rest[k], rel) by {
            assert(rest[k] == tree[k + 1]);
            assert(rest[k - 1] == tree[k]);
        }
        assert forall|k: int| 0 <= k < rest.len() - 1 implies (#[trigger] rest[k]).len() > 1 by {
            assert(rest[k] == tree[k + 1]);
        }
        assert(rest[0] == tree[1]);
        assert(rest.last() == tree.last());
        lemma_layers_unique(next, rest, rel, h);
        assert(tree =~= seq![next] + rest);
    }
}

/// The layers of `layers_above` satisfy the layer conditions of a merkle tree.
proof fn lemma_layers_above_valid(layer: Seq<Seq<u8>>, h: spec_fn(Seq<u8>) -> Seq<u8>)
    requires
        layer.len() >= 2,
    ensures
        ({
            let tree = layers_above(layer, h);
            &&& tree.len() >= 1
            &&& is_parent_layer(layer, tree[0], graph_of(h))
            &&& forall|k: int| 1 <= k < tree.len() ==> is_parent_layer(tree[k - 1], #[trigger] tree[k], graph_of(h))
            &&& forall|k: int| 0 <= k < tree.len() - 1 ==> (#[trigger] tree[k]).len() > 1
            &&& tree.last().len() == 1
        }),
    decreases layer.len(),
{
    let next = parent_layer(layer, h);
    lemma_parent_layer_is_parent(layer, h);
    lemma_parent_layer_shrinks(layer, h);
    let tree = layers_above(layer, h);
    if next.len() <= 1 {
        assert(tree == seq![next]);
    } else {
        lemma_layers_above_valid(next, h);
        let rest = layers_above(next, h);
        assert(tree == seq![next] + rest);
        assert forall|k: int| 1 <= k < tree.len() implies is_parent_layer(tree[k - 1], #[trigger] tree[k], graph_of(h)) by {
            assert(tree[k] == rest[k - 1]);
            if k >= 2 {
                assert(tree[k - 1] == rest[k - 2]);
            }
        }
        assert forall|k: int| 0 <= k < tree.len() - 1 implies (#[trigger] tree[k]).len() > 1 by {
            if k >= 1 {
                assert(tree[k] == rest[k - 1]);
            }
        }
        assert(tree.last() == rest.last());
    }
}

/// A merkle tree is determined by its leaves: under a hash relation that
/// admits only the outputs of `h`, the only merkle tree of `leaves` is
/// `merkle_tree(leaves, h)`.
pub proof fn lemma_merkle_tree_unique(
    leaves: Seq<Seq<u8>>,
    tree: Seq<Seq<Seq<u8>>>,
    rel: spec_fn(Seq<u8>, Seq<u8>) -> bool,
    h: spec_fn(Seq<u8>) -> Seq<u8>,
)
    requires
        is_merkle_tree(leaves, tree, rel),
        rel_within(rel, h),
    ensures
        tree == merkle_tree(leaves, h),
{
    if leaves.len() == 0 {
    } else if leaves.len() == 1 {
        assert(tree[0] =~= seq![h(leaves[0])]);
        assert(tree =~= seq![seq![h(leaves[0])]]);
    } else {
        lemma_layers_unique(leaves, tree, rel, h);
    }
}

/// `merkle_tree(leaves, h)` is a merkle tree of `leaves` under the graph of `h`.
pub proof fn lemma_merkle_tree_valid(leaves: Seq<Seq<u8>>, h: spec_fn(Seq<u8>) -> Seq<u8>)
    ensures
        is_merkle_tree(leaves, merkle_tree(leaves, h), graph_of(h)),
{
    if leaves.len() >= 2 {
        lemma_layers_above_valid(leaves, h);
    }
}

/// The root of a merkle tree of `leaves` under a hash relation that admits
/// only the outputs of `h` is `merkle_root(leaves, h)`.
pub proof fn lemma_merkle_root_unique(
    leaves: Seq<Seq<u8>>,
    root: Seq<u8>,
    rel: spec_fn(Seq<u8>, Seq<u8>) -> bool,
    h: spec_fn(Seq<u8>) -> Seq<u8>,
)
    requires
        is_merkle_root(leaves, root, rel),
        rel_within(rel, h),
    ensures
        root == merkle_root(leaves, h),
{
    if leaves.len() > 0 {
        let tree = choose|tree: Seq<Seq<Seq<u8>>>| #[trigger] is_merkle_tree(leaves, tree, rel) && root == tree.last()[0];
        lemma_merkle_tree_unique(leaves, tree, rel, h);
    }
}

/// The root of a non-empty list of leaves is the single node of the top
/// layer of its merkle tree: under a hash relation that admits only the
/// outputs of `h`, any merkle root of `leaves` equals `tree.last()[0]` for
/// any merkle tree `tree` of `leaves`. So `hroot` gives the top of `tree`.
pub proof fn lemma_root_is_tree_top(
    leaves: Seq<Seq<u8>>,
    tree: Seq<Seq<Seq<u8>>>,
    root: Seq<u8>,
    rel: spec_fn(Seq<u8>, Seq<u8>) -> bool,
    h: spec_fn(Seq<u8>) -> Seq<u8>,
)
    requires
        leaves.len() > 0,
        is_merkle_tree(leaves, tree, rel),
        is_merkle_root(leaves, root, rel),
        rel_within(rel, h),
    ensures
        root == tree.last()[0],
{
    let other = choose|t: Seq<Seq<Seq<u8>>>| #[trigger] is_merkle_tree(leaves, t, rel) && root == t.last()[0];
    lemma_merkle_tree_unique(leaves, other, rel, h);
    lemma_merkle_tree_unique(leaves, tree, rel, h);
}

/// With at least one leaf, the root is a hash output: the hash of the single
/// leaf, or the hash of the preimage of the two nodes below it.
pub proof fn lemma_merkle_root_is_hash(leaves: Seq<Seq<u8>>, h: spec_fn(Seq<u8>) -> Seq<u8>)
    requires
        leaves.len() >= 1,
    ensures
        exists|i: Seq<u8>| merkle_root(leaves, h) == #[trigger] h(i),
{
    let tree = merkle_tree(leaves, h);
    lemma_merkle_tree_valid(leaves, h);
    if leaves.len() == 1 {
        assert(merkle_root(leaves, h) == h(leaves[0]));
    } else {
        let k = tree.len() - 1;
        let prev = if k == 0 { leaves } else { tree[k - 1] };
        if k >= 1 {
            assert(is_parent_layer(tree[k - 1], tree[k], graph_of(h)));
            assert(tree[k - 1].len() > 1);
        }
        assert(parent_ok(prev, 0, tree[k][0], graph_of(h)));
        assert(merkle_root(leaves, h) == h(node_preimage(prev[0], prev[1])));
    }
}

/// Copies `data` into a new vector.
fn copy_bytes(data: &[u8]) -> (out: Vec<u8>)
    ensures
        out@ == data@,
{
    vstd::slice::slice_to_vec(data)
}

/// The preimage `"node" ++ left ++ right` of an inner node.
fn node_bytes(left: &[u8], right: &[u8]) -> (out: Vec<u8>)
    ensures
        out@ == node_preimage(left@, right@),
{
    let mut out: Vec<u8> = Vec::new();
    out.push(110u8);
    out.push(111u8);
    out.push(100u8);
    out.push(101u8);
    let mut l = copy_bytes(left);
    let mut r = copy_bytes(right);
    out.append(&mut l);
    out.append(&mut r);
    assert(out@ =~= node_preimage(left@, right@));
    out
}

/// Calls `hash` on `data` and returns the digest as a vector.
fn hash_to_vec<F: Fn(&[u8]) -> [u8; 32]>(hash: &F, data: &[u8]) -> (out: Vec<u8>)
    requires
        forall|x: &[u8]| call_requires(*hash, (x,)),
    ensures
        hash_yields(*hash, data@, out@),
        out@.len() == 32,
{
    let digest = hash(data);
    assert(call_ensures(*hash, (data,), digest));
    copy_bytes(digest.as_slice())
}

/// Builds the layer above `current` by pairing its nodes.
fn parent_layer_exec<F: Fn(&[u8]) -> [u8; 32]>(current: &Vec<Vec<u8>>, hash: &F) -> (layer: Vec<
    Vec<u8>,
>)
    requires
        forall|x: &[u8]| call_requires(*hash, (x,)),
    ensures
        is_parent_layer(
            current.deep_view(),
            layer.deep_view(),
            hash_rel(*hash),
        ),
{
    let ghost rel = hash_rel(*hash);
    let ghost prev = current.deep_view();
    let n = current.len();
    let mut layer: Vec<Vec<u8>> = Vec::new();
    let mut i: usize = 0;
    while i < n
        invariant
            n == current.len(),
            prev == current.deep_view(),
            rel == hash_rel(*hash),
            forall|x: &[u8]| call_requires(*hash, (x,)),
            i <= n,
            i < n ==> i % 2 == 0,
            layer.len() == (i + 1) / 2,
            forall|j: int| 0 <= j < layer.len() ==> #[trigger] parent_ok(prev, j, layer.deep_view()[j], rel),
        decreases n - i,
    {
        let ghost old_layer = layer.deep_view();
        let ghost j = (i / 2) as int;
        assert(2 * j == i);
        let left = &current[i];
        assert(prev[i as int] == left@);
        if i + 1 < n {
            let right = &current[i + 1];
            assert(prev[i as int + 1] == right@);
            let pre = node_bytes(left.as_slice(), right.as_slice());
            let node = hash_to_vec(hash, pre.as_slice());
            layer.push(node);
            assert(layer.deep_view()[j] == node@);
            assert(pre@ == node_preimage(prev[2 * j], prev[2 * j + 1]));
            assert(parent_ok(prev, j, layer.deep_view()[j], rel));
            assert forall|k: int| 0 <= k < layer.len() implies #[trigger] parent_ok(prev, k, layer.deep_view()[k], rel) by {
                if k < j {
                    assert(layer.deep_view()[k] == old_layer[k]);
                }
            }
            i = i + 2;
        } else {
            let copy = left.clone();
            layer.push(copy);
            assert(layer.deep_view()[j] == left@);
            assert(parent_ok(prev, j, layer.deep_view()[j], rel));
            assert forall|k: int| 0 <= k < layer.len() implies #[trigger] parent_ok(prev, k, layer.deep_view()[k], rel) by {
                if k < j {
                    assert(layer.deep_view()[k] == old_layer[k]);
                }
            }
            i = i + 1;
        }
    }
    assert(layer.deep_view().len() == (prev.len() + 1) / 2);
    layer
}

/// Computes the merkle tree of `leaves`: the layers above the leaves,
/// bottom first, ending in a layer that holds only the root. An empty list
/// of leaves gives a single layer holding 32 zero bytes; a single leaf gives
/// a single layer holding its hash.
pub fn tree<F: Fn(&[u8]) -> [u8; 32]>(leaves: Vec<Vec<u8>>, hash: F) -> (tree: Vec<Vec<Vec<u8>>>)
    requires
        forall|x: &[u8]| call_requires(hash, (x,)),
    ensures
        is_merkle_tree(
            leaves.deep_view(),
            tree.deep_view(),
            hash_rel(hash),
        ),
{
    let ghost rel = hash_rel(hash);
    let ghost leaves_v = leaves.deep_view();
    if leaves.len() == 0 {
        let zero = [0u8; 32];
        let z = copy_bytes(zero.as_slice());
        let mut top: Vec<Vec<u8>> = Vec::new();
        top.push(z);
        let mut out: Vec<Vec<Vec<u8>>> = Vec::new();
        out.push(top);
        assert(out.deep_view()[0][0] =~= zero_hash());
        assert(out.deep_view()[0] =~= seq![zero_hash()]);
        assert(out.deep_view() =~= seq![seq![zero_hash()]]);
        return out;
    }
    if leaves.len() == 1 {
        let h = hash_to_vec(&hash, leaves[0].as_slice());
        let ghost hv = h@;
        assert(leaves_v[0] == leaves[0]@);
        let mut top: Vec<Vec<u8>> = Vec::new();
        top.push(h);
        let mut out: Vec<Vec<Vec<u8>>> = Vec::new();
        out.push(top);
        assert(out.deep_view()[0][0] == hv);
        return out;
    }
    let mut tree: Vec<Vec<Vec<u8>>> = Vec::new();
    let mut current = leaves;
    loop
        invariant_except_break
            current.len() >= 2,
            tree.len() == 0 ==> current.deep_view() == leaves_v,
            tree.len() > 0 ==> current.deep_view() == tree.deep_view().last(),
            forall|k: int| 0 <= k < tree.len() ==> (#[trigger] tree.deep_view()[k]).len() > 1,
        invariant
            forall|x: &[u8]| call_requires(hash, (x,)),
            rel == hash_rel(hash),
            leaves_v.len() >= 2,
            tree.len() > 0 ==> is_parent_layer(leaves_v, tree.deep_view()[0], rel),
            forall|k: int|
                1 <= k < tree.len() ==> is_parent_layer(
                    tree.deep_view()[k - 1],
                    #[trigger] tree.deep_view()[k],
                    rel,
                ),
        ensures
            tree.len() >= 1,
            is_parent_layer(leaves_v, tree.deep_view()[0], rel),
            forall|k: int|
                1 <= k < tree.len() ==> is_parent_layer(
                    tree.deep_view()[k - 1],
                    #[trigger] tree.deep_view()[k],
                    rel,
                ),
            forall|k: int| 0 <= k < tree.len() - 1 ==> (#[trigger] tree.deep_view()[k]).len() > 1,
            tree.deep_view().last().len() == 1,
        decreases current.len(),
    {
        let ghost old_tree = tree.deep_view();
        let layer = parent_layer_exec(&current, &hash);
        let ghost layer_v = layer.deep_view();
        tree.push(layer.clone());
        assert(tree.deep_view()[tree.len() - 1] == layer_v);
        assert forall|k: int| 0 <= k < old_tree.len() implies tree.deep_view()[k] == old_tree[k] by {}
        assert forall|k: int| 1 <= k < tree.len() implies is_parent_layer(
            tree.deep_view()[k - 1],
            #[trigger] tree.deep_view()[k],
            rel,
        ) by {
            if k < tree.len() - 1 {
                assert(tree.deep_view()[k] == old_tree[k]);
                assert(tree.deep_view()[k - 1] == old_tree[k - 1]);
            } else {
                assert(tree.deep_view()[k - 1] == old_tree.last());
            }
        }
        proof {
            if old_tree.len() == 0 {
                assert(tree.deep_view()[0] == layer_v);
            } else {
                assert(tree.deep_view()[0] == old_tree[0]);
            }
        }
        if layer.len() == 1 {
            assert forall|k: int| 0 <= k < tree.len() - 1 implies (#[trigger] tree.deep_view()[k]).len() > 1 by {
                assert(tree.deep_view()[k] == old_tree[k]);
            }
            break;
        }
        assert forall|k: int| 0 <= k < tree.len() implies (#[trigger] tree.deep_view()[k]).len() > 1 by {
            if k < tree.len() - 1 {
                assert(tree.deep_view()[k] == old_tree[k]);
            }
        }
        current = layer;
    }
    assert(tree.deep_view().len() == tree.len());
    tree
}

/// Computes the merkle root of `hashes`: 32 zero bytes when there are no
/// leaves, otherwise the single node of the top layer of `tree`.
pub fn hroot<F: Fn(&[u8]) -> [u8; 32]>(hashes: Vec<Vec<u8>>, hash: F) -> (root: [u8; 32])
    requires
        forall|x: &[u8]| call_requires(hash, (x,)),
    ensures
        is_merkle_root(hashes.deep_view(), root@, hash_rel(hash)),
{
    let ghost rel = hash_rel(hash);
    let ghost leaves = hashes.deep_view();
    if hashes.len() == 0 {
        let zero = [0u8; 32];
        assert(zero@ =~= zero_hash());
        return zero;
    }
    let t = tree(hashes, hash);
    let ghost tv = t.deep_view();
    let top = &t[t.len() - 1];
    proof {
        assert(tv.last() == top.deep_view());
        if leaves.len() == 1 {
            assert(rel(leaves[0], tv[0][0]));
        } else {
            let k = tv.len() - 1;
            let prev = if k == 0 { leaves } else { tv[k - 1] };
            if k >= 1 {
                assert(is_parent_layer(tv[k - 1], tv[k], rel));
                assert(tv[k - 1].len() > 1);
            }
            assert(parent_ok(prev, 0, tv[k][0], rel));
            assert(rel(node_preimage(prev[0], prev[1]), tv[k][0]));
        }
        // The top node is an output of `hash`, so it holds 32 bytes.
        let node = tv.last()[0];
        let i = choose|i: Seq<u8>| hash_yields(hash, i, node);
        let (x, r) = choose|x: &[u8], r: [u8; 32]| #[trigger] call_ensures(hash, (x,), r) && x@ == i && r@ == node;
        assert(r@.len() == 32);
    }
    let node = &top[0];
    let mut root = [0u8; 32];
    let mut i: usize = 0;
    while i < 32
        invariant
            node@.len() == 32,
            0 <= i <= 32,
            forall|j: int| 0 <= j < i ==> root@[j] == node@[j],
        decreases 32 - i,
    {
        root[i] = node[i];
        i = i + 1;
    }
    assert(root@ =~= node@);
    assert(node@ == tv.last()[0]);
    assert(is_merkle_tree(leaves, tv, rel));
    root
}

/// Computes the merkle root of `chunks` with the 32-byte BLAKE2b hash: 32
/// zero bytes when there are no chunks.
pub fn root(chunks: Vec<Vec<u8>>) -> (root: [u8; 32])
    ensures
        root@ == merkle_root(chunks.deep_view(), |d: Seq<u8>| blake2b_256_digest(d)),
{
    let ghost leaves = chunks.deep_view();
    let r = hroot(chunks, blake2b_256);
    proof {
        let rel = hash_rel(blake2b_256);
        let h = |d: Seq<u8>| blake2b_256_digest(d);
        assert forall|i: Seq<u8>, o: Seq<u8>| #[trigger] rel(i, o) implies o == h(i) by {
            let (x, d) = choose|x: &[u8], d: [u8; 32]| #[trigger] call_ensures(blake2b_256, (x,), d) && x@ == i && d@ == o;
        }
        lemma_merkle_root_unique(leaves, r@, rel, h);
    }
    r
}

} // verus!
