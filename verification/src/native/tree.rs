use crate::constants::{OUTPLUSONELOG, TREE_UPDATE_HEIGHT};
use crate::native::poseidon::merkle_proof_root;
use crate::native::uint::{bit_of, bits_of, lemma_bits_of_small};
use vstd::arithmetic::div_mod::lemma_div_denominator;
use vstd::arithmetic::power2::{lemma2_to64, lemma_pow2_adds, lemma_pow2_pos, pow2};
use crate::native::num::Num;
use crate::native::params::PoolBN256;
use crate::native::poseidon::{poseidon_pair, MerkleProof, PoseidonParams, ProofV};
use vstd::prelude::*;

verus! {

/// The public input of a tree append: both roots and the leaf appended.
#[derive(Clone, Copy, Debug)]
pub struct TreePub {
    pub root_before: Num,
    pub root_after: Num,
    pub leaf: Num,
}

/// The secret input of a tree append: the path of the last filled leaf, the
/// path of the first free leaf, and the last filled leaf.
#[derive(Clone, Debug)]
pub struct TreeSec {
    pub proof_filled: MerkleProof<TREE_UPDATE_HEIGHT>,
    pub proof_free: MerkleProof<TREE_UPDATE_HEIGHT>,
    pub prev_leaf: Num,
}

/// The public input of a tree append, as numbers.
pub struct TreePubV {
    pub root_before: nat,
    pub root_after: nat,
    pub leaf: nat,
}

/// The secret input of a tree append, as numbers.
pub struct TreeSecV {
    pub proof_filled: ProofV,
    pub proof_free: ProofV,
    pub prev_leaf: nat,
}

impl View for TreePub {
    type V = TreePubV;

    open spec fn view(&self) -> TreePubV {
        TreePubV { root_before: self.root_before@, root_after: self.root_after@, leaf: self.leaf@ }
    }
}

impl View for TreeSec {
    type V = TreeSecV;

    open spec fn view(&self) -> TreeSecV {
        TreeSecV {
            proof_filled: self.proof_filled@,
            proof_free: self.proof_free@,
            prev_leaf: self.prev_leaf@,
        }
    }
}

impl TreeSec {
    /// Both paths have the depth of the tree.
    pub open spec fn wf(&self) -> bool {
        self.proof_filled.wf() && self.proof_free.wf()
    }

    /// Whether both paths have the depth of the tree.
    pub fn is_wf(&self) -> (r: bool)
        ensures
            r == self.wf(),
    {
        self.proof_filled.is_wf() && self.proof_free.is_wf()
    }
}

/// The root of the empty tree of depth `k`: zero for a leaf, and for a
/// deeper tree the hash of two empty trees one level less deep.
pub open spec fn spec_default_hash(params: PoseidonParams, k: nat) -> nat
    decreases k,
{
    if k == 0 {
        0
    } else {
        let below = spec_default_hash(params, (k - 1) as nat);
        params.digest(seq![below, below])
    }
}

/// The root of the empty tree of depth `k`.
pub fn default_hash(k: usize, params: &PoolBN256) -> (r: Num)
    ensures
        r@ == spec_default_hash(params.spec_compress(), k as nat),
{
    let mut c = Num::zero();
    let mut i: usize = 0;
    while i < k
        invariant
            i <= k,
            c@ == spec_default_hash(params.spec_compress(), i as nat),
        decreases k - i,
    {
        c = poseidon_pair(c, c, params.compress());
        i += 1;
    }
    c
}

/// The node `j` of the level `level` of the tree over `leaves`: a leaf, or
/// the root of the empty sub-tree of one transaction where there is none,
/// at the level 0, and above it the hash of the two nodes below.
pub open spec fn tree_node(params: PoseidonParams, leaves: Seq<nat>, level: nat, j: nat) -> nat
    decreases level,
{
    if level == 0 {
        if j < leaves.len() {
            leaves[j as int]
        } else {
            spec_default_hash(params, OUTPLUSONELOG as nat)
        }
    } else {
        params.digest(
            seq![
                tree_node(params, leaves, (level - 1) as nat, 2 * j),
                tree_node(params, leaves, (level - 1) as nat, 2 * j + 1),
            ],
        )
    }
}

/// The root of the tree over `leaves`.
pub open spec fn tree_root(params: PoseidonParams, leaves: Seq<nat>) -> nat {
    tree_node(params, leaves, TREE_UPDATE_HEIGHT as nat, 0)
}

/// The node beside the node `q` under the same parent.
pub open spec fn sibling_index(q: nat) -> nat {
    if q % 2 == 0 {
        q + 1
    } else {
        (q - 1) as nat
    }
}

/// Whether `proof` is the path of the leaf `id` in the tree over `leaves`,
/// up to the level `h`.
pub open spec fn is_path_of(
    params: PoseidonParams,
    leaves: Seq<nat>,
    id: nat,
    proof: ProofV,
    h: nat,
) -> bool {
    &&& proof.sibling.len() == h
    &&& proof.path.len() == h
    &&& forall|k: int|
        0 <= k < h ==> #[trigger] proof.sibling[k] == tree_node(
            params,
            leaves,
            k as nat,
            sibling_index(id / pow2(k as nat)),
        )
    &&& forall|k: int| 0 <= k < h ==> #[trigger] proof.path[k] == bit_of(id, k as nat)
}

/// A node whose leaves all lie beyond the last leaf is the root of an empty
/// tree.
pub proof fn lemma_node_default(params: PoseidonParams, leaves: Seq<nat>, level: nat, j: nat)
    requires
        j * pow2(level) >= leaves.len(),
    ensures
        tree_node(params, leaves, level, j) == spec_default_hash(
            params,
            (OUTPLUSONELOG + level) as nat,
        ),
    decreases level,
{
    lemma2_to64();
    if level > 0 {
        let l = (level - 1) as nat;
        lemma_pow2_adds(l, 1);
        lemma_pow2_pos(l);
        assert((2 * j) * pow2(l) == j * pow2(level)) by (nonlinear_arith)
            requires
                pow2(level) == pow2(l) * 2,
        ;
        assert((2 * j + 1) * pow2(l) >= j * pow2(level)) by (nonlinear_arith)
            requires
                pow2(level) == pow2(l) * 2,
                pow2(l) > 0,
        ;
        lemma_node_default(params, leaves, l, 2 * j);
        lemma_node_default(params, leaves, l, 2 * j + 1);
        let below = spec_default_hash(params, (OUTPLUSONELOG + l) as nat);
        assert((OUTPLUSONELOG + level - 1) as nat == (OUTPLUSONELOG + l) as nat);
        assert(spec_default_hash(params, (OUTPLUSONELOG + level) as nat) == params.digest(
            seq![below, below],
        ));
    } else {
        assert(j * 1 == j) by (nonlinear_arith);
    }
}

/// Appending a leaf changes no node but those above it.
pub proof fn lemma_node_unchanged(
    params: PoseidonParams,
    leaves: Seq<nat>,
    x: nat,
    level: nat,
    j: nat,
)
    requires
        leaves.len() / pow2(level) != j,
    ensures
        tree_node(params, leaves.push(x), level, j) == tree_node(params, leaves, level, j),
    decreases level,
{
    lemma2_to64();
    let n = leaves.len();
    if level == 0 {
        assert(n / 1 == n);
    } else {
        let l = (level - 1) as nat;
        lemma_pow2_adds(l, 1);
        lemma_pow2_pos(l);
        lemma_div_denominator(n as int, pow2(l) as int, 2);
        assert(pow2(l) * 2 == pow2(level));
        lemma_node_unchanged(params, leaves, x, l, 2 * j);
        lemma_node_unchanged(params, leaves, x, l, 2 * j + 1);
    }
}

/// A path of a leaf leads from that leaf, or from whatever stands in its
/// place, to the node above it at the level the path ends at.
pub proof fn lemma_path_root(
    params: PoseidonParams,
    leaves: Seq<nat>,
    id: nat,
    proof: ProofV,
    h: nat,
)
    requires
        is_path_of(params, leaves, id, proof, h),
    ensures
        merkle_proof_root(
            params,
            tree_node(params, leaves, 0, id),
            proof.sibling,
            proof.path,
        ) == tree_node(params, leaves, h, id / pow2(h)),
    decreases h,
{
    lemma2_to64();
    if h == 0 {
        assert(id / 1 == id);
    } else {
        let n = (h - 1) as nat;
        let shorter = ProofV {
            sibling: proof.sibling.take(n as int),
            path: proof.path.take(n as int),
        };
        assert(is_path_of(params, leaves, id, shorter, n)) by {
            assert forall|k: int| 0 <= k < n implies #[trigger] shorter.sibling[k] == tree_node(
                params,
                leaves,
                k as nat,
                sibling_index(id / pow2(k as nat)),
            ) by {
                assert(shorter.sibling[k] == proof.sibling[k]);
            }
            assert forall|k: int| 0 <= k < n implies #[trigger] shorter.path[k] == bit_of(
                id,
                k as nat,
            ) by {
                assert(shorter.path[k] == proof.path[k]);
            }
        }
        lemma_path_root(params, leaves, id, shorter, n);
        let q = id / pow2(n);
        lemma_pow2_adds(n, 1);
        lemma_pow2_pos(n);
        lemma_div_denominator(id as int, pow2(n) as int, 2);
        assert(pow2(n) * 2 == pow2(h));
        assert(id / pow2(h) == q / 2);
        assert(proof.sibling[n as int] == tree_node(params, leaves, n, sibling_index(q)));
        assert(proof.path[n as int] == bit_of(id, n));
    }
}

/// The bits of a path of the leaf `id` stand for `id`.
pub proof fn lemma_path_index(
    params: PoseidonParams,
    leaves: Seq<nat>,
    id: nat,
    proof: ProofV,
    h: nat,
)
    requires
        is_path_of(params, leaves, id, proof, h),
        id < pow2(h),
    ensures
        proof.index() == id,
{
    assert(proof.path =~= bits_of(id, h));
    lemma_bits_of_small(id, h);
}

/// Appending a leaf leaves the path of its slot as it was.
pub proof fn lemma_path_after_append(
    params: PoseidonParams,
    leaves: Seq<nat>,
    x: nat,
    proof: ProofV,
    h: nat,
)
    requires
        is_path_of(params, leaves, leaves.len(), proof, h),
    ensures
        is_path_of(params, leaves.push(x), leaves.len(), proof, h),
{
    let n = leaves.len();
    assert forall|k: int| 0 <= k < h implies #[trigger] proof.sibling[k] == tree_node(
        params,
        leaves.push(x),
        k as nat,
        sibling_index(n / pow2(k as nat)),
    ) by {
        lemma_node_unchanged(params, leaves, x, k as nat, sibling_index(n / pow2(k as nat)));
    }
}

} // verus!
