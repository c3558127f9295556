use crate::circuit::bitify::c_from_bits_le;
use crate::circuit::cs::CS;
use crate::circuit::num::CNum;
use crate::circuit::poseidon::{c_poseidon_merkle_proof_root, CMerkleProof};
use crate::constants::{OUTPLUSONELOG, TREE_UPDATE_HEIGHT};
use crate::native::boundednum::lemma_width_below_modulus;
use crate::native::num::{
    lemma_field_add_int, lemma_field_of_small, lemma_field_sub_int, lemma_field_zero, modulus, Num,
};
use crate::native::params::PoolBN256;
use crate::native::poseidon::ProofV;
use crate::native::tree::{
    default_hash, is_path_of, lemma_path_after_append, lemma_path_index, lemma_path_root,
    spec_default_hash, tree_root, TreePub, TreePubV, TreeSec, TreeSecV,
};
use vstd::arithmetic::div_mod::lemma_basic_div;
use crate::native::uint::lemma_bits_value_bound;
use vstd::arithmetic::div_mod::lemma_small_mod;
use vstd::arithmetic::power2::pow2;
use vstd::prelude::*;

verus! {

/// The signals of the public input of a tree append.
#[derive(Clone, Copy, Debug)]
pub struct CTreePub {
    pub root_before: CNum,
    pub root_after: CNum,
    pub leaf: CNum,
}

/// The signals of the secret input of a tree append.
#[derive(Clone, Debug)]
pub struct CTreeSec {
    pub proof_filled: CMerkleProof<TREE_UPDATE_HEIGHT>,
    pub proof_free: CMerkleProof<TREE_UPDATE_HEIGHT>,
    pub prev_leaf: CNum,
}

impl View for CTreePub {
    type V = TreePubV;

    open spec fn view(&self) -> TreePubV {
        TreePubV { root_before: self.root_before@, root_after: self.root_after@, leaf: self.leaf@ }
    }
}

impl View for CTreeSec {
    type V = TreeSecV;

    open spec fn view(&self) -> TreeSecV {
        TreeSecV {
            proof_filled: self.proof_filled@,
            proof_free: self.proof_free@,
            prev_leaf: self.prev_leaf@,
        }
    }
}

impl CTreePub {
    /// The signals of a public input given by the witness.
    pub fn allocate(value: &TreePub) -> (r: Self)
        ensures
            r@ == value@,
    {
        CTreePub {
            root_before: CNum::allocate(value.root_before),
            root_after: CNum::allocate(value.root_after),
            leaf: CNum::allocate(value.leaf),
        }
    }
}

impl CTreeSec {
    /// Both paths have the depth of the tree.
    pub open spec fn wf(&self) -> bool {
        self.proof_filled.wf() && self.proof_free.wf()
    }

    /// The signals of a secret input given by the witness.
    pub fn allocate(value: &TreeSec) -> (r: Self)
        requires
            value.wf(),
        ensures
            r@ == value@,
            r.wf(),
    {
        CTreeSec {
            proof_filled: CMerkleProof::allocate(&value.proof_filled),
            proof_free: CMerkleProof::allocate(&value.proof_free),
            prev_leaf: CNum::allocate(value.prev_leaf),
        }
    }
}

/// The leaf of a free slot: the root of the empty sub-tree that one
/// transaction writes.
pub open spec fn zero_leaf(params: &PoolBN256) -> nat {
    spec_default_hash(params.spec_compress(), OUTPLUSONELOG as nat)
}

/// The last filled leaf is in the tree, just before the free slot, and is
/// not zero.
pub open spec fn appended_after(params: &PoolBN256, p: TreePubV, s: TreeSecV) -> bool {
    &&& s.proof_filled.root(params.spec_compress(), s.prev_leaf) == p.root_before
    &&& s.proof_filled.index() + 1 == s.proof_free.index()
    &&& s.prev_leaf != 0
}

/// What a tree append proves: the slot was free before, holds the leaf
/// after, and is the first free slot: the first of the tree, or the one
/// after the last filled leaf.
pub open spec fn tree_update_relation(params: &PoolBN256, p: TreePubV, s: TreeSecV) -> bool {
    &&& s.proof_free.root(params.spec_compress(), zero_leaf(params)) == p.root_before
    &&& s.proof_free.root(params.spec_compress(), p.leaf) == p.root_after
    &&& (appended_after(params, p, s) || s.proof_free.index() == 0)
}

/// The constraints of a tree append.
pub fn tree_update(cs: &mut CS, p: &CTreePub, s: &CTreeSec, params: &PoolBN256)
    requires
        s.wf(),
    ensures
        final(cs).satisfied() == (old(cs).satisfied() && tree_update_relation(params, p@, s@)),
{
    proof {
        lemma_bits_value_bound(s@.proof_filled.path);
        lemma_bits_value_bound(s@.proof_free.path);
        lemma_width_below_modulus(TREE_UPDATE_HEIGHT as nat);
        lemma_small_mod(s@.proof_filled.index(), modulus());
        lemma_small_mod(s@.proof_free.index(), modulus());
    }
    let index_filled = c_from_bits_le(s.proof_filled.path.as_slice());
    let index_free = c_from_bits_le(s.proof_free.path.as_slice());

    let zero_leaf_value = default_hash(OUTPLUSONELOG, params);
    let zero_leaf = CNum::from_const(zero_leaf_value);

    c_poseidon_merkle_proof_root(&zero_leaf, &s.proof_free, params.compress()).sub(
        &p.root_before,
    ).assert_zero(cs);
    c_poseidon_merkle_proof_root(&p.leaf, &s.proof_free, params.compress()).sub(
        &p.root_after,
    ).assert_zero(cs);

    let index_free_zero = index_free.is_zero();

    let prev_proof_expr = c_poseidon_merkle_proof_root(
        &s.prev_leaf,
        &s.proof_filled,
        params.compress(),
    ).sub(&p.root_before).is_zero();
    proof {
        let a = s@.proof_filled.index();
        let b = s@.proof_free.index();
        lemma_field_of_small(a);
        lemma_field_of_small(b);
        lemma_small_mod(1, modulus());
        lemma_field_add_int(a as int, 1);
        lemma_field_sub_int((a + 1) as int, b as int);
        lemma_field_zero(a + 1 - b);
    }
    let prev_index_expr = index_filled.add_const(&Num::one()).sub(&index_free).is_zero();
    let prev_leaf_expr = s.prev_leaf.is_zero().not();

    //for non-empty tree previous proof should be valid for nonzero leaf
    prev_proof_expr.and(&prev_index_expr).and(&prev_leaf_expr).or(&index_free_zero).assert_const(
        cs,
        true,
    );
}

/// Where the free slot is not the first of the tree, a path for the last
/// filled leaf that does not lead to the slot just before it leaves the
/// constraints unsatisfied.
pub proof fn lemma_non_adjacent_unsatisfiable(params: &PoolBN256, p: TreePubV, s: TreeSecV)
    requires
        s.proof_free.index() != 0,
        s.proof_filled.index() + 1 != s.proof_free.index(),
    ensures
        !tree_update_relation(params, p, s),
{
}

/// A path for the free slot that leads, from the leaf of a free slot, to
/// another root than the one before, or, from the new leaf, to another root
/// than the one after, leaves the constraints unsatisfied.
pub proof fn lemma_free_path_off_the_roots(params: &PoolBN256, p: TreePubV, s: TreeSecV)
    requires
        s.proof_free.root(params.spec_compress(), zero_leaf(params)) != p.root_before
            || s.proof_free.root(params.spec_compress(), p.leaf) != p.root_after,
    ensures
        !tree_update_relation(params, p, s),
{
}

/// Where the free slot is not the first of the tree, a last filled leaf that
/// is zero, or whose path leads to another root than the one before, leaves
/// the constraints unsatisfied.
pub proof fn lemma_filled_path_off_the_root(params: &PoolBN256, p: TreePubV, s: TreeSecV)
    requires
        s.proof_free.index() != 0,
        s.prev_leaf == 0 || s.proof_filled.root(params.spec_compress(), s.prev_leaf)
            != p.root_before,
    ensures
        !tree_update_relation(params, p, s),
{
}

/// Where the free slot is the first of the tree, a witness is accepted on
/// its path alone, whatever it gives for the last filled leaf.
pub proof fn lemma_first_slot_accepted(params: &PoolBN256, p: TreePubV, s: TreeSecV)
    requires
        s.proof_free.index() == 0,
        s.proof_free.root(params.spec_compress(), zero_leaf(params)) == p.root_before,
        s.proof_free.root(params.spec_compress(), p.leaf) == p.root_after,
    ensures
        tree_update_relation(params, p, s),
{
}

/// Appending a leaf to a tree of `N` leaves satisfies the constraints of a
/// tree append, with the root of the tree before and after, the path of the
/// slot `N` before the append, and for a tree that is not empty the path of
/// its last leaf, which is not zero.
pub proof fn lemma_append_satisfies(
    params: &PoolBN256,
    leaves: Seq<nat>,
    leaf: nat,
    proof_free: ProofV,
    proof_filled: ProofV,
)
    requires
        leaves.len() < pow2(TREE_UPDATE_HEIGHT as nat),
        is_path_of(
            params.spec_compress(),
            leaves,
            leaves.len(),
            proof_free,
            TREE_UPDATE_HEIGHT as nat,
        ),
        leaves.len() > 0 ==> leaves.last() != 0 && is_path_of(
            params.spec_compress(),
            leaves,
            (leaves.len() - 1) as nat,
            proof_filled,
            TREE_UPDATE_HEIGHT as nat,
        ),
    ensures
        tree_update_relation(
            params,
            TreePubV {
                root_before: tree_root(params.spec_compress(), leaves),
                root_after: tree_root(params.spec_compress(), leaves.push(leaf)),
                leaf,
            },
            TreeSecV {
                proof_filled,
                proof_free,
                prev_leaf: if leaves.len() > 0 {
                    leaves.last()
                } else {
                    0
                },
            },
        ),
{
    let c = params.spec_compress();
    let h = TREE_UPDATE_HEIGHT as nat;
    let n = leaves.len();
    vstd::arithmetic::power2::lemma_pow2_pos(h);
    lemma_basic_div(n as int, pow2(h) as int);
    lemma_path_root(c, leaves, n, proof_free, h);
    lemma_path_index(c, leaves, n, proof_free, h);
    lemma_path_after_append(c, leaves, leaf, proof_free, h);
    lemma_path_root(c, leaves.push(leaf), n, proof_free, h);
    if n > 0 {
        lemma_basic_div(n - 1, pow2(h) as int);
        lemma_path_root(c, leaves, (n - 1) as nat, proof_filled, h);
        lemma_path_index(c, leaves, (n - 1) as nat, proof_filled, h);
    }
}

/// Whether a witness of the right shape satisfies the constraints of a tree
/// append.
pub fn tree_update_satisfied(p: &TreePub, s: &TreeSec, params: &PoolBN256) -> (r: bool)
    requires
        s.wf(),
    ensures
        r == tree_update_relation(params, p@, s@),
{
    let mut cs = CS::new();
    let cp = CTreePub::allocate(p);
    let csec = CTreeSec::allocate(s);
    tree_update(&mut cs, &cp, &csec, params);
    cs.is_satisfied()
}

} // verus!
