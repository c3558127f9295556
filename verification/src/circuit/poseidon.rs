use crate::circuit::bool::{bools_view, CBool};
use crate::circuit::num::{cnums_view, CNum};
use crate::native::num::Num;
use crate::native::poseidon::{
    merkle_tree_root, nums_view, poseidon, poseidon_merkle_proof_root, poseidon_merkle_tree_root,
    poseidon_sponge, MerkleProof, PoseidonParams, ProofV,
};
use vstd::arithmetic::power2::is_pow2;
use vstd::prelude::*;

verus! {

/// The signals of an authentication path of a tree of depth `H`.
#[derive(Clone, Debug)]
pub struct CMerkleProof<const H: usize> {
    pub sibling: Vec<CNum>,
    pub path: Vec<CBool>,
}

impl<const H: usize> View for CMerkleProof<H> {
    type V = ProofV;

    open spec fn view(&self) -> ProofV {
        ProofV { sibling: cnums_view(self.sibling@), path: bools_view(self.path@) }
    }
}

impl<const H: usize> CMerkleProof<H> {
    /// The path has one sibling and one bit for each level.
    pub open spec fn wf(&self) -> bool {
        self.sibling@.len() == H && self.path@.len() == H
    }

    /// The signals of a path given by the witness.
    pub fn allocate(value: &MerkleProof<H>) -> (r: Self)
        requires
            value.wf(),
        ensures
            r.wf(),
            r@ == value@,
    {
        let mut sibling: Vec<CNum> = Vec::new();
        let mut path: Vec<CBool> = Vec::new();
        let mut i: usize = 0;
        while i < H
            invariant
                i <= H,
                value.wf(),
                sibling@.len() == i,
                path@.len() == i,
                forall|k: int| 0 <= k < i ==> (#[trigger] sibling@[k])@ == value.sibling@[k]@,
                forall|k: int| 0 <= k < i ==> (#[trigger] path@[k])@ == value.path@[k],
            decreases H - i,
        {
            sibling.push(CNum::allocate(value.sibling[i]));
            path.push(CBool::allocate(value.path[i]));
            i += 1;
        }
        proof {
            assert(cnums_view(sibling@) =~= nums_view(value.sibling@));
            assert(bools_view(path@) =~= value.path@);
        }
        CMerkleProof { sibling, path }
    }
}

/// The field elements that a sequence of signals carries.
pub fn values_of(inputs: &[CNum]) -> (r: Vec<Num>)
    ensures
        nums_view(r@) == cnums_view(inputs@),
        r@.len() == inputs@.len(),
{
    let mut values: Vec<Num> = Vec::new();
    let mut i: usize = 0;
    while i < inputs.len()
        invariant
            i <= inputs@.len(),
            values@.len() == i,
            forall|k: int| 0 <= k < i ==> (#[trigger] values@[k])@ == inputs@[k]@,
        decreases inputs@.len() - i,
    {
        values.push(inputs[i].get_value());
        i += 1;
    }
    proof {
        assert(nums_view(values@) =~= cnums_view(inputs@));
    }
    values
}

/// Poseidon hash of between one and `t - 1` signals.
pub fn c_poseidon(inputs: &[CNum], params: &PoseidonParams) -> (r: CNum)
    requires
        0 < inputs@.len() < params.t(),
    ensures
        r@ == params.digest(cnums_view(inputs@)),
{
    let values = values_of(inputs);
    CNum::allocate(poseidon(values.as_slice(), params))
}

/// Poseidon sponge over any number of signals.
pub fn c_poseidon_sponge(inputs: &[CNum], params: &PoseidonParams) -> (r: CNum)
    ensures
        r@ == params.sponge_digest(cnums_view(inputs@)),
{
    let values = values_of(inputs);
    CNum::allocate(poseidon_sponge(values.as_slice(), params))
}

/// Root reconstruction from a leaf, its siblings and its path.
pub fn c_poseidon_merkle_proof_root<const H: usize>(
    leaf: &CNum,
    proof: &CMerkleProof<H>,
    params: &PoseidonParams,
) -> (r: CNum)
    requires
        proof.wf(),
        params.t() >= 3,
    ensures
        r@ == proof@.root(*params, leaf@),
{
    let sibling = values_of(proof.sibling.as_slice());
    let mut path: Vec<bool> = Vec::new();
    let mut i: usize = 0;
    while i < H
        invariant
            i <= H,
            proof.wf(),
            path@.len() == i,
            forall|k: int| 0 <= k < i ==> #[trigger] path@[k] == proof.path@[k]@,
        decreases H - i,
    {
        path.push(proof.path[i].get_value());
        i += 1;
    }
    proof {
        assert(path@ =~= bools_view(proof.path@));
    }
    let native = MerkleProof::<H> { sibling, path };
    CNum::allocate(poseidon_merkle_proof_root(leaf.get_value(), &native, params))
}

/// Root of the full binary tree over `leaf`, a power of two in number.
pub fn c_poseidon_merkle_tree_root(leaf: &[CNum], params: &PoseidonParams) -> (r: CNum)
    requires
        is_pow2(leaf@.len() as int),
        params.t() >= 3,
    ensures
        r@ == merkle_tree_root(*params, cnums_view(leaf@)),
{
    let values = values_of(leaf);
    CNum::allocate(poseidon_merkle_tree_root(values.as_slice(), params))
}

} // verus!
