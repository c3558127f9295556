use crate::native::num::Num;
use crate::native::uint::bits_value;
use fawkes_crypto::engines::bn256::Fr as RawFr;
use fawkes_crypto::engines::U256 as RawU256;
use fawkes_crypto::ff_uint::Num as RawNum;
use fawkes_crypto::ff_uint::NumRepr;
use fawkes_crypto::native::poseidon::PoseidonParams as RawPoseidonParams;
use vstd::arithmetic::power2::is_pow2;
use vstd::prelude::*;

verus! {

/// The digest of the Poseidon permutation with round constants `c`, mixing
/// matrix `m`, width `t`, `f` full and `p` partial rounds, on at most `t - 1`
/// field elements.
pub uninterp spec fn poseidon_digest(
    c: Seq<Seq<nat>>,
    m: Seq<Seq<nat>>,
    t: nat,
    f: nat,
    p: nat,
    inputs: Seq<nat>,
) -> nat;

/// The digest of the Poseidon sponge over the same permutation, on any number
/// of field elements.
pub uninterp spec fn poseidon_sponge_digest(
    c: Seq<Seq<nat>>,
    m: Seq<Seq<nat>>,
    t: nat,
    f: nat,
    p: nat,
    inputs: Seq<nat>,
) -> nat;

/// The values of a sequence of field elements.
pub open spec fn nums_view(s: Seq<Num>) -> Seq<nat> {
    s.map_values(|n: Num| n@)
}

/// The values of a table of field elements.
pub open spec fn table_view(s: Seq<Vec<Num>>) -> Seq<Seq<nat>> {
    s.map_values(|row: Vec<Num>| nums_view(row@))
}

/// The shapes of permutation that the pool uses: width, full rounds, partial
/// rounds.
pub open spec fn is_pool_shape(t: nat, f: nat, p: nat) -> bool {
    f == 8 && ((t == 2 && p == 53) || (t == 3 && p == 53) || (t == 4 && p == 54) || (t == 5 && p
        == 54) || (t == 6 && p == 54))
}

/// Whether a table of constants is large enough for its shape: one row of
/// round constants for each round, and a mixing matrix of `t` rows of `t`.
pub open spec fn params_fit(c: Seq<Vec<Num>>, m: Seq<Vec<Num>>, t: nat, f: nat, p: nat) -> bool {
    &&& t >= 2
    &&& f + p <= c.len()
    &&& t <= m.len()
    &&& forall|i: int| 0 <= i < t ==> t <= (#[trigger] m[i]).len()
}

/// One set of Poseidon constants: round constants, mixing matrix and shape.
pub struct PoseidonParams {
    pub(crate) c: Vec<Vec<Num>>,
    pub(crate) m: Vec<Vec<Num>>,
    pub(crate) t: usize,
    pub(crate) f: usize,
    pub(crate) p: usize,
}

impl PoseidonParams {
    #[verifier::type_invariant]
    pub open(crate) spec fn inv(self) -> bool {
        params_fit(self.c@, self.m@, self.t as nat, self.f as nat, self.p as nat)
    }

    /// Width of the permutation.
    pub open(crate) spec fn t(&self) -> nat {
        self.t as nat
    }

    /// Number of full rounds.
    pub open(crate) spec fn f(&self) -> nat {
        self.f as nat
    }

    /// Number of partial rounds.
    pub open(crate) spec fn p(&self) -> nat {
        self.p as nat
    }

    /// The round constants, one row for each round.
    pub open(crate) spec fn c(&self) -> Seq<Vec<Num>> {
        self.c@
    }

    /// The mixing matrix.
    pub open(crate) spec fn m(&self) -> Seq<Vec<Num>> {
        self.m@
    }

    /// What hashing `inputs` with these constants gives.
    pub open spec fn digest(&self, inputs: Seq<nat>) -> nat {
        poseidon_digest(
            table_view(self.c()),
            table_view(self.m()),
            self.t(),
            self.f(),
            self.p(),
            inputs,
        )
    }

    /// What absorbing `inputs` into the sponge with these constants gives.
    pub open spec fn sponge_digest(&self, inputs: Seq<nat>) -> nat {
        poseidon_sponge_digest(
            table_view(self.c()),
            table_view(self.m()),
            self.t(),
            self.f(),
            self.p(),
            inputs,
        )
    }

    /// The constants of one of the pool's shapes.
    ///
    /// Calls `PoseidonParams::new` of `fawkes_crypto`, which derives `f + p`
    /// rows of `t` round constants and a `t` by `t` matrix from the shape.
    #[verifier::external_body]
    pub(crate) fn new(t: usize, f: usize, p: usize) -> (r: PoseidonParams)
        requires
            is_pool_shape(t as nat, f as nat, p as nat),
        ensures
            r.t() == t,
            r.f() == f,
            r.p() == p,
            r.c().len() == f + p,
            r.m().len() == t,
    {
        let raw = RawPoseidonParams::<RawFr>::new(t, f, p);
        let cv = |n: &RawNum<RawFr>| Num::of(n.to_uint().0.0);
        let tb = |v: &Vec<Vec<RawNum<RawFr>>>| v.iter().map(|r| r.iter().map(cv).collect()).collect();
        PoseidonParams { c: tb(&raw.c), m: tb(&raw.m), t, f, p }
    }

    /// A set of constants given by its parts, if the tables are large enough
    /// for the shape.
    pub fn from_parts(c: Vec<Vec<Num>>, m: Vec<Vec<Num>>, t: usize, f: usize, p: usize) -> (r:
        Option<PoseidonParams>)
        ensures
            r.is_some() == params_fit(c@, m@, t as nat, f as nat, p as nat),
            r.is_some() ==> {
                let q = r.unwrap();
                q.c() == c@ && q.m() == m@ && q.t() == t && q.f() == f && q.p() == p
            },
    {
        if t < 2 || m.len() < t || c.len() < f || c.len() - f < p {
            return None;
        }
        let mut i: usize = 0;
        while i < t
            invariant
                i <= t <= m.len(),
                forall|k: int| 0 <= k < i ==> t <= (#[trigger] m[k]).len(),
            decreases t - i,
        {
            if m[i].len() < t {
                return None;
            }
            i += 1;
        }
        Some(PoseidonParams { c, m, t, f, p })
    }

    /// The round constants, one row for each round.
    pub fn round_constants(&self) -> (r: &Vec<Vec<Num>>)
        ensures
            r@ == self.c(),
    {
        &self.c
    }

    /// The mixing matrix.
    pub fn mixing_matrix(&self) -> (r: &Vec<Vec<Num>>)
        ensures
            r@ == self.m(),
    {
        &self.m
    }

    /// Number of full rounds.
    pub fn full_rounds(&self) -> (r: usize)
        ensures
            r == self.f(),
    {
        self.f
    }

    /// Number of partial rounds.
    pub fn partial_rounds(&self) -> (r: usize)
        ensures
            r == self.p(),
    {
        self.p
    }

    /// Width of the permutation.
    pub fn width(&self) -> (r: usize)
        ensures
            r == self.t(),
            r >= 2,
    {
        proof {
            use_type_invariant(self);
        }
        self.t
    }

    /// Poseidon hash of between one and `t - 1` field elements.
    ///
    /// Calls `poseidon` of `fawkes_crypto`, which panics on no input, on `t`
    /// inputs or more, and on tables too small for the shape.
    #[verifier::external_body]
    fn hash_raw(&self, inputs: &[Num]) -> (r: Num)
        requires
            0 < inputs@.len() < self.t(),
            params_fit(self.c(), self.m(), self.t(), self.f(), self.p()),
        ensures
            r@ == poseidon_digest(
                table_view(self.c()),
                table_view(self.m()),
                self.t(),
                self.f(),
                self.p(),
                nums_view(inputs@),
            ),
    {
        let cv = |n: &Num| RawNum::<RawFr>::from_uint_unchecked(NumRepr(RawU256::new(n.limbs())));
        let tb = |v: &Vec<Vec<Num>>| v.iter().map(|r| r.iter().map(cv).collect()).collect();
        let raw = RawPoseidonParams { c: tb(&self.c), m: tb(&self.m), t: self.t, f: self.f, p: self.p };
        let x: Vec<_> = inputs.iter().map(cv).collect();
        Num::of(fawkes_crypto::native::poseidon::poseidon(&x, &raw).to_uint().0.0)
    }

    /// Poseidon sponge over any number of field elements.
    ///
    /// Calls `poseidon_sponge` of `fawkes_crypto`, which panics on a width
    /// below two and on tables too small for the shape.
    #[verifier::external_body]
    fn sponge_raw(&self, inputs: &[Num]) -> (r: Num)
        requires
            params_fit(self.c(), self.m(), self.t(), self.f(), self.p()),
        ensures
            r@ == poseidon_sponge_digest(
                table_view(self.c()),
                table_view(self.m()),
                self.t(),
                self.f(),
                self.p(),
                nums_view(inputs@),
            ),
    {
        let cv = |n: &Num| RawNum::<RawFr>::from_uint_unchecked(NumRepr(RawU256::new(n.limbs())));
        let tb = |v: &Vec<Vec<Num>>| v.iter().map(|r| r.iter().map(cv).collect()).collect();
        let raw = RawPoseidonParams { c: tb(&self.c), m: tb(&self.m), t: self.t, f: self.f, p: self.p };
        let x: Vec<_> = inputs.iter().map(cv).collect();
        Num::of(fawkes_crypto::native::poseidon::poseidon_sponge(&x, &raw).to_uint().0.0)
    }
}

/// Poseidon hash of between one and `t - 1` field elements.
pub fn poseidon(inputs: &[Num], params: &PoseidonParams) -> (r: Num)
    requires
        0 < inputs@.len() < params.t(),
    ensures
        r@ == params.digest(nums_view(inputs@)),
{
    proof {
        use_type_invariant(params);
    }
    params.hash_raw(inputs)
}

/// Poseidon sponge over any number of field elements.
pub fn poseidon_sponge(inputs: &[Num], params: &PoseidonParams) -> (r: Num)
    ensures
        r@ == params.sponge_digest(nums_view(inputs@)),
{
    proof {
        use_type_invariant(params);
    }
    params.sponge_raw(inputs)
}

/// The view of a sequence of two field elements.
pub proof fn lemma_nums_view_2(a: Num, b: Num)
    ensures
        nums_view(seq![a, b]) == seq![a@, b@],
{
    assert(nums_view(seq![a, b]) =~= seq![a@, b@]);
}

/// Poseidon hash of two field elements, as it joins two nodes of a tree.
pub fn poseidon_pair(left: Num, right: Num, params: &PoseidonParams) -> (r: Num)
    requires
        params.t() >= 3,
    ensures
        r@ == params.digest(seq![left@, right@]),
{
    let inputs = vec![left, right];
    proof {
        lemma_nums_view_2(left, right);
        assert(inputs@ =~= seq![left, right]);
    }
    poseidon(inputs.as_slice(), params)
}

/// An authentication path of a tree of depth `H`: the sibling at each level
/// from the leaf up, and the bits of the leaf's index, lowest first.
#[derive(Clone, Debug)]
pub struct MerkleProof<const H: usize> {
    pub sibling: Vec<Num>,
    pub path: Vec<bool>,
}

/// An authentication path, as numbers and bits.
pub struct ProofV {
    pub sibling: Seq<nat>,
    pub path: Seq<bool>,
}

impl ProofV {
    /// The index of the leaf: the number whose bits are the path.
    pub open spec fn index(self) -> nat {
        bits_value(self.path)
    }

    /// The root that the path leads to from `leaf`.
    pub open spec fn root(self, params: PoseidonParams, leaf: nat) -> nat {
        merkle_proof_root(params, leaf, self.sibling, self.path)
    }
}

impl<const H: usize> View for MerkleProof<H> {
    type V = ProofV;

    open spec fn view(&self) -> ProofV {
        ProofV { sibling: nums_view(self.sibling@), path: self.path@ }
    }
}

impl<const H: usize> MerkleProof<H> {
    /// The path has one sibling and one bit for each level.
    pub open spec fn wf(&self) -> bool {
        self.sibling@.len() == H && self.path@.len() == H
    }

    /// Whether the path has one sibling and one bit for each level.
    pub fn is_wf(&self) -> (r: bool)
        ensures
            r == self.wf(),
    {
        self.sibling.len() == H && self.path.len() == H
    }
}

/// The root that a leaf and an authentication path lead to.
pub open spec fn merkle_proof_root(
    params: PoseidonParams,
    leaf: nat,
    sibling: Seq<nat>,
    path: Seq<bool>,
) -> nat
    decreases sibling.len(),
{
    if sibling.len() == 0 {
        leaf
    } else {
        let n = sibling.len() - 1;
        let below = merkle_proof_root(params, leaf, sibling.take(n), path.take(n));
        if path[n] {
            params.digest(seq![sibling[n], below])
        } else {
            params.digest(seq![below, sibling[n]])
        }
    }
}

/// The nodes one level above `nodes`: each the hash of two neighbours.
pub open spec fn merkle_level(params: PoseidonParams, nodes: Seq<nat>) -> Seq<nat> {
    Seq::new(nodes.len() / 2, |i: int| params.digest(seq![nodes[2 * i], nodes[2 * i + 1]]))
}

/// The root of the full binary tree over `leaves`, a power of two in number.
pub open spec fn merkle_tree_root(params: PoseidonParams, leaves: Seq<nat>) -> nat
    decreases leaves.len(),
{
    if leaves.len() <= 1 {
        leaves[0]
    } else {
        merkle_tree_root(params, merkle_level(params, leaves))
    }
}

/// Root reconstruction from a leaf, its siblings and its path.
pub fn poseidon_merkle_proof_root<const H: usize>(
    leaf: Num,
    proof: &MerkleProof<H>,
    params: &PoseidonParams,
) -> (r: Num)
    requires
        proof.wf(),
        params.t() >= 3,
    ensures
        r@ == merkle_proof_root(*params, leaf@, nums_view(proof.sibling@), proof.path@),
{
    let mut root = leaf;
    let mut i: usize = 0;
    let ghost sib = nums_view(proof.sibling@);
    while i < H
        invariant
            i <= H,
            proof.wf(),
            params.t() >= 3,
            sib == nums_view(proof.sibling@),
            root@ == merkle_proof_root(*params, leaf@, sib.take(i as int), proof.path@.take(i as int)),
        decreases H - i,
    {
        let s = proof.sibling[i];
        let p = proof.path[i];
        proof {
            let j = i + 1;
            assert(sib.take(j).take(i as int) =~= sib.take(i as int));
            assert(proof.path@.take(j).take(i as int) =~= proof.path@.take(i as int));
            assert(sib.take(j)[i as int] == s@);
        }
        root = if p {
            poseidon_pair(s, root, params)
        } else {
            poseidon_pair(root, s, params)
        };
        i += 1;
    }
    proof {
        assert(sib.take(H as int) =~= sib);
        assert(proof.path@.take(H as int) =~= proof.path@);
    }
    root
}

/// Root of the full binary tree over `leaf`, a power of two in number.
pub fn poseidon_merkle_tree_root(leaf: &[Num], params: &PoseidonParams) -> (r: Num)
    requires
        is_pow2(leaf@.len() as int),
        params.t() >= 3,
    ensures
        r@ == merkle_tree_root(*params, nums_view(leaf@)),
{
    proof {
        reveal_with_fuel(is_pow2, 2);
    }
    let mut state: Vec<Num> = Vec::new();
    let mut k: usize = 0;
    while k < leaf.len()
        invariant
            k <= leaf@.len(),
            state@ == leaf@.take(k as int),
        decreases leaf@.len() - k,
    {
        state.push(leaf[k]);
        proof {
            assert(state@ =~= leaf@.take(k + 1));
        }
        k += 1;
    }
    proof {
        assert(state@ =~= leaf@);
    }
    while state.len() > 1
        invariant
            is_pow2(state@.len() as int),
            params.t() >= 3,
            merkle_tree_root(*params, nums_view(state@)) == merkle_tree_root(
                *params,
                nums_view(leaf@),
            ),
        decreases state@.len(),
    {
        proof {
            reveal_with_fuel(is_pow2, 2);
        }
        let half = state.len() / 2;
        let mut next: Vec<Num> = Vec::new();
        let mut i: usize = 0;
        while i < half
            invariant
                i <= half,
                half == state@.len() / 2,
                state@.len() % 2 == 0,
                state@.len() <= usize::MAX,
                params.t() >= 3,
                next@.len() == i,
                forall|j: int|
                    0 <= j < i ==> (#[trigger] next@[j])@ == params.digest(
                        seq![state@[2 * j]@, state@[2 * j + 1]@],
                    ),
            decreases half - i,
        {
            let h = poseidon_pair(state[2 * i], state[2 * i + 1], params);
            next.push(h);
            i += 1;
        }
        proof {
            assert(nums_view(next@) =~= merkle_level(*params, nums_view(state@)));
        }
        state = next;
    }
    state[0]
}

} // verus!
