use crate::circuit::delegated_deposit::delegated_deposit_relation;
use crate::constants::{OUT, OUTPLUSONELOG, TREE_UPDATE_HEIGHT};
use crate::native::poseidon::{poseidon_pair, MerkleProof};
use crate::native::tree::{
    default_hash, is_path_of, lemma_node_default, lemma_node_unchanged, sibling_index,
    spec_default_hash, tree_node, tree_root,
};
use crate::native::uint::bit_of;
use vstd::arithmetic::div_mod::{
    lemma_div_denominator, lemma_div_is_ordered, lemma_div_multiples_vanish,
    lemma_fundamental_div_mod,
};
use vstd::arithmetic::power2::{lemma2_to64, lemma_pow2_adds, lemma_pow2_pos, pow2};
use crate::native::bytes::be_bytes;
use crate::native::delegated_deposit::{
    batch_bytes, delegated_deposit_out_commitment, deposits_bytes_be, deposits_view,
    scalars_bytes_be, write_be, DelegatedDeposit, DelegatedDepositBatchPub,
    DelegatedDepositBatchSec, DepositV,
};
use crate::native::keccak::{keccak256, num_from_bytes_be_reduced};
use crate::native::num::Num;
use crate::native::params::PoolBN256;
use crate::native::poseidon::nums_view;
use vstd::prelude::*;

verus! {

/// The bytes that a batch of delegated deposits is digested from: the
/// scalars, then the deposits, each field highest byte first.
pub fn serialize_scalars_and_delegated_deposits_be(
    scalars: &[Num],
    deposits: &[DelegatedDeposit],
) -> (r: Vec<u8>)
    ensures
        r@ == scalars_bytes_be(nums_view(scalars@)) + deposits_bytes_be(
            deposits_view(deposits@),
        ),
{
    let ghost sv = nums_view(scalars@);
    let ghost dv = deposits_view(deposits@);
    let mut data: Vec<u8> = Vec::new();
    let mut i: usize = 0;
    proof {
        assert(sv.take(0) =~= Seq::<nat>::empty());
        assert(data@ =~= scalars_bytes_be(sv.take(0)));
    }
    while i < scalars.len()
        invariant
            i <= scalars@.len(),
            sv == nums_view(scalars@),
            data@ == scalars_bytes_be(sv.take(i as int)),
        decreases scalars@.len() - i,
    {
        write_be(&mut data, &scalars[i].to_uint(), 32);
        proof {
            assert(sv.take(i + 1).drop_last() =~= sv.take(i as int));
            assert(sv.take(i + 1).last() == scalars@[i as int]@);
        }
        i += 1;
    }
    proof {
        assert(sv.take(scalars@.len() as int) =~= sv);
        assert(dv.take(0) =~= Seq::<DepositV>::empty());
        assert(data@ =~= scalars_bytes_be(sv) + deposits_bytes_be(dv.take(0)));
    }
    let mut k: usize = 0;
    while k < deposits.len()
        invariant
            k <= deposits@.len(),
            dv == deposits_view(deposits@),
            data@ == scalars_bytes_be(sv) + deposits_bytes_be(dv.take(k as int)),
        decreases deposits@.len() - k,
    {
        let ghost before = data@;
        let d = &deposits[k];
        write_be(&mut data, &d.d.as_num().to_uint(), 10);
        write_be(&mut data, &d.p_d.to_uint(), 32);
        write_be(&mut data, &d.b.as_num().to_uint(), 8);
        proof {
            assert(dv.take(k + 1).drop_last() =~= dv.take(k as int));
            assert(dv.take(k + 1).last() == dv[k as int]);
            assert(data@ =~= before + dv[k as int].bytes_be());
            assert(data@ =~= scalars_bytes_be(sv) + deposits_bytes_be(dv.take(k + 1)));
        }
        k += 1;
    }
    proof {
        assert(dv.take(deposits@.len() as int) =~= dv);
    }
    data
}

/// The public and the secret input of a batch of at most `OUT` deposits:
/// the commitment of its outputs, and the digest that a contract publishes
/// for it. The two stand in the relation of the batch.
pub fn sample_delegated_deposit(deposits: Vec<DelegatedDeposit>, params: &PoolBN256) -> (r: (
    DelegatedDepositBatchPub,
    DelegatedDepositBatchSec,
))
    requires
        deposits@.len() <= OUT,
    ensures
        r.1.deposits@ == deposits@,
        delegated_deposit_relation(
            params,
            r.0.keccak_sum@,
            r.1.out_commitment_hash@,
            deposits_view(deposits@),
        ),
{
    let out_commitment_hash = delegated_deposit_out_commitment(deposits.as_slice(), params);
    let scalars = vec![out_commitment_hash];
    let data = serialize_scalars_and_delegated_deposits_be(
        scalars.as_slice(),
        deposits.as_slice(),
    );
    proof {
        let sv = nums_view(scalars@);
        assert(sv =~= seq![out_commitment_hash@]);
        assert(sv.drop_last() =~= Seq::<nat>::empty());
        assert(scalars_bytes_be(sv.drop_last()) =~= Seq::<u8>::empty());
        assert(sv.last() == out_commitment_hash@);
        assert(scalars_bytes_be(sv) =~= be_bytes(out_commitment_hash@, 32));
        assert(data@ =~= batch_bytes(out_commitment_hash@, deposits_view(deposits@)));
    }
    let digest = keccak256(data.as_slice());
    let keccak_sum = num_from_bytes_be_reduced(digest.as_slice());
    (
        DelegatedDepositBatchPub { keccak_sum },
        DelegatedDepositBatchSec { out_commitment_hash, deposits },
    )
}

/// A tree of commitments kept in memory, level by level: level 0 holds the
/// leaves, each the root of the sub-tree of one transaction, and every level
/// holds the nodes that are not the root of an empty tree.
pub struct HashTreeState {
    pub hashes: Vec<Vec<Num>>,
    pub default_hashes: Vec<Num>,
}

impl HashTreeState {
    /// The state has one level for each depth, and the root of the empty
    /// tree of each depth.
    pub open spec fn shaped(&self, params: &PoolBN256) -> bool {
        &&& self.hashes@.len() == TREE_UPDATE_HEIGHT + 1
        &&& self.default_hashes@.len() == TREE_UPDATE_HEIGHT + 1
        &&& forall|i: int|
            0 <= i <= TREE_UPDATE_HEIGHT ==> (#[trigger] self.default_hashes@[i])@
                == spec_default_hash(params.spec_compress(), (OUTPLUSONELOG + i) as nat)
    }

    /// The level `l` holds nodes of the tree over `leaves`, and every node
    /// that it does not hold lies beyond the last leaf.
    pub open spec fn level_ok(&self, params: &PoolBN256, leaves: Seq<nat>, l: int) -> bool {
        &&& self.hashes@[l]@.len() * pow2(l as nat) >= leaves.len()
        &&& forall|j: int|
            0 <= j < self.hashes@[l]@.len() ==> (#[trigger] self.hashes@[l]@[j])@ == tree_node(
                params.spec_compress(),
                leaves,
                l as nat,
                j as nat,
            )
    }

    /// The leaves of the tree.
    pub open spec fn leaves(&self) -> Seq<nat> {
        nums_view(self.hashes@[0]@)
    }

    /// The state holds the tree over its leaves.
    pub open spec fn wf(&self, params: &PoolBN256) -> bool {
        &&& self.shaped(params)
        &&& forall|l: int|
            0 <= l <= TREE_UPDATE_HEIGHT ==> #[trigger] self.level_ok(params, self.leaves(), l)
    }

    /// The empty tree.
    pub fn new(params: &PoolBN256) -> (r: Self)
        ensures
            r.wf(params),
            r.leaves().len() == 0,
    {
        let mut default_hashes: Vec<Num> = Vec::new();
        let mut hashes: Vec<Vec<Num>> = Vec::new();
        let mut c = default_hash(OUTPLUSONELOG, params);
        let mut i: usize = 0;
        while i < TREE_UPDATE_HEIGHT + 1
            invariant
                i <= TREE_UPDATE_HEIGHT + 1,
                default_hashes@.len() == i,
                hashes@.len() == i,
                c@ == spec_default_hash(params.spec_compress(), (OUTPLUSONELOG + i) as nat),
                forall|k: int|
                    0 <= k < i ==> (#[trigger] default_hashes@[k])@ == spec_default_hash(
                        params.spec_compress(),
                        (OUTPLUSONELOG + k) as nat,
                    ),
                forall|k: int| 0 <= k < i ==> (#[trigger] hashes@[k])@.len() == 0,
            decreases TREE_UPDATE_HEIGHT + 1 - i,
        {
            default_hashes.push(c);
            hashes.push(Vec::new());
            c = poseidon_pair(c, c, params.compress());
            i += 1;
        }
        let r = HashTreeState { hashes, default_hashes };
        proof {
            assert forall|l: int| 0 <= l <= TREE_UPDATE_HEIGHT implies #[trigger] r.level_ok(
                params,
                r.leaves(),
                l,
            ) by {
                assert(r.hashes@[l]@.len() == 0);
            }
        }
        r
    }

    /// The node `j` of the level `i` of the tree over `leaves`, which the
    /// level holds or which lies beyond the last leaf.
    fn cell_at(&self, i: usize, j: u64, params: &PoolBN256, Ghost(leaves): Ghost<Seq<nat>>) -> (r:
        Num)
        requires
            self.shaped(params),
            i <= TREE_UPDATE_HEIGHT,
            self.level_ok(params, leaves, i as int),
        ensures
            r@ == tree_node(params.spec_compress(), leaves, i as nat, j as nat),
    {
        if self.hashes[i].len() as u64 <= j {
            proof {
                let len = self.hashes@[i as int]@.len();
                let w = pow2(i as nat);
                assert(j * w >= len * w) by (nonlinear_arith)
                    requires
                        j >= len,
                        w >= 0,
                ;
                lemma_node_default(params.spec_compress(), leaves, i as nat, j as nat);
            }
            self.default_hashes[i]
        } else {
            self.hashes[i][j as usize]
        }
    }

    /// The node `j` of the level `i`.
    pub fn cell(&self, i: usize, j: usize, params: &PoolBN256) -> (r: Num)
        requires
            self.wf(params),
            i <= TREE_UPDATE_HEIGHT,
        ensures
            r@ == tree_node(params.spec_compress(), self.leaves(), i as nat, j as nat),
    {
        proof {
            assert(self.level_ok(params, self.leaves(), i as int));
        }
        self.cell_at(i, j as u64, params, Ghost(self.leaves()))
    }

    /// Appends a leaf and recomputes the nodes above it.
    pub fn push(&mut self, n: Num, params: &PoolBN256)
        requires
            old(self).wf(params),
            old(self).leaves().len() < 0x7fff_ffff,
        ensures
            final(self).wf(params),
            final(self).leaves() == old(self).leaves().push(n@),
    {
        let ghost leaves0 = self.leaves();
        let ghost leaves1 = leaves0.push(n@);
        let ghost count = leaves0.len();
        let mut p = self.hashes[0].len();
        let ghost start = *self;
        proof {
            assert(self.level_ok(params, leaves0, 0));
            lemma2_to64();
        }
        let mut level0 = Vec::new();
        std::mem::swap(&mut level0, &mut self.hashes[0]);
        level0.push(n);
        self.hashes.set(0, level0);
        proof {
            assert(self.leaves() =~= leaves1);
            assert(self.level_ok(params, leaves1, 0));
            assert forall|l: int| 0 < l <= TREE_UPDATE_HEIGHT implies #[trigger] self.level_ok(
                params,
                leaves0,
                l,
            ) by {
                assert(start.level_ok(params, leaves0, l));
                assert(self.hashes@[l] == start.hashes@[l]);
            }
        }
        let mut i: usize = 0;
        while i < TREE_UPDATE_HEIGHT
            invariant
                i <= TREE_UPDATE_HEIGHT,
                self.shaped(params),
                leaves1 == leaves0.push(n@),
                count == leaves0.len(),
                count < 0x7fff_ffff,
                self.leaves() == leaves1,
                p == count / pow2(i as nat),
                forall|l: int| 0 <= l <= i ==> #[trigger] self.level_ok(params, leaves1, l),
                forall|l: int|
                    i < l <= TREE_UPDATE_HEIGHT ==> #[trigger] self.level_ok(params, leaves0, l),
            decreases TREE_UPDATE_HEIGHT - i,
        {
            let ghost w = pow2((i + 1) as nat);
            proof {
                lemma2_to64();
                lemma_pow2_adds(i as nat, 1);
                lemma_pow2_pos(i as nat);
                lemma_pow2_pos((i + 1) as nat);
                lemma_div_denominator(count as int, pow2(i as nat) as int, 2);
                assert(pow2(i as nat) * 2 == w);
                assert(self.level_ok(params, leaves1, i as int));
                assert(self.level_ok(params, leaves0, i + 1));
            }
            p = p / 2;
            let left = self.cell_at(i, 2 * (p as u64), params, Ghost(leaves1));
            let right = self.cell_at(i, 2 * (p as u64) + 1, params, Ghost(leaves1));
            let h = poseidon_pair(left, right, params.compress());
            let ghost before = *self;
            let mut level = Vec::new();
            std::mem::swap(&mut level, &mut self.hashes[i + 1]);
            proof {
                // the level holds the node below which the new leaf lies, or ends just before it
                let len = level@.len();
                lemma_div_is_ordered(count as int, (len * w) as int, w as int);
                lemma_div_multiples_vanish(len as int, w as int);
                assert(len * w == w * len) by (nonlinear_arith);
                assert(p <= len);
            }
            if level.len() <= p {
                level.push(self.default_hashes[i + 1]);
            }
            level.set(p, h);
            self.hashes.set(i + 1, level);
            proof {
                assert(self.leaves() =~= leaves1);
                assert forall|l: int| 0 <= l <= i implies #[trigger] self.level_ok(
                    params,
                    leaves1,
                    l,
                ) by {
                    assert(before.level_ok(params, leaves1, l));
                    assert(self.hashes@[l] == before.hashes@[l]);
                }
                assert forall|l: int| i + 1 < l <= TREE_UPDATE_HEIGHT implies #[trigger] self.level_ok(
                    params,
                    leaves0,
                    l,
                ) by {
                    assert(before.level_ok(params, leaves0, l));
                    assert(self.hashes@[l] == before.hashes@[l]);
                }
                assert(self.level_ok(params, leaves1, i + 1)) by {
                    let now = self.hashes@[i + 1]@;
                    let was = before.hashes@[i + 1]@;
                    lemma_fundamental_div_mod(count as int, w as int);
                    assert(now.len() >= p + 1);
                    assert(now.len() * w >= (p + 1) * w) by (nonlinear_arith)
                        requires
                            now.len() >= p + 1,
                            w > 0,
                    ;
                    assert((p + 1) * w == w * p + w) by (nonlinear_arith);
                    assert forall|j: int| 0 <= j < now.len() implies (#[trigger] now[j])@
                        == tree_node(params.spec_compress(), leaves1, (i + 1) as nat, j as nat) by {
                        if j != p {
                            assert(now[j] == was[j]);
                            lemma_node_unchanged(
                                params.spec_compress(),
                                leaves0,
                                n@,
                                (i + 1) as nat,
                                j as nat,
                            );
                        }
                    }
                }
            }
            i += 1;
        }
    }

    /// The path of the leaf `id`.
    pub fn merkle_proof(&self, id: usize, params: &PoolBN256) -> (r: MerkleProof<TREE_UPDATE_HEIGHT>)
        requires
            self.wf(params),
            id < 0x7fff_ffff,
        ensures
            r.wf(),
            is_path_of(
                params.spec_compress(),
                self.leaves(),
                id as nat,
                r@,
                TREE_UPDATE_HEIGHT as nat,
            ),
    {
        let ghost leaves = self.leaves();
        let mut sibling: Vec<Num> = Vec::new();
        let mut path: Vec<bool> = Vec::new();
        let mut i: usize = 0;
        let mut cur: u64 = id as u64;
        proof {
            lemma2_to64();
        }
        while i < TREE_UPDATE_HEIGHT
            invariant
                i <= TREE_UPDATE_HEIGHT,
                self.wf(params),
                leaves == self.leaves(),
                sibling@.len() == i,
                path@.len() == i,
                cur == id as nat / pow2(i as nat),
                cur < 0x7fff_ffff,
                forall|k: int|
                    0 <= k < i ==> (#[trigger] sibling@[k])@ == tree_node(
                        params.spec_compress(),
                        leaves,
                        k as nat,
                        sibling_index(id as nat / pow2(k as nat)),
                    ),
                forall|k: int| 0 <= k < i ==> #[trigger] path@[k] == bit_of(id as nat, k as nat),
            decreases TREE_UPDATE_HEIGHT - i,
        {
            proof {
                assert(self.level_ok(params, leaves, i as int));
                lemma2_to64();
                lemma_pow2_adds(i as nat, 1);
                lemma_pow2_pos(i as nat);
                lemma_div_denominator(id as int, pow2(i as nat) as int, 2);
                assert(pow2(i as nat) * 2 == pow2((i + 1) as nat));
            }
            let beside = if cur % 2 == 0 {
                cur + 1
            } else {
                cur - 1
            };
            sibling.push(self.cell_at(i, beside, params, Ghost(leaves)));
            path.push(cur % 2 == 1);
            cur = cur / 2;
            i += 1;
        }
        let r = MerkleProof { sibling, path };
        proof {
            assert forall|k: int| 0 <= k < TREE_UPDATE_HEIGHT implies #[trigger] r@.sibling[k]
                == tree_node(
                params.spec_compress(),
                leaves,
                k as nat,
                sibling_index(id as nat / pow2(k as nat)),
            ) by {
                assert(r@.sibling[k] == sibling@[k]@);
            }
        }
        r
    }

    /// The root of the tree.
    pub fn root(&self, params: &PoolBN256) -> (r: Num)
        requires
            self.wf(params),
        ensures
            r@ == tree_root(params.spec_compress(), self.leaves()),
    {
        self.cell(TREE_UPDATE_HEIGHT, 0, params)
    }
}

} // verus!
