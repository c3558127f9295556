use crate::native::uint::{base4, lemma_bases, U256};
use vstd::arithmetic::div_mod::{
    lemma_div_denominator, lemma_fundamental_div_mod_converse, lemma_mod_bound,
    lemma_mod_breakdown, lemma_small_mod,
};
use vstd::arithmetic::power2::{
    lemma2_to64, lemma_pow2_adds, lemma_pow2_pos, lemma_pow2_strictly_increases, pow2,
};
use vstd::prelude::*;

verus! {

/// The number that a sequence of bytes stands for, lowest byte first.
pub open spec fn le_value(bytes: Seq<u8>) -> nat
    decreases bytes.len(),
{
    if bytes.len() == 0 {
        0
    } else {
        bytes[0] as nat + 256 * le_value(bytes.drop_first())
    }
}

/// The byte of weight 256^i in `n`.
pub open spec fn byte_of(n: nat, i: nat) -> u8 {
    ((n / pow2(8 * i)) % 256) as u8
}

/// The `len` lowest bytes of `n`, lowest first.
pub open spec fn le_bytes(n: nat, len: nat) -> Seq<u8> {
    Seq::new(len, |i: int| byte_of(n, i as nat))
}

/// The number that a sequence of bytes stands for, highest byte first.
pub open spec fn be_value(bytes: Seq<u8>) -> nat {
    le_value(bytes.reverse())
}

/// The `len` lowest bytes of `n`, highest first.
pub open spec fn be_bytes(n: nat, len: nat) -> Seq<u8> {
    le_bytes(n, len).reverse()
}

/// The bytes of `n` above the lowest are the bytes of `n / 256`.
pub proof fn lemma_le_bytes_drop_first(n: nat, len: nat)
    requires
        len > 0,
    ensures
        le_bytes(n, len).drop_first() == le_bytes(n / 256, (len - 1) as nat),
        le_bytes(n, len)[0] == (n % 256) as u8,
{
    lemma2_to64();
    assert forall|i: int| 0 <= i < len - 1 implies byte_of(n, (i + 1) as nat) == #[trigger] byte_of(
        n / 256,
        i as nat,
    ) by {
        lemma_pow2_adds(8, (8 * i) as nat);
        lemma_pow2_pos((8 * i) as nat);
        lemma_div_denominator(n as int, 256, pow2((8 * i) as nat) as int);
    }
    assert(le_bytes(n, len).drop_first() =~= le_bytes(n / 256, (len - 1) as nat));
    assert(pow2((8 * 0) as nat) == 1);
    assert(le_bytes(n, len)[0] == byte_of(n, 0));
}

/// A sequence of bytes stands for a number below 256 to its length.
pub proof fn lemma_le_value_bound(bytes: Seq<u8>)
    ensures
        le_value(bytes) < pow2(8 * bytes.len()),
    decreases bytes.len(),
{
    lemma2_to64();
    if bytes.len() > 0 {
        lemma_le_value_bound(bytes.drop_first());
        lemma_pow2_adds(8, (8 * (bytes.len() - 1)) as nat);
    }
}

/// The `len` lowest bytes of `n` stand for `n` modulo 256 to `len`.
pub proof fn lemma_le_value_of_bytes(n: nat, len: nat)
    ensures
        le_value(le_bytes(n, len)) == n % pow2(8 * len),
    decreases len,
{
    lemma2_to64();
    if len == 0 {
    } else {
        lemma_le_bytes_drop_first(n, len);
        lemma_le_value_of_bytes(n / 256, (len - 1) as nat);
        lemma_pow2_adds(8, (8 * (len - 1)) as nat);
        lemma_pow2_pos((8 * (len - 1)) as nat);
        lemma_mod_breakdown(n as int, 256, pow2((8 * (len - 1)) as nat) as int);
    }
}

/// The bytes of the number that a sequence of bytes stands for are that
/// sequence.
pub proof fn lemma_le_bytes_of_value(bytes: Seq<u8>)
    ensures
        le_bytes(le_value(bytes), bytes.len()) == bytes,
    decreases bytes.len(),
{
    if bytes.len() == 0 {
        assert(le_bytes(le_value(bytes), 0) =~= bytes);
    } else {
        let rest = bytes.drop_first();
        let v = le_value(bytes);
        lemma_le_bytes_of_value(rest);
        lemma_fundamental_div_mod_converse(v as int, 256, le_value(rest) as int, bytes[0] as int);
        lemma_le_bytes_drop_first(v, bytes.len());
        assert(le_bytes(v, bytes.len()) =~= bytes) by {
            assert forall|i: int| 0 <= i < bytes.len() implies le_bytes(v, bytes.len())[i]
                == bytes[i] by {
                if i > 0 {
                    assert(le_bytes(v, bytes.len()).drop_first()[i - 1] == rest[i - 1]);
                }
            }
        }
    }
}

impl U256 {
    /// The byte of weight 256^i.
    pub fn byte(&self, i: usize) -> (r: u8)
        requires
            i < 32,
        ensures
            r == byte_of(self@, i as nat),
    {
        proof {
            lemma2_to64();
        }
        let low = self.shr(8 * (i as u32)).low_bits(8);
        proof {
            lemma_mod_bound(self@ as int / pow2(8 * (i as nat)) as int, 256);
        }
        low.l0 as u8
    }

    /// The 32 bytes of the value, lowest first.
    pub fn to_le_bytes(&self) -> (r: Vec<u8>)
        ensures
            r@ == le_bytes(self@, 32),
    {
        let mut bytes: Vec<u8> = Vec::new();
        let mut i: usize = 0;
        while i < 32
            invariant
                i <= 32,
                bytes@.len() == i,
                forall|k: int| 0 <= k < i ==> #[trigger] bytes@[k] == byte_of(self@, k as nat),
            decreases 32 - i,
        {
            bytes.push(self.byte(i));
            i += 1;
        }
        proof {
            assert(bytes@ =~= le_bytes(self@, 32));
        }
        bytes
    }

    /// The value that at most 32 bytes stand for, lowest first.
    pub fn from_le_bytes(bytes: &[u8]) -> (r: U256)
        requires
            bytes@.len() <= 32,
        ensures
            r@ == le_value(bytes@),
    {
        let n = bytes.len();
        let mut acc = U256::zero();
        let mut i: usize = n;
        proof {
            assert(bytes@.subrange(n as int, n as int) =~= Seq::<u8>::empty());
        }
        while i > 0
            invariant
                i <= n,
                n == bytes@.len(),
                n <= 32,
                acc@ == le_value(bytes@.subrange(i as int, n as int)),
            decreases i,
        {
            i -= 1;
            proof {
                let hi = bytes@.subrange(i + 1, n as int);
                let all = bytes@.subrange(i as int, n as int);
                assert(all.drop_first() =~= hi);
                lemma_le_value_bound(hi);
                lemma2_to64();
                lemma_bases();
                lemma_pow2_adds(8, (8 * hi.len()) as nat);
                if 8 * (hi.len() + 1) < 256 {
                    lemma_pow2_strictly_increases((8 * (hi.len() + 1)) as nat, 256);
                }
                lemma_small_mod(acc@ * 256, base4());
            }
            acc = acc.shl(8).add(&U256::from_u64(bytes[i] as u64));
        }
        proof {
            assert(bytes@.subrange(0, n as int) =~= bytes@);
        }
        acc
    }
}

} // verus!
