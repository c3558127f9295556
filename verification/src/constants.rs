use vstd::prelude::*;

verus! {

/// Number of input notes spent by one transaction.
pub const IN: usize = 3;

/// Binary logarithm of the number of leaves one transaction writes.
pub const OUTPLUSONELOG: usize = 7;

/// Largest number of output notes of one transaction.
pub const OUT: usize = 127;

/// Depth of the commitment tree.
pub const HEIGHT: usize = 48;

pub const DIVERSIFIER_SIZE_BITS: usize = 80;

pub const BALANCE_SIZE_BITS: usize = 64;

pub const ENERGY_SIZE_BITS: usize = 112;

pub const SALT_SIZE_BITS: usize = 80;

pub const POOLID_SIZE_BITS: usize = 24;

pub const DELEGATED_DEPOSITS_NUM: usize = 16;

pub const POLY_1305_TAG_SIZE: usize = 16;

pub const U256_SIZE: usize = 32;

/// Depth of the tree whose leaves are the roots of the transactions' sub-trees.
pub const TREE_UPDATE_HEIGHT: usize = 41;

/// Width in bits of the integer that carries a field element.
pub fn num_size_bits() -> (r: usize)
    ensures
        r == 256,
{
    256
}

/// Width in bits of a note on the wire.
pub fn note_size_bits() -> (r: usize)
    ensures
        r == DIVERSIFIER_SIZE_BITS + BALANCE_SIZE_BITS + SALT_SIZE_BITS + 256,
{
    DIVERSIFIER_SIZE_BITS + BALANCE_SIZE_BITS + SALT_SIZE_BITS + num_size_bits()
}

/// Width in bits of an account on the wire.
pub fn account_size_bits() -> (r: usize)
    ensures
        r == BALANCE_SIZE_BITS + DIVERSIFIER_SIZE_BITS + ENERGY_SIZE_BITS + HEIGHT + 256,
{
    BALANCE_SIZE_BITS + DIVERSIFIER_SIZE_BITS + ENERGY_SIZE_BITS + HEIGHT + num_size_bits()
}

} // verus!
