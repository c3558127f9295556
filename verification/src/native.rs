pub mod account;
pub mod borsh;
pub mod boundednum;
pub mod bytes;
pub mod cipher;
pub mod delegated_deposit;
pub mod ecc;
pub mod eddsa;
pub mod interval;
pub mod keccak;
pub mod key;
pub mod note;
pub mod num;
pub mod params;
pub mod poseidon;
pub mod tree;
pub mod tx;
pub mod uint;
