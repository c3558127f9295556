pub mod account;
pub mod bitify;
pub mod bool;
pub mod boundednum;
pub mod cs;
pub mod delegated_deposit;
pub mod interval;
pub mod key;
pub mod note;
pub mod num;
pub mod poseidon;
pub mod relation;
pub mod tree;
pub mod tx;
