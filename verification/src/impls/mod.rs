//! The representations of primitive types, of standard library types and of types
//! from other crates.
pub mod basic;
pub mod numbers;
pub mod vec;
pub mod string;
pub mod tuples;
pub mod byte_buf;
pub mod uuids;
pub mod byte_size;
pub mod decimal;
pub mod object_id;
pub mod git_oid;
pub mod bit_vec;
pub mod nbt_blob;
pub mod chrono_types;
pub mod semver_types;
pub mod ranges;
pub mod proxies;
pub mod nonzero;
pub mod btree;
