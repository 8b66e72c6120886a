use vstd::prelude::*;

pub mod builder;
pub mod compare;
pub mod convert;
pub mod custom;
pub mod error;
pub mod field;
pub mod grammar;
pub mod laws;
pub mod numeric;
pub mod operator;
pub mod parser;
pub mod plan;
pub mod query;
pub mod roundtrip;
pub mod schema;
pub mod text;
pub mod token;
pub mod types;
pub mod value;
pub mod value_cmp;

pub use error::DnfError;
pub use schema::{FieldInfo, FieldKind};

verus! {
} // verus!
