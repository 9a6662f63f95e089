//! The kinds of value the store holds.
use vstd::prelude::*;

verus! {

#[derive(Clone, Debug, PartialEq, PartialOrd)]
pub enum Value {
    String(String),
    Binary(Vec<u8>),
    Integer(i64),
    Bool(bool),
}

} // verus!
