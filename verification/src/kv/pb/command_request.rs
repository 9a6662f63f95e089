//! The commands a request can carry.
use vstd::prelude::*;
use super::{Hget, Hgetall, Hset};

verus! {

#[derive(Clone, Debug, PartialEq)]
pub enum RequestData {
    Hget(Hget),
    Hgetall(Hgetall),
    Hset(Hset),
}

} // verus!
