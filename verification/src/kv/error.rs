//! What can go wrong in the key-value service.
use vstd::prelude::*;
use crate::kv::pb::{STATUS_BAD_REQUEST, STATUS_NOT_FOUND, STATUS_OK};

verus! {

#[derive(Debug, PartialEq)]
pub enum KvError {
    /// Nothing is stored under this table and key.
    NotFound(String, String),
    /// The command cannot be understood.
    InvalidCommand(String),
    /// The storage failed.
    Internal(String),
}

/// The status code that reports `e`.
pub open spec fn error_status(e: KvError) -> u32 {
    match e {
        KvError::NotFound(_, _) => STATUS_NOT_FOUND,
        KvError::InvalidCommand(_) => STATUS_BAD_REQUEST,
        KvError::Internal(_) => STATUS_OK,
    }
}

pub open spec fn not_found_prefix() -> Seq<char> {
    "Not found for table: "@
}

pub open spec fn key_infix() -> Seq<char> {
    ", key: "@
}

pub open spec fn invalid_prefix() -> Seq<char> {
    "Cannot parse command: "@
}

pub open spec fn internal_prefix() -> Seq<char> {
    "Internal error: "@
}

/// The message that reports `e`.
pub open spec fn error_message(e: KvError) -> Seq<char> {
    match e {
        KvError::NotFound(t, k) => not_found_prefix() + t@ + key_infix() + k@,
        KvError::InvalidCommand(c) => invalid_prefix() + c@,
        KvError::Internal(m) => internal_prefix() + m@,
    }
}

impl KvError {
    /// The message that reports this error.
    pub fn message(&self) -> (m: String)
        ensures
            m@ == error_message(*self),
    {
        match self {
            KvError::NotFound(t, k) => {
                let mut m = String::from_str("Not found for table: ");
                m.append(t.as_str());
                m.append(", key: ");
                m.append(k.as_str());
                m
            },
            KvError::InvalidCommand(c) => {
                let mut m = String::from_str("Cannot parse command: ");
                m.append(c.as_str());
                m
            },
            KvError::Internal(s) => {
                let mut m = String::from_str("Internal error: ");
                m.append(s.as_str());
                m
            },
        }
    }
}

} // verus!
