//! Hashing text with the standard library's default hasher.
use vstd::prelude::*;
use std::hash::Hasher;
use vstd::std_specs::hash::DefaultHasherAdditionalSpecFns;
use vstd::string::StringSliceAdditionalSpecFns;
use vstd::utf8::encode_utf8;

verus! {

/// The hash of a text: what a new `DefaultHasher` finishes with after one
/// write of the text's UTF-8 bytes.
pub open spec fn text_hash(text: Seq<char>) -> u64 {
    std::collections::hash_map::DefaultHasher::spec_finish(seq![encode_utf8(text)])
}

/// Writes the bytes of `text` into a new `DefaultHasher` and finishes it.
pub(crate) fn hash_text(text: &str) -> (h: u64)
    ensures
        h == text_hash(text@),
{
    let mut hasher = std::collections::hash_map::DefaultHasher::new();
    hasher.write(text.as_bytes());
    let h = hasher.finish();
    assert(hasher@ =~= seq![text.spec_bytes()]);
    h
}

/// The number a hash server answers `line` with: the hash of its bytes.
pub fn hash_line(line: &str) -> (h: u64)
    ensures
        h == text_hash(line@),
{
    hash_text(line)
}

} // verus!
