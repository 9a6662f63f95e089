//! The decisions of a small HTTP client: how command-line pairs are read and
//! how a response body is shown.
use vstd::prelude::*;
use crate::text::{find_char, first_index_of, split};

verus! {

/// A `key=value` pair given on the command line.
#[derive(Debug)]
pub struct KvPair {
    pub k: String,
    pub v: String,
}

/// Why a command-line pair could not be read.
#[derive(Debug, PartialEq, Eq, Structural)]
pub enum KvPairError {
    /// The text holds no `=`.
    NoValue,
}

/// The key and value that `text` names: the key is what comes before the
/// first `=`, the value what follows it up to the next `=` or the end.
pub open spec fn parse_pair(text: Seq<char>) -> Option<(Seq<char>, Seq<char>)> {
    match first_index_of(text, '=') {
        None => None,
        Some(i) => {
            let rest = text.skip(i + 1);
            let v = match first_index_of(rest, '=') {
                Some(j) => rest.take(j),
                None => rest,
            };
            Some((text.take(i), v))
        },
    }
}

impl KvPair {
    /// Reads a pair written as `key=value`.
    pub fn try_from(value: &str) -> (r: Result<KvPair, KvPairError>)
        ensures
            match parse_pair(value@) {
                Some((k, v)) => r is Ok && r->Ok_0.k@ == k && r->Ok_0.v@ == v,
                None => r == Err::<KvPair, KvPairError>(KvPairError::NoValue),
            },
    {
        match split(value, '=') {
            None => Err(KvPairError::NoValue),
            Some((k, rest)) => {
                let v = match find_char(rest, '=') {
                    Some(j) => {
                        let taken = rest.substring_char(0, j);
                        assert(rest@.subrange(0, j as int) =~= rest@.take(j as int));
                        taken
                    },
                    None => rest,
                };
                Ok(KvPair { k: k.to_owned(), v: v.to_owned() })
            },
        }
    }
}

/// `a` and `b` hold the same text.
fn same_text(a: &str, b: &str) -> (r: bool)
    ensures
        r == (a@ == b@),
{
    a.to_owned() == b.to_owned()
}

/// What `jsonxf::pretty_print` makes of a text: the text laid out with
/// two-space indents, or the error message of its formatter. The formatter
/// does not validate JSON; it lays out the tokens it finds.
pub uninterp spec fn json_pretty(text: Seq<char>) -> Result<Seq<char>, Seq<char>>;

/// Calls `jsonxf::pretty_print`, which re-lays out JSON text or returns its
/// formatter's error message. Its result is a function of the text alone.
#[verifier::external_body]
fn pretty_print_json(text: &str) -> (r: Result<String, String>)
    ensures
        match r {
            Ok(o) => json_pretty(text@) == Ok::<Seq<char>, Seq<char>>(o@),
            Err(e) => json_pretty(text@) == Err::<Seq<char>, Seq<char>>(e@),
        },
{
    jsonxf::pretty_print(text)
}

/// The content type of JSON bodies.
pub open spec fn json_type() -> Seq<char> {
    seq!['a', 'p', 'p', 'l', 'i', 'c', 'a', 't', 'i', 'o', 'n', '/', 'j', 's', 'o', 'n']
}

/// How a response body is shown: JSON bodies pretty-printed, others as
/// they are.
pub fn render_body(content_type: Option<&str>, text: &str) -> (r: Result<String, String>)
    ensures
        match content_type {
            Some(ty) if ty@ == json_type() => match json_pretty(text@) {
                Ok(o) => r is Ok && r->Ok_0@ == o,
                Err(e) => r is Err && r->Err_0@ == e,
            },
            _ => r is Ok && r->Ok_0@ == text@,
        },
{
    let json = "application/json";
    proof {
        reveal_strlit("application/json");
        assert(json@ =~= json_type());
    }
    match content_type {
        Some(ty) => {
            if same_text(ty, json) {
                pretty_print_json(text)
            } else {
                Ok(text.to_owned())
            }
        },
        None => Ok(text.to_owned()),
    }
}

} // verus!
