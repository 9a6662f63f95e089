//! Finding the lines of a text that a regular expression matches.
use vstd::prelude::*;
use vstd::utf8::{encode_utf8, is_char_boundary};
use vstd::string::StringSliceAdditionalSpecFns;

verus! {

#[verifier::external_type_specification]
#[verifier::external_body]
pub struct ExRegex(regex::Regex);

#[verifier::external_type_specification]
#[verifier::external_body]
pub struct ExRegexError(regex::Error);

/// Whether `regex::Regex::new` accepts `pattern`.
pub uninterp spec fn regex_valid(pattern: Seq<char>) -> bool;

/// The byte range of the first match of `pattern` in `hay`, as
/// `regex::Regex::find` reports it.
pub uninterp spec fn regex_find(pattern: Seq<char>, hay: Seq<char>) -> Option<(usize, usize)>;

/// Why a text could not be compiled to a pattern.
#[derive(Debug)]
pub enum PatternError {
    /// The text is no regular expression; the regex crate says why.
    Invalid(regex::Error),
}

/// A compiled regular expression, with the text it was compiled from.
pub struct Pattern {
    source: String,
    re: regex::Regex,
}

impl Pattern {
    /// The text this pattern was compiled from.
    pub closed spec fn source(&self) -> Seq<char> {
        self.source@
    }

    /// Calls `regex::Regex::new`, which compiles `pattern` or reports why it
    /// cannot. Whether it succeeds is a function of `pattern` alone.
    #[verifier::external_body]
    fn compile(pattern: &str) -> (r: Result<Pattern, regex::Error>)
        ensures
            r is Ok <==> regex_valid(pattern@),
            r matches Ok(p) ==> p.source() == pattern@,
    {
        regex::Regex::new(pattern).map(|re| Pattern { source: pattern.to_string(), re })
    }

    /// Compiles `pattern`, or says why it is no regular expression.
    pub fn new(pattern: &str) -> (r: Result<Pattern, PatternError>)
        ensures
            r is Ok <==> regex_valid(pattern@),
            r matches Ok(p) ==> p.source() == pattern@,
    {
        match Pattern::compile(pattern) {
            Ok(p) => Ok(p),
            Err(e) => Err(PatternError::Invalid(e)),
        }
    }

    /// Calls `regex::Regex::find` on the compiled pattern, which this type
    /// only ever holds together with its source text. The range it reports
    /// lies within `hay`, in order, on character boundaries, as the regex
    /// crate documents for `Match::start` and `Match::end`.
    #[verifier::external_body]
    fn find(&self, hay: &str) -> (r: Option<(usize, usize)>)
        ensures
            r == regex_find(self.source(), hay@),
            r matches Some((s, e)) ==> s <= e <= hay.spec_bytes().len()
                && is_char_boundary(hay.spec_bytes(), s as int)
                && is_char_boundary(hay.spec_bytes(), e as int),
    {
        self.re.find(hay).map(|m| (m.start(), m.end()))
    }
}

/// The texts of `lines`.
pub open spec fn texts(lines: Seq<String>) -> Seq<Seq<char>> {
    lines.map_values(|l: String| l@)
}

/// A matching line, cut around its first match.
#[derive(Debug)]
pub struct LineMatch {
    /// The line's number, from 0.
    pub lineno: usize,
    /// The byte offset where the match starts.
    pub start: usize,
    pub before: String,
    pub matched: String,
    pub after: String,
}

/// The line number and byte range of the first match of `pattern` in each
/// line that it matches, in order.
pub open spec fn matches_in(pattern: Seq<char>, lines: Seq<Seq<char>>) -> Seq<(int, usize, usize)>
    decreases lines.len(),
{
    if lines.len() == 0 {
        Seq::empty()
    } else {
        let rest = matches_in(pattern, lines.drop_last());
        match regex_find(pattern, lines.last()) {
            Some((s, e)) => rest.push((lines.len() - 1, s, e)),
            None => rest,
        }
    }
}

/// Whether the pattern finds a match in a line.
pub open spec fn has_match(pattern: Seq<char>) -> spec_fn(Seq<char>) -> bool {
    |line: Seq<char>| regex_find(pattern, line) is Some
}

/// Every line in which the pattern finds a match is reported, with the
/// match's range, wherever in the line it starts; nothing else is
/// reported: as many results as lines that match, each naming such a line.
pub proof fn lemma_every_match_reported(pattern: Seq<char>, lines: Seq<Seq<char>>)
    ensures
        matches_in(pattern, lines).len() == lines.filter(has_match(pattern)).len(),
        forall|i: int, s: usize, e: usize| 0 <= i < lines.len() && regex_find(pattern, lines[i]) == Some((s, e))
            ==> exists|j: int| 0 <= j < matches_in(pattern, lines).len() && #[trigger] matches_in(pattern, lines)[j] == (i, s, e),
        forall|j: int| 0 <= j < matches_in(pattern, lines).len() ==> {
            let (i, s, e) = #[trigger] matches_in(pattern, lines)[j];
            0 <= i < lines.len() && regex_find(pattern, lines[i]) == Some((s, e))
        },
    decreases lines.len(),
{
    reveal(Seq::filter);
    if lines.len() > 0 {
        let dl = lines.drop_last();
        lemma_every_match_reported(pattern, dl);
        let rest = matches_in(pattern, dl);
        let n = lines.len() - 1;
        assert forall|i: int| 0 <= i < dl.len() implies dl[i] == lines[i] by {}
        match regex_find(pattern, lines.last()) {
            Some((s0, e0)) => {
                let all = rest.push((n, s0, e0));
                assert(matches_in(pattern, lines) == all);
                assert forall|i: int, s: usize, e: usize| 0 <= i < lines.len() && regex_find(pattern, lines[i]) == Some((s, e))
                    implies exists|j: int| 0 <= j < all.len() && #[trigger] all[j] == (i, s, e) by {
                    if i < n {
                        assert(dl[i] == lines[i]);
                        let j = choose|j: int| 0 <= j < rest.len() && #[trigger] rest[j] == (i, s, e);
                        assert(all[j] == (i, s, e));
                    } else {
                        assert(all[rest.len() as int] == (i, s, e));
                    }
                }
                assert forall|j: int| 0 <= j < all.len() implies {
                    let (i, s, e) = #[trigger] all[j];
                    0 <= i < lines.len() && regex_find(pattern, lines[i]) == Some((s, e))
                } by {
                    if j < rest.len() {
                        assert(all[j] == rest[j]);
                        let (i, s, e) = rest[j];
                        assert(dl[i] == lines[i]);
                    }
                }
            },
            None => {
                assert(matches_in(pattern, lines) == rest);
                assert forall|i: int, s: usize, e: usize| 0 <= i < lines.len() && regex_find(pattern, lines[i]) == Some((s, e))
                    implies exists|j: int| 0 <= j < rest.len() && #[trigger] rest[j] == (i, s, e) by {
                    if i < n {
                        assert(dl[i] == lines[i]);
                    }
                }
                assert forall|j: int| 0 <= j < rest.len() implies {
                    let (i, s, e) = #[trigger] rest[j];
                    0 <= i < lines.len() && regex_find(pattern, lines[i]) == Some((s, e))
                } by {
                    let (i, s, e) = rest[j];
                    assert(dl[i] == lines[i]);
                }
            },
        }
    }
}

/// `m` is `line` cut around the byte range `s..e`.
pub open spec fn cut_at(m: LineMatch, line: Seq<char>, s: usize, e: usize) -> bool {
    &&& m.start == s
    &&& encode_utf8(m.before@) == encode_utf8(line).subrange(0, s as int)
    &&& encode_utf8(m.matched@) == encode_utf8(line).subrange(s as int, e as int)
    &&& encode_utf8(m.after@) == encode_utf8(line).subrange(e as int, encode_utf8(line).len() as int)
}

/// Cuts `line` around the byte range `start..end`.
pub fn decorate_line(line: &str, start: usize, end: usize, lineno: usize) -> (m: LineMatch)
    requires
        start <= end <= line.spec_bytes().len(),
        is_char_boundary(line.spec_bytes(), start as int),
        is_char_boundary(line.spec_bytes(), end as int),
    ensures
        m.lineno == lineno,
        cut_at(m, line@, start, end),
{
    let (before, rest) = line.split_at(start);
    proof {
        assert(rest.spec_bytes() =~= line.spec_bytes().subrange(start as int, line.spec_bytes().len() as int));
        vstd::utf8::encode_utf8_valid_utf8(line@);
        lemma_boundary_shift(line.spec_bytes(), start as int, end as int);
    }
    let (matched, after) = rest.split_at(end - start);
    proof {
        assert(matched.spec_bytes() =~= line.spec_bytes().subrange(start as int, end as int));
        assert(after.spec_bytes() =~= line.spec_bytes().subrange(end as int, line.spec_bytes().len() as int));
    }
    LineMatch {
        lineno,
        start,
        before: before.to_owned(),
        matched: matched.to_owned(),
        after: after.to_owned(),
    }
}

/// A boundary at `e` is a boundary at `e - s` of the text from `s` on.
proof fn lemma_boundary_shift(bytes: Seq<u8>, s: int, e: int)
    requires
        vstd::utf8::valid_utf8(bytes),
        0 <= s <= e <= bytes.len(),
        is_char_boundary(bytes, s),
        is_char_boundary(bytes, e),
    ensures
        is_char_boundary(bytes.subrange(s, bytes.len() as int), e - s),
{
    broadcast use vstd::utf8::group_utf8_lib;

    let rest = bytes.subrange(s, bytes.len() as int);
    vstd::utf8::valid_utf8_split(bytes, s);
    if e == bytes.len() {
        assert(e - s == rest.len());
    } else {
        assert(rest[e - s] == bytes[e]);
        vstd::utf8::is_char_boundary_iff_not_is_continuation_byte(bytes, e);
        vstd::utf8::is_char_boundary_iff_not_is_continuation_byte(rest, e - s);
    }
}

/// The way of searching that reports, for each matching line, its first
/// match.
pub struct DefaultStrategy;

impl DefaultStrategy {
/// The lines of `lines` that `pattern` matches, each cut around its first
/// match.
pub fn grep(&self, pattern: &Pattern, lines: &Vec<String>) -> (r: Vec<LineMatch>)
    ensures
        r@.len() == matches_in(pattern.source(), texts(lines@)).len(),
        forall|i: int| 0 <= i < r@.len() ==> {
            let (no, s, e) = #[trigger] matches_in(pattern.source(), texts(lines@))[i];
            &&& r@[i].lineno == no
            &&& cut_at(r@[i], lines@[no]@, s, e)
        },
        r@.len() == texts(lines@).filter(has_match(pattern.source())).len(),
        forall|no: int, s: usize, e: usize| 0 <= no < lines@.len() && regex_find(pattern.source(), lines@[no]@) == Some((s, e))
            ==> exists|i: int| 0 <= i < r@.len() && (#[trigger] r@[i]).lineno == no && r@[i].start == s
                && cut_at(r@[i], lines@[no]@, s, e),
{
    let ghost views = texts(lines@);
    let mut out: Vec<LineMatch> = Vec::new();
    let mut no: usize = 0;
    while no < lines.len()
        invariant
            no <= lines@.len(),
            views == texts(lines@),
            out@.len() == matches_in(pattern.source(), views.take(no as int)).len(),
            forall|i: int| 0 <= i < out@.len() ==> {
                let (n, s, e) = #[trigger] matches_in(pattern.source(), views.take(no as int))[i];
                &&& out@[i].lineno == n
                &&& 0 <= n < no
                &&& cut_at(out@[i], lines@[n]@, s, e)
            },
        decreases lines@.len() - no,
    {
        let ghost prev = views.take(no as int);
        let ghost next = views.take(no + 1);
        assert(next.drop_last() =~= prev);
        assert(next.last() == lines@[no as int]@);
        let line = lines[no].as_str();
        match pattern.find(line) {
            Some((s, e)) => {
                let m = decorate_line(line, s, e, no);
                out.push(m);
            },
            None => {},
        }
        no = no + 1;
    }
    assert(views.take(lines@.len() as int) =~= views);
    proof {
        lemma_every_match_reported(pattern.source(), views);
        assert forall|no: int, s: usize, e: usize| 0 <= no < lines@.len() && regex_find(pattern.source(), lines@[no]@) == Some((s, e))
            implies exists|i: int| 0 <= i < out@.len() && (#[trigger] out@[i]).lineno == no && out@[i].start == s
                && cut_at(out@[i], lines@[no]@, s, e) by {
            assert(views[no] == lines@[no]@);
            let j = choose|j: int| 0 <= j < matches_in(pattern.source(), views).len()
                && #[trigger] matches_in(pattern.source(), views)[j] == (no, s, e);
            assert(out@[j].lineno == no);
        }
    }
    out
}
}

} // verus!
