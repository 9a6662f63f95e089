//! Splitting text at a delimiter.
use vstd::prelude::*;

verus! {

/// Where `c` first occurs in `s`, if anywhere.
pub open spec fn first_index_of(s: Seq<char>, c: char) -> Option<int> {
    if exists|i: int| 0 <= i < s.len() && s[i] == c {
        Some(choose|i: int| 0 <= i < s.len() && s[i] == c && forall|j: int| 0 <= j < i ==> s[j] != c)
    } else {
        None
    }
}

/// Where `c` occurs in `s`, there is a first position of it, and
/// `first_index_of` names that one.
pub proof fn lemma_first_index_exists(s: Seq<char>, c: char, k: int)
    requires
        0 <= k < s.len(),
        s[k] == c,
    ensures
        first_index_of(s, c) matches Some(i) && is_first_index(s, c, i),
    decreases k,
{
    if exists|j: int| 0 <= j < k && s[j] == c {
        let j = choose|j: int| 0 <= j < k && s[j] == c;
        lemma_first_index_exists(s, c, j);
    } else {
        assert(is_first_index(s, c, k));
        lemma_first_index(s, c, k);
    }
}

/// `i` is the first position of `c` in `s`.
pub open spec fn is_first_index(s: Seq<char>, c: char, i: int) -> bool {
    0 <= i < s.len() && s[i] == c && forall|j: int| 0 <= j < i ==> s[j] != c
}

/// The first position of `c` in `s` is the one `first_index_of` names.
pub proof fn lemma_first_index(s: Seq<char>, c: char, i: int)
    requires
        is_first_index(s, c, i),
    ensures
        first_index_of(s, c) == Some(i),
{
    assert(exists|k: int| 0 <= k < s.len() && s[k] == c);
    let k = choose|k: int| 0 <= k < s.len() && s[k] == c && forall|j: int| 0 <= j < k ==> s[j] != c;
    assert(is_first_index(s, c, i));
    assert(exists|k: int| 0 <= k < s.len() && s[k] == c && forall|j: int| 0 <= j < k ==> s[j] != c);
    assert(k == i) by {
        if k < i {
            assert(s[k] != c);
        } else if k > i {
            assert(s[i] != c);
        }
    }
}

/// Finds the first position of `c` in `s`.
pub fn find_char(s: &str, c: char) -> (r: Option<usize>)
    ensures
        match r {
            Some(i) => is_first_index(s@, c, i as int) && first_index_of(s@, c) == Some(i as int),
            None => first_index_of(s@, c) is None,
        },
{
    let n = s.unicode_len();
    let mut i: usize = 0;
    while i < n
        invariant
            n == s@.len(),
            i <= n,
            forall|j: int| 0 <= j < i ==> s@[j] != c,
        decreases n - i,
    {
        if s.get_char(i) == c {
            proof {
                lemma_first_index(s@, c, i as int);
            }
            return Some(i);
        }
        i = i + 1;
    }
    None
}

/// The text before the first `delimiter` and the text after it, where
/// `delimiter` occurs in `s`.
pub fn split<'a>(s: &'a str, delimiter: char) -> (r: Option<(&'a str, &'a str)>)
    ensures
        match first_index_of(s@, delimiter) {
            Some(i) => r is Some && r->Some_0.0@ == s@.take(i) && r->Some_0.1@ == s@.skip(i + 1),
            None => r is None,
        },
{
    match find_char(s, delimiter) {
        Some(idx) => {
            let n = s.unicode_len();
            let before = s.substring_char(0, idx);
            let after = s.substring_char(idx + 1, n);
            proof {
                assert(s@.subrange(0, idx as int) =~= s@.take(idx as int));
                assert(s@.subrange(idx + 1, n as int) =~= s@.skip(idx + 1));
            }
            Some((before, after))
        },
        None => None,
    }
}

} // verus!
