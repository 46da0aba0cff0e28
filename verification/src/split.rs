//! Splitting a raw reference string into path, query and fragment.
//!
//! The rule: scan the whole string once for the first `?` and the first `#`.
//! The fragment is everything after the first `#`, if any; the query exists
//! only when a `?` stands before any `#`, and runs from there to the `#` (or
//! the end); the path is what precedes both. A `?` after the first `#` is
//! fragment text, never a query.

use vstd::prelude::*;
use crate::encoding::no_char;

verus! {

/// The index of the first occurrence of `c` in `s`, or `s.len()` when there
/// is none.
pub open spec fn idx_of(s: Seq<char>, c: char) -> int
    decreases s.len(),
{
    if s.len() == 0 {
        0
    } else if s[0] == c {
        0
    } else {
        1 + idx_of(s.skip(1), c)
    }
}

/// What `idx_of` returns: the first occurrence, or the length.
pub proof fn lemma_idx_of(s: Seq<char>, c: char)
    ensures
        0 <= idx_of(s, c) <= s.len(),
        idx_of(s, c) < s.len() ==> s[idx_of(s, c)] == c,
        forall|k: int| 0 <= k < idx_of(s, c) ==> s[k] != c,
    decreases s.len(),
{
    if s.len() > 0 && s[0] != c {
        lemma_idx_of(s.skip(1), c);
        assert forall|k: int| 0 <= k < idx_of(s, c) implies s[k] != c by {
            if k > 0 {
                assert(s.skip(1)[k - 1] == s[k]);
            }
        }
    }
}

/// A position with the first-occurrence property is `idx_of`.
pub proof fn lemma_idx_of_is(s: Seq<char>, c: char, i: int)
    requires
        0 <= i <= s.len(),
        forall|k: int| 0 <= k < i ==> s[k] != c,
        i < s.len() ==> s[i] == c,
    ensures
        idx_of(s, c) == i,
    decreases s.len(),
{
    if s.len() > 0 && s[0] != c {
        assert(forall|k: int| 0 <= k < s.skip(1).len() ==> s.skip(1)[k] == s[k + 1]);
        lemma_idx_of_is(s.skip(1), c, i - 1);
    }
}

/// `idx_of` over a concatenation whose first part is clean.
pub proof fn lemma_idx_of_append(a: Seq<char>, b: Seq<char>, c: char)
    requires
        no_char(a, c),
    ensures
        idx_of(a + b, c) == a.len() + idx_of(b, c),
    decreases a.len(),
{
    if a.len() == 0 {
        assert(a + b =~= b);
    } else {
        assert((a + b).skip(1) =~= a.skip(1) + b);
        lemma_idx_of_append(a.skip(1), b, c);
    }
}

/// The smaller of two indices.
pub open spec fn min2(a: int, b: int) -> int {
    if a <= b {
        a
    } else {
        b
    }
}

/// The path of a raw reference string: everything before the first `?` or
/// `#`, whichever comes first.
pub open spec fn split_path(s: Seq<char>) -> Seq<char> {
    s.take(min2(idx_of(s, '?'), idx_of(s, '#')))
}

/// The query of a raw reference string: present exactly when a `?` stands
/// before any `#`; it runs from after that `?` to the first `#` or the end.
pub open spec fn split_query(s: Seq<char>) -> Option<Seq<char>> {
    let q = idx_of(s, '?');
    let f = idx_of(s, '#');
    if q < f {
        Some(s.subrange(q + 1, f))
    } else {
        None
    }
}

/// The fragment of a raw reference string: everything after the first `#`,
/// if there is one.
pub open spec fn split_fragment(s: Seq<char>) -> Option<Seq<char>> {
    let f = idx_of(s, '#');
    if f < s.len() {
        Some(s.skip(f + 1))
    } else {
        None
    }
}

/// An optional component with its leading delimiter, or nothing.
pub open spec fn opt_mark(c: char, o: Option<Seq<char>>) -> Seq<char> {
    match o {
        Some(x) => seq![c] + x,
        None => Seq::empty(),
    }
}

/// The canonical string form of a reference: the path, then `?` and the
/// query when one is present, then `#` and the fragment when one is present.
pub open spec fn compose(p: Seq<char>, q: Option<Seq<char>>, f: Option<Seq<char>>) -> Seq<char> {
    p + opt_mark('?', q) + opt_mark('#', f)
}

/// A well-formed path: nonempty, absolute, and free of the two delimiters.
pub open spec fn path_wf(p: Seq<char>) -> bool {
    p.len() > 0 && p[0] == '/' && no_char(p, '?') && no_char(p, '#')
}

/// A well-formed query: free of the fragment delimiter.
pub open spec fn query_wf(q: Option<Seq<char>>) -> bool {
    q matches Some(x) ==> no_char(x, '#')
}

/// Splitting inverts composition on well-formed components.
pub proof fn lemma_split_compose(p: Seq<char>, q: Option<Seq<char>>, f: Option<Seq<char>>)
    requires
        path_wf(p),
        query_wf(q),
    ensures
        split_path(compose(p, q, f)) == p,
        split_query(compose(p, q, f)) == q,
        split_fragment(compose(p, q, f)) == f,
{
    let s = compose(p, q, f);
    match (q, f) {
        (None, None) => {
            assert(s =~= p);
            lemma_idx_of_is(s, '?', s.len() as int);
            lemma_idx_of_is(s, '#', s.len() as int);
            assert(split_path(s) =~= p);
        },
        (Some(x), None) => {
            assert(s =~= p + (seq!['?'] + x));
            assert((seq!['?'] + x)[0] == '?');
            lemma_idx_of_is(seq!['?'] + x, '?', 0);
            lemma_idx_of_append(p, seq!['?'] + x, '?');
            assert(idx_of(s, '?') == p.len());
            assert(no_char(s, '#'));
            lemma_idx_of_is(s, '#', s.len() as int);
            assert(split_path(s) =~= p);
            assert(s.subrange(p.len() as int + 1, s.len() as int) =~= x);
        },
        (None, Some(y)) => {
            assert(s =~= p + (seq!['#'] + y));
            assert((seq!['#'] + y)[0] == '#');
            lemma_idx_of_is(seq!['#'] + y, '#', 0);
            lemma_idx_of_append(p, seq!['#'] + y, '#');
            assert(idx_of(s, '#') == p.len());
            lemma_idx_of(seq!['#'] + y, '?');
            lemma_idx_of_append(p, seq!['#'] + y, '?');
            assert(idx_of(s, '?') >= p.len());
            if idx_of(s, '?') == p.len() {
                lemma_idx_of(s, '?');
                assert(s[p.len() as int] == '#');
                assert(false);
            }
            assert(split_query(s) is None);
            assert(split_path(s) =~= p);
            assert(s.skip(p.len() as int + 1) =~= y);
        },
        (Some(x), Some(y)) => {
            let a = p + (seq!['?'] + x);
            assert(s =~= a + (seq!['#'] + y));
            assert(s[p.len() as int] == '?');
            lemma_idx_of_is(s, '?', p.len() as int);
            assert((seq!['#'] + y)[0] == '#');
            lemma_idx_of_is(seq!['#'] + y, '#', 0);
            assert(no_char(a, '#'));
            lemma_idx_of_append(a, seq!['#'] + y, '#');
            assert(idx_of(s, '#') == a.len());
            assert(split_path(s) =~= p);
            assert(s.subrange(p.len() as int + 1, a.len() as int) =~= x);
            assert(s.skip(a.len() as int + 1) =~= y);
        },
    }
}

/// Splits a raw reference string into its three components.
pub fn split_str(s: &str) -> (r: (String, Option<String>, Option<String>))
    ensures
        r.0@ == split_path(s@),
        match r.1 {
            Some(qs) => split_query(s@) == Some(qs@),
            None => split_query(s@) is None,
        },
        match r.2 {
            Some(fs) => split_fragment(s@) == Some(fs@),
            None => split_fragment(s@) is None,
        },
{
    let n = s.unicode_len();
    let mut qi: usize = n;
    let mut fi: usize = n;
    let mut i: usize = 0;
    while i < n
        invariant
            n == s@.len(),
            i <= n,
            qi == n || (qi < i && s@[qi as int] == '?'),
            qi == n ==> forall|k: int| 0 <= k < i ==> s@[k] != '?',
            forall|k: int| 0 <= k < min2(qi as int, i as int) ==> s@[k] != '?',
            fi == n || (fi < i && s@[fi as int] == '#'),
            fi == n ==> forall|k: int| 0 <= k < i ==> s@[k] != '#',
            forall|k: int| 0 <= k < min2(fi as int, i as int) ==> s@[k] != '#',
        decreases n - i,
    {
        let c = s.get_char(i);
        if c == '?' && qi == n {
            qi = i;
        }
        if c == '#' && fi == n {
            fi = i;
        }
        i = i + 1;
    }
    proof {
        lemma_idx_of_is(s@, '?', qi as int);
        lemma_idx_of_is(s@, '#', fi as int);
    }
    let m = if qi <= fi {
        qi
    } else {
        fi
    };
    let path = String::from_str(s.substring_char(0, m));
    let query = if qi < fi {
        Some(String::from_str(s.substring_char(qi + 1, fi)))
    } else {
        None
    };
    let fragment = if fi < n {
        Some(String::from_str(s.substring_char(fi + 1, n)))
    } else {
        None
    };
    proof {
        assert(path@ =~= split_path(s@));
    }
    (path, query, fragment)
}

} // verus!
