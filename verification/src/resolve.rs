//! Resolution of a relative reference against a base: path merging and
//! dot-segment removal.
//!
//! A path always starts with `/` and is read as the sequence of segments
//! between the slashes. Resolution merges the input path with the base path
//! when the input is relative, then removes `.` and `..` segments: a `..`
//! removes the previously kept segment if there is one and is dropped
//! silently otherwise, and a trailing `.` or `..` leaves a trailing slash.

use vstd::prelude::*;
use crate::encoding::no_char;
use crate::split::{idx_of, lemma_idx_of, lemma_idx_of_is};

verus! {

/// The pieces of `s` between occurrences of `c`: always one piece more than
/// there are separators, so never empty.
pub open spec fn split_on(s: Seq<char>, c: char) -> Seq<Seq<char>>
    decreases s.len(),
{
    let i = idx_of(s, c);
    if 0 <= i && i < s.len() {
        seq![s.take(i)] + split_on(s.skip(i + 1), c)
    } else {
        seq![s]
    }
}

/// The pieces, joined again with `/` between them — without a leading slash.
pub open spec fn rest_join(ss: Seq<Seq<char>>) -> Seq<char>
    decreases ss.len(),
{
    if ss.len() == 0 {
        Seq::empty()
    } else {
        seq!['/'] + ss[0] + rest_join(ss.skip(1))
    }
}

/// The pieces joined with `/` between them.
pub open spec fn join_segs(ss: Seq<Seq<char>>) -> Seq<char> {
    if ss.len() == 0 {
        Seq::empty()
    } else {
        ss[0] + rest_join(ss.skip(1))
    }
}

/// The path whose segments are `ss`: a leading slash, then the segments.
pub open spec fn path_of(ss: Seq<Seq<char>>) -> Seq<char> {
    seq!['/'] + join_segs(ss)
}

/// The segments of a path that starts with `/`.
pub open spec fn segments_of(p: Seq<char>) -> Seq<Seq<char>> {
    split_on(p.skip(1), '/')
}

/// Splitting yields at least one piece.
pub proof fn lemma_split_on_ge1(s: Seq<char>, c: char)
    ensures
        split_on(s, c).len() >= 1,
{
}

/// Joining the pieces of `s` gives `s` back.
pub proof fn lemma_join_split(s: Seq<char>)
    ensures
        join_segs(split_on(s, '/')) == s,
    decreases s.len(),
{
    let i = idx_of(s, '/');
    lemma_idx_of(s, '/');
    if 0 <= i && i < s.len() {
        lemma_join_split(s.skip(i + 1));
        lemma_split_on_ge1(s.skip(i + 1), '/');
        let rest = split_on(s.skip(i + 1), '/');
        assert((seq![s.take(i)] + rest).skip(1) =~= rest);
        assert(rest_join(rest) == seq!['/'] + rest[0] + rest_join(rest.skip(1)));
        assert(join_segs(split_on(s, '/')) =~= s.take(i) + seq!['/'] + s.skip(i + 1));
        assert(s.take(i) + seq!['/'] + s.skip(i + 1) =~= s);
    } else {
        assert(join_segs(split_on(s, '/')) =~= s);
    }
}

/// No piece of `s` holds the separator, nor any character absent from `s`.
pub proof fn lemma_split_on_elems(s: Seq<char>, c: char, d: char)
    requires
        d == c || no_char(s, d),
    ensures
        forall|j: int|
            0 <= j < split_on(s, c).len() ==> no_char(#[trigger] split_on(s, c)[j], d),
    decreases s.len(),
{
    let i = idx_of(s, c);
    lemma_idx_of(s, c);
    if 0 <= i && i < s.len() {
        assert(forall|k: int|
            0 <= k < s.skip(i + 1).len() ==> #[trigger] s.skip(i + 1)[k] == s[k + i + 1]);
        lemma_split_on_elems(s.skip(i + 1), c, d);
        assert(no_char(s.take(i), d));
        assert(forall|j: int|
            0 <= j < split_on(s, c).len() ==> no_char(#[trigger] split_on(s, c)[j], d)) by {
            let rest = split_on(s.skip(i + 1), c);
            assert(forall|j: int|
                1 <= j < split_on(s, c).len() ==> split_on(s, c)[j] == rest[j - 1]);
        }
    }
}

/// Joined pieces hold no character that no piece holds, the separator aside.
pub proof fn lemma_rest_join_no_char(ss: Seq<Seq<char>>, d: char)
    requires
        d != '/',
        forall|j: int| 0 <= j < ss.len() ==> no_char(#[trigger] ss[j], d),
    ensures
        no_char(rest_join(ss), d),
    decreases ss.len(),
{
    if ss.len() > 0 {
        assert(forall|j: int| 0 <= j < ss.skip(1).len() ==> ss.skip(1)[j] == ss[j + 1]);
        lemma_rest_join_no_char(ss.skip(1), d);
        assert(forall|k: int|
            0 <= k < rest_join(ss).len() ==> #[trigger] rest_join(ss)[k] != d) by {
            assert(rest_join(ss) == seq!['/'] + ss[0] + rest_join(ss.skip(1)));
        }
    }
}

/// The path made of delimiter-free segments is free of that delimiter.
pub proof fn lemma_path_of_no_char(ss: Seq<Seq<char>>, d: char)
    requires
        d != '/',
        forall|j: int| 0 <= j < ss.len() ==> no_char(#[trigger] ss[j], d),
    ensures
        no_char(path_of(ss), d),
{
    if ss.len() > 0 {
        assert(forall|j: int| 0 <= j < ss.skip(1).len() ==> ss.skip(1)[j] == ss[j + 1]);
        lemma_rest_join_no_char(ss.skip(1), d);
    }
}

/// One step of dot-segment removal: how the kept segments change when the
/// next input segment is `seg` and `last` says whether it closes the input.
pub open spec fn rds_step(acc: Seq<Seq<char>>, seg: Seq<char>, last: bool) -> Seq<Seq<char>> {
    if seg == seq!['.'] {
        if last {
            acc.push(Seq::empty())
        } else {
            acc
        }
    } else if seg == seq!['.', '.'] {
        let up = if acc.len() > 0 {
            acc.drop_last()
        } else {
            acc
        };
        if last {
            up.push(Seq::empty())
        } else {
            up
        }
    } else {
        acc.push(seg)
    }
}

/// Dot-segment removal over the remaining input segments.
pub open spec fn rds_go(acc: Seq<Seq<char>>, rest: Seq<Seq<char>>) -> Seq<Seq<char>>
    decreases rest.len(),
{
    if rest.len() == 0 {
        acc
    } else {
        rds_go(rds_step(acc, rest[0], rest.len() == 1), rest.skip(1))
    }
}

/// Dot-segment removal of a whole path that starts with `/`.
pub open spec fn rds(p: Seq<char>) -> Seq<char> {
    path_of(rds_go(Seq::empty(), segments_of(p)))
}

/// Removal of a nonempty input keeps at least one segment.
pub proof fn lemma_rds_go_len(acc: Seq<Seq<char>>, rest: Seq<Seq<char>>)
    requires
        rest.len() >= 1,
    ensures
        rds_go(acc, rest).len() >= 1,
    decreases rest.len(),
{
    let acc2 = rds_step(acc, rest[0], rest.len() == 1);
    assert(rds_go(acc, rest) == rds_go(acc2, rest.skip(1)));
    if rest.len() > 1 {
        lemma_rds_go_len(acc2, rest.skip(1));
    } else {
        assert(rds_go(acc2, rest.skip(1)) == acc2);
    }
}

/// Removal introduces no character that the inputs do not hold.
pub proof fn lemma_rds_go_no_char(acc: Seq<Seq<char>>, rest: Seq<Seq<char>>, d: char)
    requires
        forall|j: int| 0 <= j < acc.len() ==> no_char(#[trigger] acc[j], d),
        forall|j: int| 0 <= j < rest.len() ==> no_char(#[trigger] rest[j], d),
    ensures
        forall|j: int|
            0 <= j < rds_go(acc, rest).len() ==> no_char(#[trigger] rds_go(acc, rest)[j], d),
    decreases rest.len(),
{
    if rest.len() > 0 {
        let acc2 = rds_step(acc, rest[0], rest.len() == 1);
        assert(rds_go(acc, rest) == rds_go(acc2, rest.skip(1)));
        assert(forall|j: int| 0 <= j < acc2.len() ==> no_char(#[trigger] acc2[j], d));
        assert(forall|j: int|
            0 <= j < rest.skip(1).len() ==> #[trigger] rest.skip(1)[j] == rest[j + 1]);
        lemma_rds_go_no_char(acc2, rest.skip(1), d);
    }
}

/// Removal is the identity on inputs without dot segments.
pub proof fn lemma_rds_go_id(acc: Seq<Seq<char>>, rest: Seq<Seq<char>>)
    requires
        forall|j: int|
            0 <= j < rest.len() ==> #[trigger] rest[j] != seq!['.'] && rest[j] != seq!['.', '.'],
    ensures
        rds_go(acc, rest) == acc + rest,
    decreases rest.len(),
{
    if rest.len() == 0 {
        assert(acc + rest =~= acc);
    } else {
        assert(forall|j: int| 0 <= j < rest.skip(1).len() ==> rest.skip(1)[j] == rest[j + 1]);
        lemma_rds_go_id(acc.push(rest[0]), rest.skip(1));
        assert(acc.push(rest[0]) + rest.skip(1) =~= acc + rest);
    }
}

/// The path holds no dot segments.
pub open spec fn no_dots(p: Seq<char>) -> bool {
    forall|j: int|
        0 <= j < segments_of(p).len() ==> #[trigger] segments_of(p)[j] != seq!['.']
            && segments_of(p)[j] != seq!['.', '.']
}

/// Removal is the identity on a path without dot segments.
pub proof fn lemma_rds_id(p: Seq<char>)
    requires
        p.len() > 0,
        p[0] == '/',
        no_dots(p),
    ensures
        rds(p) == p,
{
    lemma_rds_go_id(Seq::empty(), segments_of(p));
    assert(Seq::<Seq<char>>::empty() + segments_of(p) =~= segments_of(p));
    lemma_join_split(p.skip(1));
    assert(path_of(segments_of(p)) =~= p);
}

/// The index of the last `/` in `p`, or `-1` when there is none.
pub open spec fn last_slash(p: Seq<char>) -> int
    decreases p.len(),
{
    if p.len() == 0 {
        -1
    } else if p[p.len() - 1] == '/' {
        p.len() - 1
    } else {
        last_slash(p.drop_last())
    }
}

/// What `last_slash` returns.
pub proof fn lemma_last_slash(p: Seq<char>)
    ensures
        -1 <= last_slash(p) < p.len(),
        last_slash(p) >= 0 ==> p[last_slash(p)] == '/',
        forall|k: int| last_slash(p) < k < p.len() ==> p[k] != '/',
        p.len() > 0 && p[0] == '/' ==> last_slash(p) >= 0,
    decreases p.len(),
{
    if p.len() > 0 && p[p.len() - 1] != '/' {
        lemma_last_slash(p.drop_last());
        assert(forall|k: int| 0 <= k < p.len() - 1 ==> p.drop_last()[k] == p[k]);
    }
}

/// A position with the last-occurrence property is `last_slash`.
pub proof fn lemma_last_slash_is(p: Seq<char>, i: int)
    requires
        0 <= i < p.len(),
        p[i] == '/',
        forall|k: int| i < k < p.len() ==> p[k] != '/',
    ensures
        last_slash(p) == i,
    decreases p.len(),
{
    if p[p.len() - 1] != '/' {
        assert(forall|k: int| 0 <= k < p.len() - 1 ==> p.drop_last()[k] == p[k]);
        lemma_last_slash_is(p.drop_last(), i);
    }
}

/// The merge of a base path with a relative path: everything in the base up
/// to and including its last slash, then the relative path.
pub open spec fn merge(base: Seq<char>, rel: Seq<char>) -> Seq<char> {
    base.take(last_slash(base) + 1) + rel
}

/// The resolved path: an empty input keeps the base path, an absolute input
/// replaces it, and a relative input is merged onto the base; dot segments
/// are removed in the two latter cases.
pub open spec fn resolved_path(bp: Seq<char>, rp: Seq<char>) -> Seq<char> {
    if rp.len() == 0 {
        bp
    } else if rp[0] == '/' {
        rds(rp)
    } else {
        rds(merge(bp, rp))
    }
}

/// The resolved query: the input query, except that an input with neither a
/// path nor a query keeps the base query.
pub open spec fn resolved_query(
    bq: Option<Seq<char>>,
    rp: Seq<char>,
    rq: Option<Seq<char>>,
) -> Option<Seq<char>> {
    if rp.len() == 0 && rq is None {
        bq
    } else {
        rq
    }
}

/// Dot-segment removal yields a well-formed path from delimiter-free input.
pub proof fn lemma_rds_wf(p: Seq<char>)
    requires
        p.len() > 0,
        p[0] == '/',
        no_char(p, '?'),
        no_char(p, '#'),
    ensures
        crate::split::path_wf(rds(p)),
{
    let tail = p.skip(1);
    assert(no_char(tail, '?'));
    assert(no_char(tail, '#'));
    lemma_split_on_elems(tail, '/', '?');
    lemma_split_on_elems(tail, '/', '#');
    let segs = segments_of(p);
    lemma_rds_go_no_char(Seq::empty(), segs, '?');
    lemma_rds_go_no_char(Seq::empty(), segs, '#');
    lemma_path_of_no_char(rds_go(Seq::empty(), segs), '?');
    lemma_path_of_no_char(rds_go(Seq::empty(), segs), '#');
}

/// Splits `s` into the pieces between its slashes.
pub fn split_slash(s: &str) -> (r: Vec<String>)
    ensures
        r.deep_view() == split_on(s@, '/'),
{
    let n = s.unicode_len();
    let mut out: Vec<String> = Vec::new();
    let mut start: usize = 0;
    proof {
        assert(s@.skip(0) =~= s@);
        assert(out.deep_view() + split_on(s@, '/') =~~= split_on(s@, '/'));
    }
    let mut done = false;
    while !done
        invariant
            n == s@.len(),
            start <= n,
            !done ==> split_on(s@, '/') == out.deep_view() + split_on(s@.skip(start as int), '/'),
            done ==> out.deep_view() == split_on(s@, '/'),
        decreases n - start, (if done { 0int } else { 1int }),
    {
        let ghost rest = s@.skip(start as int);
        proof {
            assert(forall|k: int| 0 <= k < rest.len() ==> #[trigger] rest[k] == s@[k + start]);
        }
        let mut j = start;
        while j < n && s.get_char(j) != '/'
            invariant
                n == s@.len(),
                start <= j <= n,
                forall|k: int| start <= k < j ==> s@[k] != '/',
            decreases n - j,
        {
            j = j + 1;
        }
        proof {
            lemma_idx_of_is(rest, '/', j - start);
        }
        let piece = String::from_str(s.substring_char(start, j));
        let ghost before = out.deep_view();
        out.push(piece);
        proof {
            assert(out.deep_view() =~~= before.push(piece@));
        }
        if j < n {
            proof {
                assert(piece@ =~= rest.take(j - start));
                assert(rest.skip(j - start + 1) =~= s@.skip(j + 1));
                assert(split_on(rest, '/') == seq![rest.take(j - start)] + split_on(
                    rest.skip(j - start + 1),
                    '/',
                ));
                assert(before.push(piece@) + split_on(s@.skip(j + 1), '/') =~~= before + split_on(
                    rest,
                    '/',
                ));
            }
            start = j + 1;
        } else {
            proof {
                assert(piece@ =~= rest);
                assert(split_on(rest, '/') == seq![rest]);
                assert(before.push(piece@) =~~= before + split_on(rest, '/'));
            }
            done = true;
        }
    }
    out
}

/// The path whose segments are the given pieces.
pub fn path_from_segments(v: &Vec<String>) -> (r: String)
    requires
        v@.len() >= 1,
    ensures
        r@ == path_of(v.deep_view()),
{
    proof {
        reveal_strlit("/");
    }
    let ghost dv = v.deep_view();
    let mut out = String::from_str("/");
    out.append(v[0].as_str());
    proof {
        assert(dv.skip(0).skip(1) =~~= dv.skip(1));
        assert(out@ + rest_join(dv.skip(1)) =~= path_of(dv));
    }
    let n = v.len();
    let mut j: usize = 1;
    while j < n
        invariant
            n == v@.len(),
            dv == v.deep_view(),
            1 <= j <= n,
            out@ + rest_join(dv.skip(j as int)) == path_of(dv),
        decreases n - j,
    {
        proof {
            reveal_strlit("/");
            assert(dv[j as int] == v@[j as int]@);
            assert(dv.skip(j as int)[0] == dv[j as int]);
            assert(dv.skip(j as int).skip(1) =~~= dv.skip(j as int + 1));
            assert(rest_join(dv.skip(j as int)) == seq!['/'] + dv.skip(j as int)[0] + rest_join(
                dv.skip(j as int).skip(1),
            ));
        }
        out.append("/");
        out.append(v[j].as_str());
        proof {
            assert(out@ + rest_join(dv.skip(j as int + 1)) =~= path_of(dv));
        }
        j = j + 1;
    }
    proof {
        assert(rest_join(dv.skip(n as int)) =~= Seq::empty());
        assert(out@ =~= path_of(dv));
    }
    out
}

/// Whether the segment is a single dot.
fn is_dot(s: &String) -> (r: bool)
    ensures
        r == (s@ == seq!['.']),
{
    if s.as_str().unicode_len() == 1 && s.as_str().get_char(0) == '.' {
        proof {
            assert(s@ =~= seq!['.']);
        }
        true
    } else {
        proof {
            assert(s@ != seq!['.']) by {
                if s@ == seq!['.'] {
                    assert(s@.len() == 1 && s@[0] == '.');
                }
            }
        }
        false
    }
}

/// Whether the segment is a double dot.
fn is_dotdot(s: &String) -> (r: bool)
    ensures
        r == (s@ == seq!['.', '.']),
{
    if s.as_str().unicode_len() == 2 && s.as_str().get_char(0) == '.' && s.as_str().get_char(1)
        == '.' {
        proof {
            assert(s@ =~= seq!['.', '.']);
        }
        true
    } else {
        proof {
            assert(s@ != seq!['.', '.']) by {
                if s@ == seq!['.', '.'] {
                    assert(s@.len() == 2 && s@[0] == '.' && s@[1] == '.');
                }
            }
        }
        false
    }
}

/// Removes the dot segments of a path that starts with `/`.
pub fn remove_dot_segments(p: &str) -> (r: String)
    requires
        p@.len() >= 1,
        p@[0] == '/',
    ensures
        r@ == rds(p@),
{
    let n = p.unicode_len();
    let tail = p.substring_char(1, n);
    proof {
        assert(tail@ =~= p@.skip(1));
    }
    let segs = split_slash(tail);
    let ghost all = segs.deep_view();
    proof {
        assert(all == segments_of(p@));
        lemma_split_on_ge1(p@.skip(1), '/');
    }
    let m = segs.len();
    let mut stack: Vec<String> = Vec::new();
    let mut i: usize = 0;
    proof {
        assert(all.skip(0) =~~= all);
        assert(stack.deep_view() =~~= Seq::<Seq<char>>::empty());
    }
    while i < m
        invariant
            m == all.len(),
            all == segs.deep_view(),
            i <= m,
            rds_go(Seq::empty(), all) == rds_go(stack.deep_view(), all.skip(i as int)),
        decreases m - i,
    {
        let ghost before = stack.deep_view();
        proof {
            assert(all.skip(i as int)[0] == all[i as int]);
            assert(all.skip(i as int).skip(1) =~~= all.skip(i as int + 1));
            assert(rds_go(before, all.skip(i as int)) == rds_go(
                rds_step(before, all[i as int], i + 1 == m),
                all.skip(i as int + 1),
            ));
        }
        let seg = &segs[i];
        proof {
            assert(seg@ == all[i as int]);
        }
        let last = i + 1 == m;
        if is_dot(seg) {
            if last {
                stack.push(String::new());
            }
        } else if is_dotdot(seg) {
            if stack.len() > 0 {
                stack.pop();
            }
            if last {
                stack.push(String::new());
            }
        } else {
            stack.push(seg.clone());
        }
        proof {
            assert(stack.deep_view() =~~= rds_step(before, all[i as int], i + 1 == m));
        }
        i = i + 1;
    }
    proof {
        assert(all.skip(m as int) =~~= Seq::<Seq<char>>::empty());
        assert(stack.deep_view() == rds_go(Seq::empty(), all));
        lemma_rds_go_len(Seq::empty(), all);
        assert(stack@.len() == stack.deep_view().len());
    }
    path_from_segments(&stack)
}

/// Merges a base path that starts with `/` with a relative path.
pub fn merge_paths(base: &str, rel: &str) -> (r: String)
    requires
        base@.len() >= 1,
        base@[0] == '/',
    ensures
        r@ == merge(base@, rel@),
{
    let n = base.unicode_len();
    let mut ls: usize = 0;
    let mut i: usize = 1;
    while i < n
        invariant
            n == base@.len(),
            1 <= i <= n,
            ls < i,
            base@[ls as int] == '/',
            forall|k: int| ls < k < i ==> base@[k] != '/',
        decreases n - i,
    {
        if base.get_char(i) == '/' {
            ls = i;
        }
        i = i + 1;
    }
    proof {
        lemma_last_slash_is(base@, ls as int);
    }
    let mut r = String::from_str(base.substring_char(0, ls + 1));
    r.append(rel);
    proof {
        assert(r@ =~= merge(base@, rel@));
    }
    r
}

} // verus!
