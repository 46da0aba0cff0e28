//! The relative reference value type and its editable views.

use vstd::prelude::*;
use crate::ReferenceParseError;
use crate::encoding::{enc, lemma_enc_no_char, no_char, pct_ok, pct_ok_str, encode, Mode};
use crate::form::{pairs_view, parse_pairs, parse_query_pairs};
use crate::split::{compose, lemma_idx_of, path_wf, query_wf, split_fragment, split_path,
    split_query, split_str};
use crate::resolve::{lemma_path_of_no_char, lemma_rds_wf, lemma_split_on_elems,
    lemma_split_on_ge1, merge_paths, path_from_segments, path_of, remove_dot_segments,
    resolved_path, resolved_query, segments_of, split_slash, lemma_last_slash};

verus! {

/// The view of an optional component.
pub open spec fn opt_view(o: Option<String>) -> Option<Seq<char>> {
    match o {
        Some(s) => Some(s@),
        None => None,
    }
}

/// Clones an optional component.
fn opt_clone(o: &Option<String>) -> (r: Option<String>)
    ensures
        opt_view(r) == opt_view(*o),
{
    match o {
        Some(s) => Some(s.clone()),
        None => None,
    }
}

/// Whether two optional components are equal.
fn opt_eq(a: &Option<String>, b: &Option<String>) -> (r: bool)
    ensures
        r == (opt_view(*a) == opt_view(*b)),
{
    match a {
        Some(x) => match b {
            Some(y) => *x == *y,
            None => false,
        },
        None => b.is_none(),
    }
}

/// The relative reference: a path, an optional query and an optional
/// fragment. The path always starts with `/` and holds neither `?` nor `#`;
/// the query holds no `#`; so the string form can always be split back into
/// the same three components.
#[derive(Clone, Debug)]
pub struct Uri {
    path: String,
    query: Option<String>,
    fragment: Option<String>,
}

impl Uri {
    /// The path component.
    pub closed spec fn path_view(&self) -> Seq<char> {
        self.path@
    }

    /// The query component, if any.
    pub closed spec fn query_view(&self) -> Option<Seq<char>> {
        opt_view(self.query)
    }

    /// The fragment component, if any.
    pub closed spec fn fragment_view(&self) -> Option<Seq<char>> {
        opt_view(self.fragment)
    }

    /// The well-formedness every reference keeps: an absolute,
    /// delimiter-free path and a query free of `#`.
    pub open spec fn wf(&self) -> bool {
        path_wf(self.path_view()) && query_wf(self.query_view())
    }

    /// The canonical string form.
    pub open spec fn ser(&self) -> Seq<char> {
        compose(self.path_view(), self.query_view(), self.fragment_view())
    }
}

impl Default for Uri {
    /// The default reference: path `/`, no query, no fragment.
    fn default() -> (r: Self)
        ensures
            r.wf(),
            r.path_view() == seq!['/'],
            r.query_view() is None,
            r.fragment_view() is None,
    {
        proof {
            reveal_strlit("/");
        }
        let r = Uri { path: String::from_str("/"), query: None, fragment: None };
        proof {
            assert(r.path_view() =~= seq!['/']);
        }
        r
    }
}

/// Create a new base `Uri`.
pub fn uri() -> (r: Uri)
    ensures
        r.wf(),
        r.path_view() == seq!['/'],
        r.query_view() is None,
        r.fragment_view() is None,
{
    Uri::default()
}

impl PartialEq for Uri {
    /// Two references are equal exactly when their three components are.
    fn eq(&self, other: &Self) -> (r: bool) {
        self.path == other.path && opt_eq(&self.query, &other.query) && opt_eq(
            &self.fragment,
            &other.fragment,
        )
    }
}

impl vstd::std_specs::cmp::PartialEqSpecImpl for Uri {
    open spec fn obeys_eq_spec() -> bool {
        true
    }

    open spec fn eq_spec(&self, other: &Uri) -> bool {
        self.path_view() == other.path_view() && self.query_view() == other.query_view()
            && self.fragment_view() == other.fragment_view()
    }
}

impl Uri {
    /// Create a new `Uri` from a path-query-fragment `str`, resolved against
    /// the default base `/`. Fails exactly on a malformed percent-escape.
    pub fn new(input: &str) -> (r: Result<Self, ReferenceParseError>)
        ensures
            r is Ok <==> pct_ok(input@),
            r matches Ok(u) ==> u.wf() && u.path_view() == resolved_path(
                seq!['/'],
                split_path(input@),
            ) && u.query_view() == resolved_query(None, split_path(input@), split_query(input@))
                && u.fragment_view() == split_fragment(input@),
    {
        let base = Uri::default();
        base.join(input)
    }

    /// Parse a string as a reference, with this reference as the base: the
    /// standard relative resolution, dot segments removed. Fails exactly on
    /// a malformed percent-escape; the base is never touched.
    pub fn join(&self, input: &str) -> (r: Result<Self, ReferenceParseError>)
        requires
            self.wf(),
        ensures
            r is Ok <==> pct_ok(input@),
            r matches Ok(u) ==> u.wf() && u.path_view() == resolved_path(
                self.path_view(),
                split_path(input@),
            ) && u.query_view() == resolved_query(
                self.query_view(),
                split_path(input@),
                split_query(input@),
            ) && u.fragment_view() == split_fragment(input@),
    {
        if !pct_ok_str(input) {
            return Err(ReferenceParseError);
        }
        proof {
            lemma_idx_of(input@, '?');
            lemma_idx_of(input@, '#');
        }
        let (p, q, f) = split_str(input);
        let ghost rp = split_path(input@);
        proof {
            assert(no_char(rp, '?'));
            assert(no_char(rp, '#'));
        }
        let keep_query = p.as_str().unicode_len() == 0 && q.is_none();
        let path = if p.as_str().unicode_len() == 0 {
            self.path.clone()
        } else if p.as_str().get_char(0) == '/' {
            proof {
                lemma_rds_wf(rp);
            }
            remove_dot_segments(p.as_str())
        } else {
            let m = merge_paths(self.path.as_str(), p.as_str());
            proof {
                lemma_last_slash(self.path_view());
                assert(m@[0] == '/');
                assert(no_char(m@, '?'));
                assert(no_char(m@, '#'));
                lemma_rds_wf(m@);
            }
            remove_dot_segments(m.as_str())
        };
        let query = if keep_query {
            opt_clone(&self.query)
        } else {
            q
        };
        let u = Uri { path, query, fragment: f };
        proof {
            assert(u.wf());
        }
        Ok(u)
    }

    /// The serialization of this reference: the path, `?` and the query when
    /// one is present, `#` and the fragment when one is present.
    pub fn as_str(&self) -> (r: String)
        ensures
            r@ == self.ser(),
    {
        let mut out = self.path.clone();
        match &self.query {
            Some(qs) => {
                proof {
                    reveal_strlit("?");
                }
                out.append("?");
                out.append(qs.as_str());
            },
            None => {},
        }
        match &self.fragment {
            Some(fs) => {
                proof {
                    reveal_strlit("#");
                }
                out.append("#");
                out.append(fs.as_str());
            },
            None => {},
        }
        proof {
            assert(out@ =~= self.ser());
        }
        out
    }

    /// The path, as a percent-encoded string.
    pub fn path(&self) -> (r: &str)
        ensures
            r@ == self.path_view(),
    {
        self.path.as_str()
    }

    /// The query, if any, as a percent-encoded string.
    pub fn query(&self) -> (r: Option<&str>)
        ensures
            match r {
                Some(s) => self.query_view() == Some(s@),
                None => self.query_view() is None,
            },
    {
        match &self.query {
            Some(s) => Some(s.as_str()),
            None => None,
        }
    }

    /// The fragment, if any.
    pub fn fragment(&self) -> (r: Option<&str>)
        ensures
            match r {
                Some(s) => self.fragment_view() == Some(s@),
                None => self.fragment_view() is None,
            },
    {
        match &self.fragment {
            Some(s) => Some(s.as_str()),
            None => None,
        }
    }

    /// Change the path. A `?` or `#` in the input is escaped and a missing
    /// leading slash is supplied.
    pub fn set_path(&mut self, path: &str)
        requires
            old(self).wf(),
        ensures
            final(self).wf(),
            final(self).path_view() == abs_path(enc(Mode::Path, path@)),
            final(self).query_view() == old(self).query_view(),
            final(self).fragment_view() == old(self).fragment_view(),
    {
        proof {
            lemma_enc_no_char(Mode::Path, path@, '?');
            lemma_enc_no_char(Mode::Path, path@, '#');
        }
        let e = encode(Mode::Path, path);
        if e.as_str().unicode_len() > 0 && e.as_str().get_char(0) == '/' {
            self.path = e;
        } else {
            proof {
                reveal_strlit("/");
            }
            let mut s = String::from_str("/");
            s.append(e.as_str());
            proof {
                assert(s@ =~= seq!['/'] + e@);
            }
            self.path = s;
        }
    }

    /// Change the query. A `#` in the input is escaped.
    pub fn set_query(&mut self, query: Option<&str>)
        requires
            old(self).wf(),
        ensures
            final(self).wf(),
            final(self).query_view() == match query {
                Some(s) => Some(enc(Mode::Query, s@)),
                None => None::<Seq<char>>,
            },
            final(self).path_view() == old(self).path_view(),
            final(self).fragment_view() == old(self).fragment_view(),
    {
        match query {
            Some(s) => {
                proof {
                    lemma_enc_no_char(Mode::Query, s@, '#');
                }
                self.query = Some(encode(Mode::Query, s));
            },
            None => {
                self.query = None;
            },
        }
    }

    /// Change the fragment; it is stored as given.
    pub fn set_fragment(&mut self, fragment: Option<&str>)
        requires
            old(self).wf(),
        ensures
            final(self).wf(),
            final(self).fragment_view() == match fragment {
                Some(s) => Some(s@),
                None => None::<Seq<char>>,
            },
            final(self).path_view() == old(self).path_view(),
            final(self).query_view() == old(self).query_view(),
    {
        match fragment {
            Some(s) => {
                self.fragment = Some(String::from_str(s));
            },
            None => {
                self.fragment = None;
            },
        }
    }

    /// Change the path inline.
    pub fn with_path(self, path: &str) -> (r: Self)
        requires
            self.wf(),
        ensures
            r.wf(),
            r.path_view() == abs_path(enc(Mode::Path, path@)),
            r.query_view() == self.query_view(),
            r.fragment_view() == self.fragment_view(),
    {
        let mut u = self;
        u.set_path(path);
        u
    }

    /// Change the query inline.
    pub fn with_query(self, query: Option<&str>) -> (r: Self)
        requires
            self.wf(),
        ensures
            r.wf(),
            r.query_view() == match query {
                Some(s) => Some(enc(Mode::Query, s@)),
                None => None::<Seq<char>>,
            },
            r.path_view() == self.path_view(),
            r.fragment_view() == self.fragment_view(),
    {
        let mut u = self;
        u.set_query(query);
        u
    }

    /// Change the fragment inline.
    pub fn with_fragment(self, fragment: Option<&str>) -> (r: Self)
        requires
            self.wf(),
        ensures
            r.wf(),
            r.fragment_view() == match fragment {
                Some(s) => Some(s@),
                None => None::<Seq<char>>,
            },
            r.path_view() == self.path_view(),
            r.query_view() == self.query_view(),
    {
        let mut u = self;
        u.set_fragment(fragment);
        u
    }
}

/// The path of a `set_path` call: the encoded input, a leading slash
/// supplied when it is missing.
pub open spec fn abs_path(p: Seq<char>) -> Seq<char> {
    if p.len() > 0 && p[0] == '/' {
        p
    } else {
        seq!['/'] + p
    }
}

/// A segment free of the characters that would break the path apart.
pub open spec fn seg_ok(s: Seq<char>) -> bool {
    no_char(s, '/') && no_char(s, '?') && no_char(s, '#')
}

/// Where a pushed segment lands: a trailing empty segment is replaced, so a
/// path ending in `/` grows without doubling the slash; anything else is
/// appended.
pub open spec fn pushed(ss: Seq<Seq<char>>, e: Seq<char>) -> Seq<Seq<char>> {
    if ss.len() > 0 && ss.last() == Seq::<char>::empty() {
        ss.drop_last().push(e)
    } else {
        ss.push(e)
    }
}

/// The segments after a pop: the last one goes, except that the implicit
/// root — a single segment — only empties.
pub open spec fn popped(ss: Seq<Seq<char>>) -> Seq<Seq<char>> {
    if ss.len() > 1 {
        ss.drop_last()
    } else {
        seq![Seq::<char>::empty()]
    }
}

/// The segments after every item is pushed in turn, each segment-encoded.
pub open spec fn extended(ss: Seq<Seq<char>>, items: Seq<Seq<char>>) -> Seq<Seq<char>>
    decreases items.len(),
{
    if items.len() == 0 {
        ss
    } else {
        extended(pushed(ss, enc(Mode::Segment, items[0])), items.skip(1))
    }
}

/// An editable snapshot of a reference's path segments, percent-encoded.
/// Taken with [`Uri::path_segments_mut`], edited by value, and committed
/// with [`Uri::set_path_segments`] or through
/// [`Uri::with_path_segments_mut`].
pub struct PathView {
    segs: Vec<String>,
}

impl PathView {
    /// The percent-encoded segments; there is always at least one.
    pub closed spec fn segs_view(&self) -> Seq<Seq<char>> {
        self.segs.deep_view()
    }

    #[verifier::type_invariant]
    spec fn inv(self) -> bool {
        self.segs_view().len() >= 1 && forall|j: int|
            0 <= j < self.segs_view().len() ==> seg_ok(#[trigger] self.segs_view()[j])
    }

    /// Append one segment, percent-encoding its reserved characters.
    pub fn push(self, segment: &str) -> (r: Self)
        ensures
            r.segs_view() == pushed(self.segs_view(), enc(Mode::Segment, segment@)),
    {
        proof {
            use_type_invariant(&self);
            lemma_enc_no_char(Mode::Segment, segment@, '/');
            lemma_enc_no_char(Mode::Segment, segment@, '?');
            lemma_enc_no_char(Mode::Segment, segment@, '#');
        }
        let e = encode(Mode::Segment, segment);
        let ghost before = self.segs.deep_view();
        let ghost target = pushed(before, enc(Mode::Segment, segment@));
        let mut v = self.segs;
        let n = v.len();
        let last_empty = v[n - 1].as_str().unicode_len() == 0;
        if last_empty {
            let _ = v.pop();
            proof {
                assert(v.deep_view() =~~= before.drop_last());
            }
        }
        v.push(e);
        proof {
            if last_empty {
                assert(before.last() =~= Seq::<char>::empty());
                assert(v.deep_view() =~~= before.drop_last().push(e@));
            } else {
                assert(before.last() != Seq::<char>::empty());
                assert(v.deep_view() =~~= before.push(e@));
            }
            assert(v.deep_view() == target);
            assert(seg_ok(e@));
            assert(forall|j: int|
                0 <= j < target.len() ==> seg_ok(#[trigger] target[j]));
        }
        let r = PathView { segs: v };
        r
    }

    /// Push every item in turn.
    pub fn extend(self, segments: &[&str]) -> (r: Self)
        ensures
            r.segs_view() == extended(self.segs_view(), segments.deep_view()),
    {
        let ghost items = segments.deep_view();
        let ghost start = self.segs_view();
        let mut cur = self;
        let n = segments.len();
        let mut i: usize = 0;
        proof {
            assert(items.skip(0) =~~= items);
        }
        while i < n
            invariant
                n == segments@.len(),
                items == segments.deep_view(),
                i <= n,
                extended(start, items) == extended(cur.segs_view(), items.skip(i as int)),
            decreases n - i,
        {
            proof {
                assert(items.skip(i as int)[0] == items[i as int]);
                assert(items.skip(i as int).skip(1) =~~= items.skip(i as int + 1));
                assert(items[i as int] == segments@[i as int]@);
            }
            cur = cur.push(segments[i]);
            i = i + 1;
        }
        proof {
            assert(items.skip(n as int) =~~= Seq::<Seq<char>>::empty());
        }
        cur
    }

    /// Remove the last segment; the implicit root always remains.
    pub fn pop(self) -> (r: Self)
        ensures
            r.segs_view() == popped(self.segs_view()),
    {
        proof {
            use_type_invariant(&self);
        }
        let ghost before = self.segs.deep_view();
        let mut v = self.segs;
        if v.len() > 1 {
            let _ = v.pop();
            proof {
                assert(v.deep_view() =~~= before.drop_last());
                assert(forall|j: int|
                    0 <= j < v.deep_view().len() ==> seg_ok(#[trigger] v.deep_view()[j]));
            }
            let r = PathView { segs: v };
            r
        } else {
            let mut w: Vec<String> = Vec::new();
            w.push(String::new());
            let r = PathView { segs: w };
            proof {
                assert(r.segs_view() =~~= seq![Seq::<char>::empty()]);
            }
            r
        }
    }

    /// Reset to the root: one empty segment, the path `/`.
    pub fn clear(self) -> (r: Self)
        ensures
            r.segs_view() == seq![Seq::<char>::empty()],
    {
        let mut v: Vec<String> = Vec::new();
        v.push(String::new());
        let r = PathView { segs: v };
        proof {
            assert(r.segs_view() =~~= seq![Seq::<char>::empty()]);
        }
        r
    }
}

/// The query string after one form-urlencoded pair is appended.
pub open spec fn appended_pair(q: Seq<char>, k: Seq<char>, v: Seq<char>) -> Seq<char> {
    let pair = enc(Mode::Form, k) + seq!['='] + enc(Mode::Form, v);
    if q.len() == 0 {
        pair
    } else {
        q + seq!['&'] + pair
    }
}

/// An editable snapshot of a reference's query string, seen as a sequence of
/// form-urlencoded pairs. Taken with [`Uri::query_pairs_mut`], edited by
/// value, and committed with [`Uri::set_query_pairs`] or through
/// [`Uri::with_query_pairs_mut`].
pub struct QueryView {
    q: String,
}

impl QueryView {
    /// The raw, form-urlencoded query string.
    pub closed spec fn query_str(&self) -> Seq<char> {
        self.q@
    }

    #[verifier::type_invariant]
    spec fn inv(self) -> bool {
        no_char(self.q@, '#')
    }

    /// Append one key/value pair, form-urlencoded: space becomes `+`, every
    /// other reserved character a percent-escape.
    pub fn append_pair(self, key: &str, value: &str) -> (r: Self)
        ensures
            r.query_str() == appended_pair(self.query_str(), key@, value@),
    {
        proof {
            use_type_invariant(&self);
            lemma_enc_no_char(Mode::Form, key@, '#');
            lemma_enc_no_char(Mode::Form, value@, '#');
            reveal_strlit("&");
            reveal_strlit("=");
        }
        let mut q = self.q;
        if q.as_str().unicode_len() > 0 {
            q.append("&");
        }
        let ek = encode(Mode::Form, key);
        let ev = encode(Mode::Form, value);
        q.append(ek.as_str());
        q.append("=");
        q.append(ev.as_str());
        let r = QueryView { q };
        proof {
            assert(r.query_str() =~= appended_pair(self.query_str(), key@, value@));
        }
        r
    }

    /// Remove all pairs. A cleared view commits to an empty — but present —
    /// query; dropping the query entirely is [`Uri::set_query`] with `None`.
    pub fn clear(self) -> (r: Self)
        ensures
            r.query_str() == Seq::<char>::empty(),
    {
        QueryView { q: String::new() }
    }
}

impl Uri {
    /// The `/`-separated path segments, percent-encoded.
    pub fn path_segments(&self) -> (r: Vec<String>)
        requires
            self.wf(),
        ensures
            r.deep_view() == segments_of(self.path_view()),
    {
        let n = self.path.as_str().unicode_len();
        let tail = self.path.as_str().substring_char(1, n);
        proof {
            assert(tail@ =~= self.path_view().skip(1));
        }
        split_slash(tail)
    }

    /// An editable view of the path segments; commit it with
    /// `set_path_segments`, or edit in place with `with_path_segments_mut`.
    pub fn path_segments_mut(&self) -> (r: PathView)
        requires
            self.wf(),
        ensures
            r.segs_view() == segments_of(self.path_view()),
    {
        let ghost tail = self.path_view().skip(1);
        proof {
            assert(forall|k: int|
                0 <= k < tail.len() ==> #[trigger] tail[k] == self.path_view()[k + 1]);
            lemma_split_on_ge1(tail, '/');
            lemma_split_on_elems(tail, '/', '/');
            lemma_split_on_elems(tail, '/', '?');
            lemma_split_on_elems(tail, '/', '#');
        }
        let segs = self.path_segments();
        PathView { segs }
    }

    /// Replace the path by the view's segments.
    pub fn set_path_segments(&mut self, view: PathView)
        requires
            old(self).wf(),
        ensures
            final(self).wf(),
            final(self).path_view() == path_of(view.segs_view()),
            final(self).query_view() == old(self).query_view(),
            final(self).fragment_view() == old(self).fragment_view(),
    {
        proof {
            use_type_invariant(&view);
            lemma_path_of_no_char(view.segs_view(), '?');
            lemma_path_of_no_char(view.segs_view(), '#');
            assert(view.segs@.len() == view.segs_view().len());
        }
        let p = path_from_segments(&view.segs);
        self.path = p;
    }

    /// Edit the path segments inline: the closure receives the current
    /// segments and what it returns is committed.
    pub fn with_path_segments_mut<F: FnOnce(PathView) -> PathView>(self, f: F) -> (r: Self)
        requires
            self.wf(),
            forall|v: PathView|
                v.segs_view() == segments_of(self.path_view()) ==> #[trigger] call_requires(
                    f,
                    (v,),
                ),
        ensures
            r.wf(),
            r.query_view() == self.query_view(),
            r.fragment_view() == self.fragment_view(),
            exists|v: PathView, w: PathView|
                v.segs_view() == segments_of(self.path_view()) && #[trigger] call_ensures(
                    f,
                    (v,),
                    w,
                ) && r.path_view() == path_of(w.segs_view()),
    {
        let v = self.path_segments_mut();
        let ghost gv = v;
        let w = f(v);
        let ghost gw = w;
        let mut u = self;
        u.set_path_segments(w);
        proof {
            assert(gv.segs_view() == segments_of(self.path_view()) && call_ensures(f, (gv,), gw)
                && u.path_view() == path_of(gw.segs_view()));
        }
        u
    }

    /// The query, if any, parsed as form-urlencoded decoded key/value pairs.
    pub fn query_pairs(&self) -> (r: Vec<(String, String)>)
        requires
            self.wf(),
        ensures
            match self.query_view() {
                Some(qs) => pairs_view(r@) == parse_pairs(qs),
                None => r@.len() == 0,
            },
    {
        match &self.query {
            Some(s) => parse_query_pairs(s.as_str()),
            None => Vec::new(),
        }
    }

    /// The query string as an editable sequence of pairs; the pairs already
    /// present are kept. Commit with `set_query_pairs`, or edit in place
    /// with `with_query_pairs_mut`.
    pub fn query_pairs_mut(&self) -> (r: QueryView)
        requires
            self.wf(),
        ensures
            r.query_str() == match self.query_view() {
                Some(q) => q,
                None => Seq::<char>::empty(),
            },
    {
        match &self.query {
            Some(s) => QueryView { q: s.clone() },
            None => QueryView { q: String::new() },
        }
    }

    /// Replace the query by the view's pairs. Even an empty view leaves a
    /// present, empty query.
    pub fn set_query_pairs(&mut self, view: QueryView)
        requires
            old(self).wf(),
        ensures
            final(self).wf(),
            final(self).query_view() == Some(view.query_str()),
            final(self).path_view() == old(self).path_view(),
            final(self).fragment_view() == old(self).fragment_view(),
    {
        proof {
            use_type_invariant(&view);
        }
        let QueryView { q } = view;
        self.query = Some(q);
    }

    /// Edit the query pairs inline: the closure receives the current query
    /// and what it returns is committed.
    pub fn with_query_pairs_mut<F: FnOnce(QueryView) -> QueryView>(self, f: F) -> (r: Self)
        requires
            self.wf(),
            forall|v: QueryView|
                v.query_str() == (match self.query_view() {
                    Some(q) => q,
                    None => Seq::<char>::empty(),
                }) ==> #[trigger] call_requires(f, (v,)),
        ensures
            r.wf(),
            r.path_view() == self.path_view(),
            r.fragment_view() == self.fragment_view(),
            exists|v: QueryView, w: QueryView|
                v.query_str() == (match self.query_view() {
                    Some(q) => q,
                    None => Seq::<char>::empty(),
                }) && #[trigger] call_ensures(f, (v,), w) && r.query_view() == Some(w.query_str()),
    {
        let v = self.query_pairs_mut();
        let ghost gv = v;
        let w = f(v);
        let ghost gw = w;
        let mut u = self;
        u.set_query_pairs(w);
        proof {
            assert(gv.query_str() == (match self.query_view() {
                Some(q) => q,
                None => Seq::<char>::empty(),
            }) && call_ensures(f, (gv,), gw) && u.query_view() == Some(gw.query_str()));
        }
        u
    }
}

} // verus!
