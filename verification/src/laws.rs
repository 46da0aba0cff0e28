//! The laws of the reference engine, stated once over the spec functions
//! that the public contracts use.

use vstd::prelude::*;
use crate::encoding::{enc, lemma_enc_no_char, lemma_enc_path_id, lemma_pct_ok_concat, no_char,
    pct_ok, Mode};
use crate::reference::{abs_path, Uri};
use crate::resolve::{lemma_rds_id, no_dots, path_of, resolved_path, resolved_query};
use crate::split::{lemma_idx_of, lemma_idx_of_is, lemma_split_compose, split_fragment, split_path,
    split_query};

verus! {

/// A plain absolute path — no `?` or `#`, no dot segments, well-formed
/// escapes — parses to itself: `Uri::new` succeeds, its path is exactly the
/// input, and there is neither query nor fragment.
pub proof fn lemma_new_plain_path(s: Seq<char>)
    requires
        s.len() > 0,
        s[0] == '/',
        no_char(s, '?'),
        no_char(s, '#'),
        no_dots(s),
        pct_ok(s),
    ensures
        resolved_path(seq!['/'], split_path(s)) == s,
        split_query(s) is None,
        split_fragment(s) is None,
{
    lemma_idx_of_is(s, '?', s.len() as int);
    lemma_idx_of_is(s, '#', s.len() as int);
    assert(split_path(s) =~= s);
    lemma_rds_id(s);
}

/// A path without `?` or `#` goes through `set_path` unchanged, but for the
/// leading slash: encoding it is the identity.
pub proof fn lemma_set_path_plain(p: Seq<char>)
    requires
        no_char(p, '?'),
        no_char(p, '#'),
    ensures
        abs_path(enc(Mode::Path, p)) == abs_path(p),
{
    lemma_enc_path_id(p);
}

/// Path encoding is idempotent: encoding an already-encoded path changes
/// nothing, so `set_path` applied to its own output is the identity.
pub proof fn lemma_path_encoding_idempotent(s: Seq<char>)
    ensures
        enc(Mode::Path, enc(Mode::Path, s)) == enc(Mode::Path, s),
{
    lemma_enc_no_char(Mode::Path, s, '?');
    lemma_enc_no_char(Mode::Path, s, '#');
    lemma_enc_path_id(enc(Mode::Path, s));
}

/// Round trip: parsing the string form of a well-formed reference whose
/// path has no dot segments and whose components are well escaped gives a
/// reference with the same three components back.
pub proof fn lemma_round_trip(u: Uri)
    requires
        u.wf(),
        no_dots(u.path_view()),
        pct_ok(u.path_view()),
        u.query_view() matches Some(q) ==> pct_ok(q),
        u.fragment_view() matches Some(f) ==> pct_ok(f),
    ensures
        pct_ok(u.ser()),
        resolved_path(seq!['/'], split_path(u.ser())) == u.path_view(),
        resolved_query(None, split_path(u.ser()), split_query(u.ser())) == u.query_view(),
        split_fragment(u.ser()) == u.fragment_view(),
{
    let p = u.path_view();
    let q = u.query_view();
    let f = u.fragment_view();
    lemma_split_compose(p, q, f);
    let mq = crate::split::opt_mark('?', q);
    let mf = crate::split::opt_mark('#', f);
    assert(pct_ok(mq)) by {
        match q {
            Some(x) => {
                assert(pct_ok(Seq::<char>::empty()));
                assert(seq!['?'].skip(1) =~= Seq::<char>::empty());
                assert(pct_ok(seq!['?']));
                lemma_pct_ok_concat(seq!['?'], x);
            },
            None => {},
        }
    }
    assert(pct_ok(mf)) by {
        match f {
            Some(y) => {
                assert(pct_ok(Seq::<char>::empty()));
                assert(seq!['#'].skip(1) =~= Seq::<char>::empty());
                assert(pct_ok(seq!['#']));
                lemma_pct_ok_concat(seq!['#'], y);
            },
            None => {},
        }
    }
    lemma_pct_ok_concat(p, mq);
    lemma_pct_ok_concat(p + mq, mf);
    lemma_rds_id(p);
}

/// Clearing the path segments and committing yields the path `/` exactly —
/// never an empty or absent path.
pub proof fn lemma_cleared_path_is_root()
    ensures
        path_of(seq![Seq::<char>::empty()]) == seq!['/'],
{
    assert(seq![Seq::<char>::empty()].skip(1) =~= Seq::<Seq<char>>::empty());
    assert(path_of(seq![Seq::<char>::empty()]) =~= seq!['/']);
}

/// An input that opens with `?` has an empty path part.
pub proof fn lemma_query_only_input(r: Seq<char>)
    requires
        r.len() > 0,
        r[0] == '?',
    ensures
        split_path(r).len() == 0,
{
    lemma_idx_of(r, '#');
    assert(split_path(r) =~= r.take(0));
}

/// Joining an input with an empty path part — query-only or fragment-only —
/// keeps the base path.
pub proof fn lemma_join_keeps_base_path(bp: Seq<char>, r: Seq<char>)
    requires
        split_path(r).len() == 0,
    ensures
        resolved_path(bp, split_path(r)) == bp,
{
}

} // verus!
