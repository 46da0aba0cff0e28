//! Reading a form-urlencoded query as key/value pairs.
//!
//! Pairs are separated by `&`, a key from its value by the first `=`; a
//! piece without `=` is a key with an empty value, and empty pieces are
//! skipped. Keys and values are decoded: `+` becomes a space and `%XX`, for
//! an ASCII value, the character it names.

use vstd::prelude::*;
use crate::encoding::{hex_val, is_hex_char, no_char};
use crate::split::{idx_of, lemma_idx_of, lemma_idx_of_is};

verus! {

/// Form decoding: `+` is a space; `%` with two hexadecimal digits naming an
/// ASCII value is that character; everything else stands for itself.
pub open spec fn form_decode(s: Seq<char>) -> Seq<char>
    decreases s.len(),
{
    if s.len() == 0 {
        Seq::empty()
    } else if s[0] == '+' {
        seq![' '] + form_decode(s.skip(1))
    } else if s[0] == '%' && s.len() >= 3 && is_hex_char(s[1]) && is_hex_char(s[2]) && hex_val(
        s[1],
    ) * 16 + hex_val(s[2]) < 128 {
        seq![((hex_val(s[1]) * 16 + hex_val(s[2])) as u8) as char] + form_decode(s.skip(3))
    } else {
        seq![s[0]] + form_decode(s.skip(1))
    }
}

/// The decoded pair one piece denotes: key before the first `=`, value
/// after it; no `=` means an empty value.
pub open spec fn pair_of(piece: Seq<char>) -> (Seq<char>, Seq<char>) {
    let e = idx_of(piece, '=');
    if 0 <= e && e < piece.len() {
        (form_decode(piece.take(e)), form_decode(piece.skip(e + 1)))
    } else {
        (form_decode(piece), Seq::empty())
    }
}

/// The decoded pairs of a query string.
pub open spec fn parse_pairs(q: Seq<char>) -> Seq<(Seq<char>, Seq<char>)>
    decreases q.len(),
{
    if q.len() == 0 {
        Seq::empty()
    } else {
        let k = idx_of(q, '&');
        if 0 <= k && k < q.len() {
            (if k == 0 {
                Seq::empty()
            } else {
                seq![pair_of(q.take(k))]
            }) + parse_pairs(q.skip(k + 1))
        } else {
            seq![pair_of(q)]
        }
    }
}

/// The views of a vector of owned pairs.
pub open spec fn pairs_view(v: Seq<(String, String)>) -> Seq<(Seq<char>, Seq<char>)> {
    v.map_values(|p: (String, String)| (p.0@, p.1@))
}

/// Relies on std's `String::push`: appends exactly one character.
#[verifier::external_body]
fn push_char(s: &mut String, c: char)
    ensures
        final(s)@ == old(s)@.push(c),
{
    s.push(c);
}

/// The value of a hexadecimal digit.
fn hex_value(c: char) -> (r: u32)
    requires
        is_hex_char(c),
    ensures
        r == hex_val(c),
{
    let x = c as u32;
    if x >= 97 {
        x - 97 + 10
    } else if x >= 65 {
        x - 65 + 10
    } else {
        x - 48
    }
}

/// Whether `c` may stand after `%` in a percent-escape.
fn hex_char(c: char) -> (r: bool)
    ensures
        r == is_hex_char(c),
{
    ('0' <= c && c <= '9') || ('A' <= c && c <= 'F') || ('a' <= c && c <= 'f')
}

/// Form-decodes one string.
fn form_decode_str(s: &str) -> (r: String)
    ensures
        r@ == form_decode(s@),
{
    let n = s.unicode_len();
    let mut out = String::new();
    let mut i: usize = 0;
    proof {
        assert(s@.skip(0) =~= s@);
        assert(out@ + form_decode(s@.skip(0)) =~= form_decode(s@));
    }
    while i < n
        invariant
            n == s@.len(),
            i <= n,
            out@ + form_decode(s@.skip(i as int)) == form_decode(s@),
        decreases n - i,
    {
        let ghost rest = s@.skip(i as int);
        proof {
            assert(rest[0] == s@[i as int]);
            assert(rest.skip(1) =~= s@.skip(i as int + 1));
            if rest.len() >= 3 {
                assert(rest[1] == s@[i as int + 1]);
                assert(rest[2] == s@[i as int + 2]);
                assert(rest.skip(3) =~= s@.skip(i as int + 3));
            }
        }
        let c = s.get_char(i);
        let mut escaped = false;
        if c == '%' && n - i >= 3 {
            let c1 = s.get_char(i + 1);
            let c2 = s.get_char(i + 2);
            if hex_char(c1) && hex_char(c2) {
                let v = hex_value(c1) * 16 + hex_value(c2);
                if v < 128 {
                    push_char(&mut out, (v as u8) as char);
                    escaped = true;
                    i = i + 3;
                }
            }
        }
        if !escaped {
            if c == '+' {
                push_char(&mut out, ' ');
            } else {
                let piece = s.substring_char(i, i + 1);
                assert(piece@ =~= seq![s@[i as int]]);
                out.append(piece);
            }
            i = i + 1;
        }
        assert(out@ + form_decode(s@.skip(i as int)) =~= form_decode(s@));
    }
    proof {
        assert(s@.skip(n as int) =~= Seq::empty());
        assert(out@ =~= form_decode(s@));
    }
    out
}

/// Decodes one `key=value` piece.
fn parse_one_pair(piece: &str) -> (r: (String, String))
    ensures
        (r.0@, r.1@) == pair_of(piece@),
{
    let n = piece.unicode_len();
    let mut j: usize = 0;
    while j < n && piece.get_char(j) != '='
        invariant
            n == piece@.len(),
            j <= n,
            forall|k: int| 0 <= k < j ==> piece@[k] != '=',
        decreases n - j,
    {
        j = j + 1;
    }
    proof {
        lemma_idx_of_is(piece@, '=', j as int);
    }
    if j < n {
        let key = form_decode_str(piece.substring_char(0, j));
        let value = form_decode_str(piece.substring_char(j + 1, n));
        proof {
            assert(piece@.subrange(0, j as int) =~= piece@.take(j as int));
            assert(piece@.subrange(j as int + 1, n as int) =~= piece@.skip(j as int + 1));
        }
        (key, value)
    } else {
        let key = form_decode_str(piece);
        (key, String::new())
    }
}

/// Parses a whole query string into its decoded pairs.
pub fn parse_query_pairs(q: &str) -> (r: Vec<(String, String)>)
    ensures
        pairs_view(r@) == parse_pairs(q@),
{
    let n = q.unicode_len();
    let mut out: Vec<(String, String)> = Vec::new();
    let mut start: usize = 0;
    let mut done = false;
    proof {
        assert(q@.skip(0) =~= q@);
        assert(pairs_view(out@) + parse_pairs(q@.skip(0)) =~= parse_pairs(q@));
    }
    while !done
        invariant
            n == q@.len(),
            start <= n,
            !done ==> parse_pairs(q@) == pairs_view(out@) + parse_pairs(q@.skip(start as int)),
            done ==> pairs_view(out@) == parse_pairs(q@),
        decreases n - start, (if done { 0int } else { 1int }),
    {
        let ghost rest = q@.skip(start as int);
        proof {
            assert(forall|k: int| 0 <= k < rest.len() ==> #[trigger] rest[k] == q@[k + start]);
        }
        let mut j = start;
        while j < n && q.get_char(j) != '&'
            invariant
                n == q@.len(),
                start <= j <= n,
                forall|k: int| start <= k < j ==> q@[k] != '&',
            decreases n - j,
        {
            j = j + 1;
        }
        proof {
            lemma_idx_of_is(rest, '&', j - start);
        }
        let ghost before = out@;
        if j > start {
            let pair = parse_one_pair(q.substring_char(start, j));
            proof {
                assert(q@.subrange(start as int, j as int) =~= rest.take(j - start));
            }
            out.push(pair);
            proof {
                assert(pairs_view(out@) =~~= pairs_view(before).push(
                    pair_of(rest.take(j - start)),
                ));
            }
        }
        if j < n {
            proof {
                assert(rest.skip(j - start + 1) =~= q@.skip(j + 1));
                assert(pairs_view(out@) + parse_pairs(q@.skip(j + 1)) =~~= pairs_view(before)
                    + parse_pairs(rest));
            }
            start = j + 1;
        } else {
            proof {
                if rest.len() == 0 {
                    assert(parse_pairs(rest) =~= Seq::<(Seq<char>, Seq<char>)>::empty());
                    assert(pairs_view(out@) =~~= pairs_view(before) + parse_pairs(rest));
                } else {
                    assert(parse_pairs(rest) =~= seq![pair_of(rest)]);
                    assert(rest.take(j - start) =~= rest);
                    assert(pairs_view(out@) =~~= pairs_view(before) + parse_pairs(rest));
                }
                assert(pairs_view(out@) =~~= parse_pairs(q@));
            }
            done = true;
        }
    }
    out
}

} // verus!
