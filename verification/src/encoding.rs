//! Percent-encoding and form-urlencoding.
//!
//! Each component of a reference has its own set of reserved characters; an
//! encoder maps a reserved character to `%` followed by two uppercase
//! hexadecimal digits and leaves every other character alone. Characters
//! outside the ASCII range are never escaped: the grammar of this library
//! admits them literally in every component.

use vstd::prelude::*;

verus! {

/// The hexadecimal digit for a value below sixteen, uppercase.
pub open spec fn hex_digit(n: int) -> char {
    if n == 0 {
        '0'
    } else if n == 1 {
        '1'
    } else if n == 2 {
        '2'
    } else if n == 3 {
        '3'
    } else if n == 4 {
        '4'
    } else if n == 5 {
        '5'
    } else if n == 6 {
        '6'
    } else if n == 7 {
        '7'
    } else if n == 8 {
        '8'
    } else if n == 9 {
        '9'
    } else if n == 10 {
        'A'
    } else if n == 11 {
        'B'
    } else if n == 12 {
        'C'
    } else if n == 13 {
        'D'
    } else if n == 14 {
        'E'
    } else {
        'F'
    }
}

/// A character that may stand after `%` in a percent-escape.
pub open spec fn is_hex_char(c: char) -> bool {
    ('0' <= c && c <= '9') || ('A' <= c && c <= 'F') || ('a' <= c && c <= 'f')
}

/// The value of a hexadecimal digit.
pub open spec fn hex_val(c: char) -> int {
    if '0' <= c && c <= '9' {
        c as int - '0' as int
    } else if 'A' <= c && c <= 'F' {
        c as int - 'A' as int + 10
    } else {
        c as int - 'a' as int + 10
    }
}

/// Every `%` in `s` is followed by two hexadecimal digits.
pub open spec fn pct_ok(s: Seq<char>) -> bool
    decreases s.len(),
{
    if s.len() == 0 {
        true
    } else if s[0] == '%' {
        s.len() >= 3 && is_hex_char(s[1]) && is_hex_char(s[2]) && pct_ok(s.skip(3))
    } else {
        pct_ok(s.skip(1))
    }
}

/// The three-character escape of an ASCII character.
pub open spec fn pct_triple(c: char) -> Seq<char> {
    seq!['%', hex_digit(c as int / 16), hex_digit(c as int % 16)]
}

/// The components an encoder can serve; each has its own reserved set.
#[derive(Clone, Copy)]
pub enum Mode {
    /// A full path: `?` and `#` would be taken for the query and fragment
    /// delimiters, so they are escaped.
    Path,
    /// A query: only `#` would end it early.
    Query,
    /// A single path segment: besides the component delimiters, `/` would
    /// split the segment in two and `%` would be taken for an escape.
    Segment,
    /// A form-urlencoded key or value: everything is escaped but ASCII
    /// letters and digits, `*`, `-`, `.` and `_`; space becomes `+`.
    Form,
}

/// A character that `m`-encoding keeps literally (space aside, which the
/// form mode turns into `+`).
pub open spec fn mode_plain(m: Mode, c: char) -> bool {
    match m {
        Mode::Path => c != '?' && c != '#',
        Mode::Query => c != '#',
        Mode::Segment => c != '/' && c != '?' && c != '#' && c != '%',
        Mode::Form => ('0' <= c && c <= '9') || ('A' <= c && c <= 'Z') || ('a' <= c && c <= 'z')
            || c == '*' || c == '-' || c == '.' || c == '_' || (c as int) >= 128,
    }
}

/// Encoding of one character.
pub open spec fn enc_char(m: Mode, c: char) -> Seq<char> {
    if (m matches Mode::Form) && c == ' ' {
        seq!['+']
    } else if mode_plain(m, c) {
        seq![c]
    } else {
        pct_triple(c)
    }
}

/// Encoding of a string, character by character.
pub open spec fn enc(m: Mode, s: Seq<char>) -> Seq<char>
    decreases s.len(),
{
    if s.len() == 0 {
        Seq::empty()
    } else {
        enc_char(m, s[0]) + enc(m, s.skip(1))
    }
}

/// `s` holds no occurrence of `c`.
pub open spec fn no_char(s: Seq<char>, c: char) -> bool {
    forall|i: int| 0 <= i < s.len() ==> s[i] != c
}

/// An encoder never emits a character that it escapes, so the delimiters of
/// the surrounding components cannot reappear in its output.
pub proof fn lemma_enc_no_char(m: Mode, s: Seq<char>, d: char)
    requires
        !mode_plain(m, d),
        d != '%',
        d != '+',
        !is_hex_char(d),
    ensures
        no_char(enc(m, s), d),
    decreases s.len(),
{
    if s.len() > 0 {
        lemma_enc_no_char(m, s.skip(1), d);
        assert(forall|n: int| is_hex_char(#[trigger] hex_digit(n)));
        assert(forall|i: int|
            0 <= i < enc_char(m, s[0]).len() ==> #[trigger] enc_char(m, s[0])[i] != d);
        assert(forall|i: int| 0 <= i < enc(m, s).len() ==> #[trigger] enc(m, s)[i] != d) by {
            assert(enc(m, s) == enc_char(m, s[0]) + enc(m, s.skip(1)));
        }
    }
}

/// Path encoding leaves a string without `?` and `#` untouched.
pub proof fn lemma_enc_path_id(s: Seq<char>)
    requires
        no_char(s, '?'),
        no_char(s, '#'),
    ensures
        enc(Mode::Path, s) == s,
    decreases s.len(),
{
    if s.len() == 0 {
        assert(enc(Mode::Path, s) =~= s);
    } else {
        assert(s.skip(1)[0] == s[1] || s.len() == 1);
        lemma_enc_path_id(s.skip(1));
        assert(enc_char(Mode::Path, s[0]) == seq![s[0]]);
        assert(enc(Mode::Path, s) =~= s);
    }
}

/// A well-escaped string followed by another stays well escaped.
pub proof fn lemma_pct_ok_concat(a: Seq<char>, b: Seq<char>)
    requires
        pct_ok(a),
        pct_ok(b),
    ensures
        pct_ok(a + b),
    decreases a.len(),
{
    if a.len() == 0 {
        assert(a + b =~= b);
    } else if a[0] == '%' {
        assert((a + b).skip(3) =~= a.skip(3) + b);
        lemma_pct_ok_concat(a.skip(3), b);
    } else {
        assert((a + b).skip(1) =~= a.skip(1) + b);
        lemma_pct_ok_concat(a.skip(1), b);
    }
}

/// Appends one hexadecimal digit.
fn append_hex_digit(out: &mut String, d: u32)
    requires
        d < 16,
    ensures
        final(out)@ == old(out)@ + seq![hex_digit(d as int)],
{
    proof {
        reveal_strlit("0");
        reveal_strlit("1");
        reveal_strlit("2");
        reveal_strlit("3");
        reveal_strlit("4");
        reveal_strlit("5");
        reveal_strlit("6");
        reveal_strlit("7");
        reveal_strlit("8");
        reveal_strlit("9");
        reveal_strlit("A");
        reveal_strlit("B");
        reveal_strlit("C");
        reveal_strlit("D");
        reveal_strlit("E");
        reveal_strlit("F");
    }
    if d == 0 {
        out.append("0");
    } else if d == 1 {
        out.append("1");
    } else if d == 2 {
        out.append("2");
    } else if d == 3 {
        out.append("3");
    } else if d == 4 {
        out.append("4");
    } else if d == 5 {
        out.append("5");
    } else if d == 6 {
        out.append("6");
    } else if d == 7 {
        out.append("7");
    } else if d == 8 {
        out.append("8");
    } else if d == 9 {
        out.append("9");
    } else if d == 10 {
        out.append("A");
    } else if d == 11 {
        out.append("B");
    } else if d == 12 {
        out.append("C");
    } else if d == 13 {
        out.append("D");
    } else if d == 14 {
        out.append("E");
    } else {
        out.append("F");
    }
    assert(out@ =~= old(out)@ + seq![hex_digit(d as int)]);
}

/// Appends the percent-escape of an ASCII character.
fn append_pct(out: &mut String, c: char)
    requires
        (c as int) < 128,
    ensures
        final(out)@ == old(out)@ + pct_triple(c),
{
    proof {
        reveal_strlit("%");
    }
    out.append("%");
    let x = c as u32;
    append_hex_digit(out, x / 16);
    append_hex_digit(out, x % 16);
    assert(out@ =~= old(out)@ + pct_triple(c));
}

/// Whether `m`-encoding keeps `c` literally.
fn plain(m: Mode, c: char) -> (r: bool)
    ensures
        r == mode_plain(m, c),
{
    match m {
        Mode::Path => c != '?' && c != '#',
        Mode::Query => c != '#',
        Mode::Segment => c != '/' && c != '?' && c != '#' && c != '%',
        Mode::Form => ('0' <= c && c <= '9') || ('A' <= c && c <= 'Z') || ('a' <= c && c <= 'z')
            || c == '*' || c == '-' || c == '.' || c == '_' || (c as u32) >= 128,
    }
}

/// Encodes a string for the component `m` names.
pub fn encode(m: Mode, s: &str) -> (r: String)
    ensures
        r@ == enc(m, s@),
{
    let n = s.unicode_len();
    let mut out = String::new();
    let mut i: usize = 0;
    proof {
        assert(s@.skip(0) =~= s@);
        assert(out@ + enc(m, s@.skip(0)) =~= enc(m, s@));
    }
    while i < n
        invariant
            n == s@.len(),
            i <= n,
            out@ + enc(m, s@.skip(i as int)) == enc(m, s@),
        decreases n - i,
    {
        let c = s.get_char(i);
        let ghost rest = s@.skip(i as int);
        proof {
            assert(rest[0] == s@[i as int]);
            assert(rest.skip(1) =~= s@.skip(i as int + 1));
        }
        let is_form = matches!(m, Mode::Form);
        if is_form && c == ' ' {
            proof {
                reveal_strlit("+");
            }
            out.append("+");
        } else if plain(m, c) {
            let piece = s.substring_char(i, i + 1);
            assert(piece@ =~= seq![s@[i as int]]);
            out.append(piece);
        } else {
            append_pct(&mut out, c);
        }
        assert(out@ + enc(m, s@.skip(i as int + 1)) =~= enc(m, s@));
        i = i + 1;
    }
    proof {
        assert(s@.skip(n as int) =~= Seq::empty());
        assert(out@ =~= enc(m, s@));
    }
    out
}

/// Whether `c` may stand after `%` in a percent-escape.
fn hex_char(c: char) -> (r: bool)
    ensures
        r == is_hex_char(c),
{
    ('0' <= c && c <= '9') || ('A' <= c && c <= 'F') || ('a' <= c && c <= 'f')
}

/// Checks that every `%` in `s` is followed by two hexadecimal digits.
pub fn pct_ok_str(s: &str) -> (r: bool)
    ensures
        r == pct_ok(s@),
{
    let n = s.unicode_len();
    let mut i: usize = 0;
    proof {
        assert(s@.skip(0) =~= s@);
    }
    while i < n
        invariant
            n == s@.len(),
            i <= n,
            pct_ok(s@) == pct_ok(s@.skip(i as int)),
        decreases n - i,
    {
        let ghost rest = s@.skip(i as int);
        proof {
            assert(rest[0] == s@[i as int]);
        }
        let c = s.get_char(i);
        if c == '%' {
            if n - i < 3 || !hex_char(s.get_char(i + 1)) || !hex_char(s.get_char(i + 2)) {
                proof {
                    if rest.len() >= 3 {
                        assert(rest[1] == s@[i as int + 1]);
                        assert(rest[2] == s@[i as int + 2]);
                    }
                    assert(!pct_ok(rest));
                }
                return false;
            }
            proof {
                assert(rest[1] == s@[i as int + 1]);
                assert(rest[2] == s@[i as int + 2]);
                assert(rest.skip(3) =~= s@.skip(i as int + 3));
            }
            i = i + 3;
        } else {
            proof {
                assert(rest.skip(1) =~= s@.skip(i as int + 1));
            }
            i = i + 1;
        }
    }
    proof {
        assert(s@.skip(i as int) =~= Seq::empty());
    }
    true
}

} // verus!
