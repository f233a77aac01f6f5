//! Cleaning terminal output: ANSI escape sequences and blank lines.

use vstd::prelude::*;
use crate::text::{
    chars_of, is_ws, lemma_trim_shape, lemma_without_char_absent, remove_char, string_of, trim,
    trim_chars, without_char,
};

verus! {

/// `s` after an escape character: everything up to and including the first
/// `m`, or all of it where there is none.
pub open spec fn skip_escape(s: Seq<char>) -> Seq<char>
    decreases s.len(),
{
    if s.len() == 0 {
        s
    } else if s[0] == 'm' {
        s.drop_first()
    } else {
        skip_escape(s.drop_first())
    }
}

pub proof fn lemma_skip_escape_len(s: Seq<char>)
    ensures
        skip_escape(s).len() <= s.len(),
    decreases s.len(),
{
    if s.len() > 0 && s[0] != 'm' {
        lemma_skip_escape_len(s.drop_first());
    }
}

/// `s` without its ANSI escape sequences: each escape character is dropped
/// together with what follows it up to and including the next `m`.
pub open spec fn strip_ansi_seq(s: Seq<char>) -> Seq<char>
    decreases s.len(),
{
    if s.len() == 0 {
        seq![]
    } else if s[0] == '\u{1b}' {
        proof {
            lemma_skip_escape_len(s.drop_first());
        }
        strip_ansi_seq(skip_escape(s.drop_first()))
    } else {
        seq![s[0]] + strip_ansi_seq(s.drop_first())
    }
}

/// `s` with its ANSI escape sequences removed.
pub fn strip_ansi(s: &str) -> (r: String)
    ensures
        r@ == strip_ansi_seq(s@),
{
    let v = chars_of(s);
    let mut out: Vec<char> = Vec::new();
    let mut in_escape = false;
    let mut i: usize = 0;
    assert(v@.skip(0) == v@);
    while i < v.len()
        invariant
            i <= v@.len(),
            !in_escape ==> strip_ansi_seq(v@) == out@ + strip_ansi_seq(v@.skip(i as int)),
            in_escape ==> strip_ansi_seq(v@) == out@ + strip_ansi_seq(skip_escape(v@.skip(i as int))),
        decreases v@.len() - i,
    {
        let c = v[i];
        let ghost rest = v@.skip(i as int);
        assert(rest.drop_first() == v@.skip(i + 1));
        assert(rest[0] == c);
        if in_escape {
            if c == 'm' {
                in_escape = false;
            }
        } else if c == '\u{1b}' {
            in_escape = true;
        } else {
            let ghost o = out@;
            out.push(c);
            assert(out@ + strip_ansi_seq(v@.skip(i + 1)) =~= o + (seq![c] + strip_ansi_seq(
                v@.skip(i + 1),
            )));
        }
        i = i + 1;
    }
    proof {
        assert(v@.skip(i as int) =~= Seq::<char>::empty());
        assert(out@ + Seq::<char>::empty() =~= out@);
    }
    string_of(out.as_slice())
}

/// A line of command output as it is kept: escape sequences and carriage
/// returns removed, trimmed, and dropped where nothing is left.
pub open spec fn cleaned_output_line(l: Seq<char>) -> Option<Seq<char>> {
    let t = trim(without_char(strip_ansi_seq(l), '\r'));
    if t.len() == 0 {
        None
    } else {
        Some(t)
    }
}

/// A kept line is not empty and holds no carriage return, no escape
/// character, and no white space at either end.
pub proof fn lemma_cleaned_line_shape(l: Seq<char>)
    ensures
        cleaned_output_line(l) matches Some(t) ==> {
            &&& t.len() > 0
            &&& !t.contains('\r')
            &&& !t.contains('\u{1b}')
            &&& !is_ws(t[0])
            &&& !is_ws(t.last())
        },
{
    let st = strip_ansi_seq(l);
    lemma_strip_ansi_clean(l);
    lemma_without_char_absent(st, '\r');
    lemma_without_char_keeps_out(st, '\r', '\u{1b}');
    lemma_trim_shape(without_char(st, '\r'), '\r');
    lemma_trim_shape(without_char(st, '\r'), '\u{1b}');
}

proof fn lemma_without_char_keeps_out(s: Seq<char>, c: char, d: char)
    requires
        !s.contains(d),
    ensures
        !without_char(s, c).contains(d),
    decreases s.len(),
{
    if s.len() > 0 {
        assert(!s.drop_last().contains(d)) by {
            if s.drop_last().contains(d) {
                let k = choose|k: int| 0 <= k < s.drop_last().len() && s.drop_last()[k] == d;
                assert(s[k] == d);
            }
        }
        lemma_without_char_keeps_out(s.drop_last(), c, d);
        let p = without_char(s.drop_last(), c);
        if s.last() != c {
            let r = p.push(s.last());
            if r.contains(d) {
                let k = choose|k: int| 0 <= k < r.len() && r[k] == d;
                if k < p.len() {
                    assert(p[k] == d);
                } else {
                    assert(s[s.len() - 1] == d);
                }
            }
        }
    }
}

/// Cleans a line that `bluetoothctl` wrote; `None` where nothing is left.
pub fn clean_output_line(line: &str) -> (r: Option<String>)
    ensures
        r matches Some(t) ==> cleaned_output_line(line@) == Some(t@),
        r is None ==> cleaned_output_line(line@) is None,
        r matches Some(t) ==> t@.len() > 0 && !t@.contains('\r') && !is_ws(t@[0]) && !is_ws(t@.last()),
{
    proof {
        lemma_cleaned_line_shape(line@);
    }
    let stripped = strip_ansi(line);
    let sv = chars_of(stripped.as_str());
    let no_cr = remove_char(sv.as_slice(), '\r');
    let t = trim_chars(no_cr.as_slice());
    if t.len() == 0 {
        None
    } else {
        Some(string_of(t.as_slice()))
    }
}

/// Text without an escape character is left as it is.
pub proof fn lemma_strip_ansi_plain(s: Seq<char>)
    requires
        !s.contains('\u{1b}'),
    ensures
        strip_ansi_seq(s) == s,
    decreases s.len(),
{
    if s.len() > 0 {
        assert(s[0] != '\u{1b}');
        assert(!s.drop_first().contains('\u{1b}')) by {
            if s.drop_first().contains('\u{1b}') {
                let k = choose|k: int| 0 <= k < s.drop_first().len() && s.drop_first()[k] == '\u{1b}';
                assert(s[k + 1] == '\u{1b}');
            }
        }
        lemma_strip_ansi_plain(s.drop_first());
        assert(seq![s[0]] + s.drop_first() =~= s);
    }
}

/// The result holds no escape character, and is never longer than the input.
pub proof fn lemma_strip_ansi_clean(s: Seq<char>)
    ensures
        !strip_ansi_seq(s).contains('\u{1b}'),
        strip_ansi_seq(s).len() <= s.len(),
    decreases s.len(),
{
    if s.len() > 0 {
        if s[0] == '\u{1b}' {
            lemma_skip_escape_len(s.drop_first());
            lemma_strip_ansi_clean(skip_escape(s.drop_first()));
        } else {
            lemma_strip_ansi_clean(s.drop_first());
            let r = strip_ansi_seq(s);
            let t = strip_ansi_seq(s.drop_first());
            assert(r == seq![s[0]] + t);
            if r.contains('\u{1b}') {
                let k = choose|k: int| 0 <= k < r.len() && r[k] == '\u{1b}';
                if k > 0 {
                    assert(t[k - 1] == '\u{1b}');
                }
            }
        }
    }
}

/// Stripping twice strips no more than stripping once.
pub proof fn lemma_strip_ansi_idempotent(s: Seq<char>)
    ensures
        strip_ansi_seq(strip_ansi_seq(s)) == strip_ansi_seq(s),
{
    lemma_strip_ansi_clean(s);
    lemma_strip_ansi_plain(strip_ansi_seq(s));
}

} // verus!
