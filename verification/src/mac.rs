//! Recognising Bluetooth MAC addresses in `bluetoothctl` output.

use vstd::prelude::*;
use crate::text::{
    trim, trim_chars,
    chars_of, contains_string, count_char, count_chars, lines, split_lines, split_ws, str_views,
    string_of, to_upper, unicode_upper, views, words,
};

verus! {

/// How many bytes the UTF-8 encoding of `c` takes (`char::len_utf8`).
pub open spec fn utf8_width(c: char) -> nat {
    if (c as u32) < 0x80 {
        1
    } else if (c as u32) < 0x800 {
        2
    } else if (c as u32) < 0x10000 {
        3
    } else {
        4
    }
}

/// How many bytes the UTF-8 encoding of `s` takes (`str::len`).
pub open spec fn utf8_len(s: Seq<char>) -> nat
    decreases s.len(),
{
    if s.len() == 0 {
        0
    } else {
        utf8_len(s.drop_last()) + utf8_width(s.last())
    }
}

/// Whether the UTF-8 encoding of `v` takes exactly `n` bytes.
pub fn utf8_len_is(v: &[char], n: usize) -> (b: bool)
    ensures
        b == (utf8_len(v@) == n),
{
    let mut total: usize = 0;
    let mut i: usize = 0;
    while i < v.len()
        invariant
            i <= v@.len(),
            total == utf8_len(v@.take(i as int)),
            total <= n,
        decreases v@.len() - i,
    {
        assert(v@.take(i + 1).drop_last() == v@.take(i as int));
        let c = v[i];
        let w: usize = if (c as u32) < 0x80 {
            1
        } else if (c as u32) < 0x800 {
            2
        } else if (c as u32) < 0x10000 {
            3
        } else {
            4
        };
        if w > n - total {
            proof {
                lemma_utf8_len_prefix(v@, i + 1);
            }
            return false;
        }
        total = total + w;
        i = i + 1;
    }
    assert(v@.take(v@.len() as int) == v@);
    total == n
}

proof fn lemma_utf8_len_prefix(s: Seq<char>, k: int)
    requires
        0 <= k <= s.len(),
    ensures
        utf8_len(s.take(k)) <= utf8_len(s),
    decreases s.len() - k,
{
    if k < s.len() {
        lemma_utf8_len_prefix(s, k + 1);
        assert(s.take(k + 1).drop_last() == s.take(k));
    } else {
        assert(s.take(k) == s);
    }
}

/// Seventeen bytes holding five colons: the shape a word must have to be
/// taken for an address.
pub open spec fn mac_shaped(s: Seq<char>) -> bool {
    utf8_len(s) == 17 && count_char(s, ':') == 5
}

/// Whether `v` has the shape of an address.
pub fn is_mac_shaped(v: &[char]) -> (b: bool)
    ensures
        b == mac_shaped(v@),
{
    utf8_len_is(v, 17) && count_chars(v, ':') == 5
}

/// A colon or a hexadecimal digit.
pub open spec fn hex_or_colon(c: char) -> bool {
    c == ':' || ('0' <= c && c <= '9') || ('a' <= c && c <= 'f') || ('A' <= c && c <= 'F')
}

/// A Bluetooth address: seventeen bytes, five colons, nothing but colons and
/// hexadecimal digits.
pub open spec fn is_mac(s: Seq<char>) -> bool {
    &&& mac_shaped(s)
    &&& forall|i: int| 0 <= i < s.len() ==> hex_or_colon(#[trigger] s[i])
}

/// Whether `v` is a Bluetooth address.
pub fn is_mac_chars(v: &[char]) -> (b: bool)
    ensures
        b == is_mac(v@),
{
    if !is_mac_shaped(v) {
        return false;
    }
    let mut i: usize = 0;
    while i < v.len()
        invariant
            i <= v@.len(),
            forall|k: int| 0 <= k < i ==> hex_or_colon(#[trigger] v@[k]),
        decreases v@.len() - i,
    {
        let c = v[i];
        if !(c == ':' || ('0' <= c && c <= '9') || ('a' <= c && c <= 'f') || ('A' <= c && c <= 'F')) {
            return false;
        }
        i = i + 1;
    }
    true
}

proof fn lemma_ascii_upper_keeps_mac(s: Seq<char>)
    requires
        forall|i: int| 0 <= i < s.len() ==> hex_or_colon(#[trigger] s[i]),
    ensures
        utf8_len(crate::text::ascii_upper_seq(s)) == utf8_len(s),
        count_char(crate::text::ascii_upper_seq(s), ':') == count_char(s, ':'),
        forall|i: int| 0 <= i < s.len() ==> hex_or_colon(#[trigger] crate::text::ascii_upper_seq(s)[i]),
    decreases s.len(),
{
    let u = crate::text::ascii_upper_seq(s);
    if s.len() > 0 {
        let p = s.drop_last();
        assert forall|i: int| 0 <= i < p.len() implies hex_or_colon(#[trigger] p[i]) by {
            assert(p[i] == s[i]);
        }
        lemma_ascii_upper_keeps_mac(p);
        assert(u.drop_last() =~= crate::text::ascii_upper_seq(p));
        let c = s.last();
        assert(hex_or_colon(c));
        assert(u.last() == crate::text::ascii_upper(c));
        assert((c as u32) < 0x80);
        assert((crate::text::ascii_upper(c) as u32) < 0x80);
    }
}

/// Upper-casing the ASCII letters of an address gives an address.
pub proof fn lemma_ascii_upper_mac(s: Seq<char>)
    requires
        is_mac(s),
    ensures
        is_mac(crate::text::ascii_upper_seq(s)),
{
    lemma_ascii_upper_keeps_mac(s);
}

/// `acc` followed by the items of `xs` that are not in it yet, each once,
/// in the order they come.
pub open spec fn add_missing(acc: Seq<Seq<char>>, xs: Seq<Seq<char>>) -> Seq<Seq<char>>
    decreases xs.len(),
{
    if xs.len() == 0 {
        acc
    } else {
        let a = add_missing(acc, xs.drop_last());
        if a.contains(xs.last()) {
            a
        } else {
            a.push(xs.last())
        }
    }
}

/// `acc` followed by the address-shaped words of `ws` that are not in it yet.
pub open spec fn add_mac_words(acc: Seq<Seq<char>>, ws: Seq<Seq<char>>) -> Seq<Seq<char>>
    decreases ws.len(),
{
    if ws.len() == 0 {
        acc
    } else {
        let a = add_mac_words(acc, ws.drop_last());
        if mac_shaped(ws.last()) && !a.contains(ws.last()) {
            a.push(ws.last())
        } else {
            a
        }
    }
}

/// The address-shaped words of the upper-cased lines of `ls`, each once, in
/// the order they first come.
pub open spec fn macs_in_lines(ls: Seq<Seq<char>>) -> Seq<Seq<char>>
    decreases ls.len(),
{
    if ls.len() == 0 {
        seq![]
    } else {
        add_mac_words(macs_in_lines(ls.drop_last()), words(unicode_upper(ls.last())))
    }
}

/// The addresses that `bluetoothctl` output `text` lists.
pub open spec fn macs_in(text: Seq<char>) -> Seq<Seq<char>> {
    macs_in_lines(lines(text))
}

/// Every item has the shape of an address, and no item comes twice.
pub open spec fn distinct_macs(s: Seq<Seq<char>>) -> bool {
    &&& forall|i: int| 0 <= i < s.len() ==> mac_shaped(#[trigger] s[i])
    &&& forall|i: int, j: int| 0 <= i < j < s.len() ==> #[trigger] s[i] != #[trigger] s[j]
}

proof fn lemma_add_mac_words_distinct(acc: Seq<Seq<char>>, ws: Seq<Seq<char>>)
    requires
        distinct_macs(acc),
    ensures
        distinct_macs(add_mac_words(acc, ws)),
    decreases ws.len(),
{
    if ws.len() > 0 {
        lemma_add_mac_words_distinct(acc, ws.drop_last());
        let a = add_mac_words(acc, ws.drop_last());
        if mac_shaped(ws.last()) && !a.contains(ws.last()) {
            let r = a.push(ws.last());
            assert forall|i: int, j: int| 0 <= i < j < r.len() implies #[trigger] r[i] != #[trigger] r[j] by {
                if j == r.len() - 1 {
                    if r[i] == r[j] {
                        assert(a[i] == ws.last());
                    }
                } else {
                    assert(a[i] != a[j]);
                }
            }
        }
    }
}

proof fn lemma_add_mac_words_keeps(acc: Seq<Seq<char>>, ws: Seq<Seq<char>>)
    ensures
        forall|i: int| 0 <= i < acc.len() ==> add_mac_words(acc, ws).contains(#[trigger] acc[i]),
        forall|i: int| 0 <= i < ws.len() && mac_shaped(ws[i]) ==> add_mac_words(acc, ws).contains(#[trigger] ws[i]),
    decreases ws.len(),
{
    if ws.len() > 0 {
        let prev = ws.drop_last();
        lemma_add_mac_words_keeps(acc, prev);
        let a = add_mac_words(acc, prev);
        let r = add_mac_words(acc, ws);
        assert forall|x: Seq<char>| a.contains(x) implies r.contains(x) by {
            let k = choose|k: int| 0 <= k < a.len() && a[k] == x;
            if r != a {
                assert(r[k] == a[k]);
            }
        }
        assert forall|i: int| 0 <= i < acc.len() implies r.contains(#[trigger] acc[i]) by {
            assert(a.contains(acc[i]));
        }
        assert forall|i: int| 0 <= i < ws.len() && mac_shaped(ws[i]) implies r.contains(#[trigger] ws[i]) by {
            if i < ws.len() - 1 {
                assert(prev[i] == ws[i]);
                assert(a.contains(prev[i]));
            } else if !a.contains(ws.last()) {
                assert(r[a.len() as int] == ws.last());
            }
        }
    }
}

/// Every address-shaped word of an upper-cased line is found.
pub proof fn lemma_macs_in_lines_complete(ls: Seq<Seq<char>>)
    ensures
        forall|k: int, i: int|
            0 <= k < ls.len() && 0 <= i < words(unicode_upper(ls[k])).len() && mac_shaped(
                words(unicode_upper(ls[k]))[i],
            ) ==> macs_in_lines(ls).contains(#[trigger] words(unicode_upper(ls[k]))[i]),
    decreases ls.len(),
{
    if ls.len() > 0 {
        let prev = ls.drop_last();
        lemma_macs_in_lines_complete(prev);
        let a = macs_in_lines(prev);
        let ws = words(unicode_upper(ls.last()));
        lemma_add_mac_words_keeps(a, ws);
        assert forall|k: int, i: int|
            0 <= k < ls.len() && 0 <= i < words(unicode_upper(ls[k])).len() && mac_shaped(
                words(unicode_upper(ls[k]))[i],
            ) implies macs_in_lines(ls).contains(#[trigger] words(unicode_upper(ls[k]))[i]) by {
            if k < ls.len() - 1 {
                assert(prev[k] == ls[k]);
                let w = words(unicode_upper(prev[k]))[i];
                assert(a.contains(w));
                let j = choose|j: int| 0 <= j < a.len() && a[j] == w;
                assert(macs_in_lines(ls).contains(a[j]));
            }
        }
    }
}

/// The addresses read from command output have the shape of addresses and
/// come once each.
pub proof fn lemma_macs_in_distinct(text: Seq<char>)
    ensures
        distinct_macs(macs_in(text)),
{
    lemma_macs_in_lines_distinct(lines(text));
}

proof fn lemma_macs_in_lines_distinct(ls: Seq<Seq<char>>)
    ensures
        distinct_macs(macs_in_lines(ls)),
    decreases ls.len(),
{
    if ls.len() > 0 {
        lemma_macs_in_lines_distinct(ls.drop_last());
        lemma_add_mac_words_distinct(macs_in_lines(ls.drop_last()), words(unicode_upper(ls.last())));
    }
}

/// Pushes onto `acc` each string of `xs` that `acc` does not hold yet.
pub fn push_missing(acc: &mut Vec<String>, xs: &Vec<String>)
    ensures
        str_views(final(acc)@) == add_missing(str_views(old(acc)@), str_views(xs@)),
{
    let ghost a0 = str_views(acc@);
    let mut i: usize = 0;
    while i < xs.len()
        invariant
            i <= xs@.len(),
            str_views(acc@) == add_missing(a0, str_views(xs@).take(i as int)),
        decreases xs@.len() - i,
    {
        assert(str_views(xs@).take(i + 1).drop_last() == str_views(xs@).take(i as int));
        assert(str_views(xs@).take(i + 1).last() == xs@[i as int]@);
        if !contains_string(acc, &xs[i]) {
            let ghost before = str_views(acc@);
            acc.push(xs[i].clone());
            assert(str_views(acc@) =~= before.push(xs@[i as int]@));
        }
        i = i + 1;
    }
    assert(str_views(xs@).take(xs@.len() as int) =~= str_views(xs@));
}

/// The addresses that `text` lists: every word that, upper-cased, has the
/// shape of an address, each once, in the order they first come.
pub fn extract_macs(text: &str) -> (r: Vec<String>)
    ensures
        str_views(r@) == macs_in(text@),
        distinct_macs(str_views(r@)),
        forall|k: int, i: int|
            0 <= k < lines(text@).len() && 0 <= i < words(unicode_upper(lines(text@)[k])).len()
                && mac_shaped(words(unicode_upper(lines(text@)[k]))[i]) ==> str_views(r@).contains(
                #[trigger] words(unicode_upper(lines(text@)[k]))[i],
            ),
{
    proof {
        lemma_macs_in_distinct(text@);
        lemma_macs_in_lines_complete(lines(text@));
    }
    let tv = chars_of(text);
    let ls = split_lines(tv.as_slice());
    let mut macs: Vec<String> = Vec::new();
    let mut i: usize = 0;
    while i < ls.len()
        invariant
            i <= ls@.len(),
            views(ls@) == lines(text@),
            str_views(macs@) == macs_in_lines(views(ls@).take(i as int)),
        decreases ls@.len() - i,
    {
        assert(views(ls@).take(i + 1).drop_last() == views(ls@).take(i as int));
        let line = string_of(ls[i].as_slice());
        let upper = to_upper(line.as_str());
        let uv = chars_of(upper.as_str());
        let ws = split_ws(uv.as_slice());
        let ghost start = str_views(macs@);
        let mut k: usize = 0;
        while k < ws.len()
            invariant
                k <= ws@.len(),
                views(ws@) == words(unicode_upper(ls@[i as int]@)),
                str_views(macs@) == add_mac_words(start, views(ws@).take(k as int)),
            decreases ws@.len() - k,
        {
            assert(views(ws@).take(k + 1).drop_last() == views(ws@).take(k as int));
            assert(views(ws@).take(k + 1).last() == ws@[k as int]@);
            let w = &ws[k];
            if is_mac_shaped(w.as_slice()) {
                let ws_str = string_of(w.as_slice());
                if !contains_string(&macs, &ws_str) {
                    let ghost before = str_views(macs@);
                    macs.push(ws_str);
                    assert(str_views(macs@) =~= before.push(w@));
                }
            }
            k = k + 1;
        }
        assert(views(ws@).take(ws@.len() as int) =~= views(ws@));
        assert(views(ls@).take(i + 1).last() == ls@[i as int]@);
        i = i + 1;
    }
    assert(views(ls@).take(ls@.len() as int) =~= views(ls@));
    macs
}

/// What follows the last `/` of a path: the name of the file or directory
/// it leads to (all of `s` where it holds no `/`).
pub open spec fn last_component(s: Seq<char>) -> Seq<char>
    decreases s.len(),
{
    if s.len() == 0 {
        s
    } else if s.last() == '/' {
        seq![]
    } else {
        last_component(s.drop_last()).push(s.last())
    }
}

/// The name that a path leads to.
pub fn last_component_chars(v: &[char]) -> (r: Vec<char>)
    ensures
        r@ == last_component(v@),
{
    let mut cur: Vec<char> = Vec::new();
    let mut i: usize = 0;
    while i < v.len()
        invariant
            i <= v@.len(),
            cur@ == last_component(v@.take(i as int)),
        decreases v@.len() - i,
    {
        assert(v@.take(i + 1).drop_last() == v@.take(i as int));
        assert(v@.take(i + 1).last() == v@[i as int]);
        if v[i] == '/' {
            cur = Vec::new();
            assert(cur@ =~= Seq::<char>::empty());
        } else {
            cur.push(v[i]);
        }
        i = i + 1;
    }
    assert(v@.take(v@.len() as int) == v@);
    cur
}

/// The device addresses that the lines `ls` of a directory listing name:
/// the upper-cased name that each (trimmed) path leads to, where it has the
/// shape of an address, each once, in the order they first come.
pub open spec fn dir_macs_in_lines(ls: Seq<Seq<char>>) -> Seq<Seq<char>>
    decreases ls.len(),
{
    if ls.len() == 0 {
        seq![]
    } else {
        add_mac_words(dir_macs_in_lines(ls.drop_last()), seq![unicode_upper(last_component(trim(ls.last())))])
    }
}

/// The device addresses that directory listing `text` names, one path a line.
pub open spec fn dir_macs_in(text: Seq<char>) -> Seq<Seq<char>> {
    dir_macs_in_lines(lines(text))
}

proof fn lemma_dir_macs_in_lines_distinct(ls: Seq<Seq<char>>)
    ensures
        distinct_macs(dir_macs_in_lines(ls)),
    decreases ls.len(),
{
    if ls.len() > 0 {
        lemma_dir_macs_in_lines_distinct(ls.drop_last());
        lemma_add_mac_words_distinct(
            dir_macs_in_lines(ls.drop_last()),
            seq![unicode_upper(last_component(trim(ls.last())))],
        );
    }
}

/// Every listed directory whose upper-cased name has the shape of an
/// address is found.
pub proof fn lemma_dir_macs_complete(ls: Seq<Seq<char>>)
    ensures
        forall|k: int|
            0 <= k < ls.len() && mac_shaped(unicode_upper(last_component(trim(#[trigger] ls[k]))))
                ==> dir_macs_in_lines(ls).contains(unicode_upper(last_component(trim(ls[k])))),
    decreases ls.len(),
{
    if ls.len() > 0 {
        let prev = ls.drop_last();
        lemma_dir_macs_complete(prev);
        let a = dir_macs_in_lines(prev);
        let one = seq![unicode_upper(last_component(trim(ls.last())))];
        lemma_add_mac_words_keeps(a, one);
        assert forall|k: int|
            0 <= k < ls.len() && mac_shaped(unicode_upper(last_component(trim(#[trigger] ls[k]))))
                implies dir_macs_in_lines(ls).contains(unicode_upper(last_component(trim(ls[k])))) by {
            if k < ls.len() - 1 {
                assert(prev[k] == ls[k]);
                let w = unicode_upper(last_component(trim(prev[k])));
                assert(a.contains(w));
                let j = choose|j: int| 0 <= j < a.len() && a[j] == w;
                assert(dir_macs_in_lines(ls).contains(a[j]));
            } else {
                assert(one[0] == unicode_upper(last_component(trim(ls[k]))));
            }
        }
    }
}

/// The device addresses of a listing of device directories (such as
/// `find /var/lib/bluetooth -mindepth 2 -maxdepth 2 -type d` prints): the
/// names of the listed directories that, upper-cased, have the shape of an
/// address, each once, in the order they first come.
pub fn extract_dir_macs(listing: &str) -> (r: Vec<String>)
    ensures
        str_views(r@) == dir_macs_in(listing@),
        distinct_macs(str_views(r@)),
        forall|k: int|
            0 <= k < lines(listing@).len() && mac_shaped(
                unicode_upper(last_component(trim(#[trigger] lines(listing@)[k]))),
            ) ==> str_views(r@).contains(unicode_upper(last_component(trim(lines(listing@)[k])))),
{
    proof {
        lemma_dir_macs_complete(lines(listing@));
        lemma_dir_macs_in_lines_distinct(lines(listing@));
    }
    let tv = chars_of(listing);
    let ls = split_lines(tv.as_slice());
    let mut macs: Vec<String> = Vec::new();
    let mut i: usize = 0;
    while i < ls.len()
        invariant
            i <= ls@.len(),
            views(ls@) == lines(listing@),
            str_views(macs@) == dir_macs_in_lines(views(ls@).take(i as int)),
        decreases ls@.len() - i,
    {
        let ghost lsv = views(ls@);
        assert(lsv.take(i + 1).drop_last() == lsv.take(i as int));
        assert(lsv.take(i + 1).last() == ls@[i as int]@);
        let t = trim_chars(ls[i].as_slice());
        let name = last_component_chars(t.as_slice());
        let name_s = string_of(name.as_slice());
        let up = to_upper(name_s.as_str());
        let uv = chars_of(up.as_str());
        let ghost start = str_views(macs@);
        let ghost one = seq![unicode_upper(last_component(trim(ls@[i as int]@)))];
        assert(one.drop_last() =~= Seq::<Seq<char>>::empty());
        assert(add_mac_words(start, one.drop_last()) == start);
        if is_mac_shaped(uv.as_slice()) && !contains_string(&macs, &up) {
            macs.push(up);
            assert(str_views(macs@) =~= start.push(uv@));
        }
        i = i + 1;
    }
    assert(views(ls@).take(ls@.len() as int) =~= views(ls@));
    macs
}

} // verus!
