//! The remembered pairings on disk: a JSON array of addresses.

use vstd::prelude::*;
use crate::known::pair_views;
use crate::mac::{is_mac_shaped, mac_shaped};
use crate::text::{chars_of, join, str_views};

verus! {

#[verifier::external_type_specification]
#[verifier::external_body]
pub struct ExJsonError(serde_json::Error);

/// The list of strings that JSON text `text` holds, as `serde_json` reads a
/// `Vec<String>`; `None` where it holds no such list.
pub uninterp spec fn json_string_list(text: Seq<char>) -> Option<Seq<Seq<char>>>;

/// A hexadecimal digit in lower case, for `0 <= n < 16`.
pub open spec fn hex_digit(n: int) -> char {
    if n < 10 {
        (('0' as int) + n) as char
    } else {
        (('a' as int) + n - 10) as char
    }
}

/// How `serde_json` writes one character inside a string: a quote, a
/// backslash and the control characters escaped (`\b \t \n \f \r` by name,
/// the others as `\u00xx`), everything else as it is.
pub open spec fn json_escape_char(c: char) -> Seq<char> {
    if c == '"' {
        seq!['\\', '"']
    } else if c == '\\' {
        seq!['\\', '\\']
    } else if c == '\u{8}' {
        seq!['\\', 'b']
    } else if c == '\t' {
        seq!['\\', 't']
    } else if c == '\n' {
        seq!['\\', 'n']
    } else if c == '\u{c}' {
        seq!['\\', 'f']
    } else if c == '\r' {
        seq!['\\', 'r']
    } else if (c as u32) < 0x20 {
        seq!['\\', 'u', '0', '0', hex_digit((c as int) / 16), hex_digit((c as int) % 16)]
    } else {
        seq![c]
    }
}

/// The escaped contents of a string.
pub open spec fn json_escape(s: Seq<char>) -> Seq<char>
    decreases s.len(),
{
    if s.len() == 0 {
        seq![]
    } else {
        json_escape(s.drop_last()) + json_escape_char(s.last())
    }
}

/// A string as `serde_json` writes it: escaped, between double quotes.
pub open spec fn json_quote(s: Seq<char>) -> Seq<char> {
    seq!['"'] + json_escape(s) + seq!['"']
}

/// A list of strings as `serde_json::to_string` writes it: the quoted
/// strings between brackets, separated by commas, without spaces.
pub open spec fn json_list_text(items: Seq<Seq<char>>) -> Seq<char> {
    seq!['['] + join(items.map_values(|x: Seq<char>| json_quote(x)), seq![',']) + seq![']']
}

/// Calls `serde_json::from_str::<Vec<String>>`: the list is the one named by
/// `json_string_list` of the text, an error comes exactly where that names
/// none, and text that `serde_json` wrote for a list of strings reads back as
/// that list.
#[verifier::external_body]
fn parse_string_list(text: &str) -> (r: Result<Vec<String>, serde_json::Error>)
    ensures
        r is Ok <==> json_string_list(text@) is Some,
        r matches Ok(v) ==> json_string_list(text@) == Some(str_views(v@)),
        forall|items: Seq<Seq<char>>| #[trigger] json_list_text(items) == text@ ==> r is Ok,
        forall|items: Seq<Seq<char>>|
            #[trigger] json_list_text(items) == text@ ==> (r matches Ok(v) ==> str_views(v@) == items),
{
    serde_json::from_str::<Vec<String>>(text)
}

/// Calls `serde_json::to_string` on a list of strings, which writes it as
/// `json_list_text` gives, and cannot fail: strings always serialize and
/// writing into memory raises no error.
#[verifier::external_body]
fn encode_string_list(items: &Vec<String>) -> (r: Result<String, serde_json::Error>)
    ensures
        r is Ok,
        r matches Ok(t) ==> t@ == json_list_text(str_views(items@)),
{
    serde_json::to_string(items)
}

/// The pairings kept from a list of saved addresses: each address-shaped one,
/// in order, named by its own address.
pub open spec fn saved_pairs(macs: Seq<Seq<char>>) -> Seq<(Seq<char>, Seq<char>)>
    decreases macs.len(),
{
    if macs.len() == 0 {
        seq![]
    } else {
        let rest = saved_pairs(macs.drop_last());
        if mac_shaped(macs.last()) {
            rest.push((macs.last(), macs.last()))
        } else {
            rest
        }
    }
}

/// Every kept pairing is an address-shaped entry named by itself, taken from
/// the saved list.
pub proof fn lemma_saved_pairs_shaped(macs: Seq<Seq<char>>)
    ensures
        forall|i: int|
            0 <= i < saved_pairs(macs).len() ==> {
                let p = #[trigger] saved_pairs(macs)[i];
                &&& mac_shaped(p.0)
                &&& p.0 == p.1
                &&& macs.contains(p.0)
            },
    decreases macs.len(),
{
    if macs.len() > 0 {
        let prev = macs.drop_last();
        lemma_saved_pairs_shaped(prev);
        let r = saved_pairs(macs);
        let rest = saved_pairs(prev);
        assert forall|i: int| 0 <= i < r.len() implies macs.contains((#[trigger] r[i]).0) by {
            if i < rest.len() {
                assert(r[i] == rest[i]);
                let k = choose|k: int| 0 <= k < prev.len() && prev[k] == rest[i].0;
                assert(macs[k] == prev[k]);
            } else {
                assert(macs[macs.len() - 1] == r[i].0);
            }
        }
    }
}

/// The pairings kept from the saved addresses `macs`.
pub fn paired_from_macs(macs: &Vec<String>) -> (r: Vec<(String, String)>)
    ensures
        pair_views(r@) == saved_pairs(str_views(macs@)),
{
    let mut r: Vec<(String, String)> = Vec::new();
    let mut i: usize = 0;
    while i < macs.len()
        invariant
            i <= macs@.len(),
            pair_views(r@) == saved_pairs(str_views(macs@).take(i as int)),
        decreases macs@.len() - i,
    {
        let ghost ms = str_views(macs@);
        assert(ms.take(i + 1).drop_last() == ms.take(i as int));
        assert(ms.take(i + 1).last() == macs@[i as int]@);
        let mv = chars_of(macs[i].as_str());
        if is_mac_shaped(mv.as_slice()) {
            let ghost before = pair_views(r@);
            r.push((macs[i].clone(), macs[i].clone()));
            assert(pair_views(r@) =~= before.push((macs@[i as int]@, macs@[i as int]@)));
        }
        i = i + 1;
    }
    assert(str_views(macs@).take(macs@.len() as int) =~= str_views(macs@));
    r
}

/// The pairings that saved file contents `text` hold: none where it is not a
/// JSON list of strings.
pub open spec fn loaded_pairs(text: Seq<char>) -> Seq<(Seq<char>, Seq<char>)> {
    match json_string_list(text) {
        Some(macs) => saved_pairs(macs),
        None => seq![],
    }
}

/// Reads the remembered pairings from the saved file's contents.
pub fn load_paired(text: &str) -> (r: Vec<(String, String)>)
    ensures
        pair_views(r@) == loaded_pairs(text@),
        forall|items: Seq<Seq<char>>|
            #[trigger] json_list_text(items) == text@ ==> pair_views(r@) == saved_pairs(items),
{
    match parse_string_list(text) {
        Ok(macs) => paired_from_macs(&macs),
        Err(_) => {
            let r: Vec<(String, String)> = Vec::new();
            assert(pair_views(r@) =~= Seq::<(Seq<char>, Seq<char>)>::empty());
            r
        },
    }
}

/// The addresses of the remembered pairings, in order.
pub open spec fn pair_addresses(devices: Seq<(Seq<char>, Seq<char>)>) -> Seq<Seq<char>> {
    devices.map_values(|p: (Seq<char>, Seq<char>)| p.0)
}

/// The file contents that save the remembered pairings: the JSON list of
/// their addresses. Reading them back with `load_paired` gives
/// `saved_pairs` of those addresses: each address-shaped one, named by itself.
pub fn save_paired(devices: &Vec<(String, String)>) -> (r: Option<String>)
    ensures
        r matches Some(t) && t@ == json_list_text(pair_addresses(pair_views(devices@))),
{
    let mut macs: Vec<String> = Vec::new();
    let mut i: usize = 0;
    while i < devices.len()
        invariant
            i <= devices@.len(),
            str_views(macs@) == pair_addresses(pair_views(devices@)).take(i as int),
        decreases devices@.len() - i,
    {
        let ghost before = str_views(macs@);
        let m = devices[i].0.clone();
        macs.push(m);
        assert(str_views(macs@) =~= before.push(devices@[i as int].0@));
        i = i + 1;
        assert(str_views(macs@) =~= pair_addresses(pair_views(devices@)).take(i as int));
    }
    assert(pair_addresses(pair_views(devices@)).take(devices@.len() as int) =~= pair_addresses(
        pair_views(devices@),
    ));
    match encode_string_list(&macs) {
        Ok(t) => Some(t),
        Err(_) => None,
    }
}

} // verus!
