//! The addresses this machine already knows: connected and paired ones.

use vstd::prelude::*;
use crate::mac::{add_missing, dir_macs_in, extract_dir_macs, extract_macs, macs_in, push_missing};
use crate::text::{str_views, to_upper, unicode_upper};

verus! {

/// The contents of each pair of strings, in order.
pub open spec fn pair_views(v: Seq<(String, String)>) -> Seq<(Seq<char>, Seq<char>)> {
    v.map_values(|p: (String, String)| (p.0@, p.1@))
}

/// The connected addresses, and the paired ones, that three outputs give:
/// `bluetoothctl devices Connected`, `bluetoothctl devices Paired`, and the
/// listing of the device directories under `/var/lib/bluetooth` (one path a
/// line; bluetoothd keeps a directory named by its address for each paired
/// device). The paired list takes in, after its own, the addresses that name
/// listed directories and then the connected devices, each address once.
pub open spec fn known_addrs(
    connected_out: Seq<char>,
    paired_out: Seq<char>,
    dirs_out: Seq<char>,
) -> (Seq<Seq<char>>, Seq<Seq<char>>) {
    (
        macs_in(connected_out),
        add_missing(add_missing(macs_in(paired_out), dir_macs_in(dirs_out)), macs_in(connected_out)),
    )
}

/// The connected and the paired addresses that the three command outputs list.
pub fn get_known_addrs(connected_out: &str, paired_out: &str, dirs_out: &str) -> (r: (
    Vec<String>,
    Vec<String>,
))
    ensures
        (str_views(r.0@), str_views(r.1@)) == known_addrs(connected_out@, paired_out@, dirs_out@),
        forall|i: int|
            0 <= i < r.0@.len() ==> str_views(r.1@).contains(#[trigger] str_views(r.0@)[i]),
        forall|i: int|
            0 <= i < macs_in(paired_out@).len() ==> str_views(r.1@).contains(#[trigger] macs_in(paired_out@)[i]),
        forall|i: int|
            0 <= i < dir_macs_in(dirs_out@).len() ==> str_views(r.1@).contains(
                #[trigger] dir_macs_in(dirs_out@)[i],
            ),
        str_views(r.0@) == macs_in(connected_out@),
{
    let connected = extract_macs(connected_out);
    let mut paired = extract_macs(paired_out);
    let from_dirs = extract_dir_macs(dirs_out);
    push_missing(&mut paired, &from_dirs);
    let ghost before = str_views(paired@);
    push_missing(&mut paired, &connected);
    proof {
        lemma_add_missing_contains(before, str_views(connected@));
        lemma_add_missing_contains(macs_in(paired_out@), dir_macs_in(dirs_out@));
        let r1 = str_views(paired@);
        assert forall|x: Seq<char>| before.contains(x) implies r1.contains(x) by {
            let k = choose|k: int| 0 <= k < before.len() && before[k] == x;
            assert(r1.contains(before[k]));
        }
        assert forall|i: int| 0 <= i < macs_in(paired_out@).len() implies r1.contains(
            #[trigger] macs_in(paired_out@)[i],
        ) by {
            assert(before.contains(macs_in(paired_out@)[i]));
        }
        assert forall|i: int| 0 <= i < dir_macs_in(dirs_out@).len() implies r1.contains(
            #[trigger] dir_macs_in(dirs_out@)[i],
        ) by {
            assert(before.contains(dir_macs_in(dirs_out@)[i]));
        }
    }
    (connected, paired)
}

/// Everything that `add_missing` adds to is kept, and everything it is given
/// ends up in the result.
pub proof fn lemma_add_missing_contains(acc: Seq<Seq<char>>, xs: Seq<Seq<char>>)
    ensures
        forall|i: int| 0 <= i < xs.len() ==> add_missing(acc, xs).contains(#[trigger] xs[i]),
        forall|i: int| 0 <= i < acc.len() ==> add_missing(acc, xs).contains(#[trigger] acc[i]),
    decreases xs.len(),
{
    if xs.len() > 0 {
        let prev = xs.drop_last();
        lemma_add_missing_contains(acc, prev);
        let a = add_missing(acc, prev);
        let r = add_missing(acc, xs);
        assert forall|i: int| 0 <= i < xs.len() implies r.contains(#[trigger] xs[i]) by {
            if i < xs.len() - 1 {
                assert(prev[i] == xs[i]);
                assert(a.contains(prev[i]));
                let k = choose|k: int| 0 <= k < a.len() && a[k] == prev[i];
                if !a.contains(xs.last()) {
                    assert(r[k] == a[k]);
                }
            } else {
                if !a.contains(xs.last()) {
                    assert(r[a.len() as int] == xs.last());
                }
            }
        }
        assert forall|i: int| 0 <= i < acc.len() implies r.contains(#[trigger] acc[i]) by {
            assert(a.contains(acc[i]));
            let k = choose|k: int| 0 <= k < a.len() && a[k] == acc[i];
            if !a.contains(xs.last()) {
                assert(r[k] == a[k]);
            }
        }
    }
}

/// The paired list of a scan: `paired`, then the upper-cased address of each
/// remembered pairing that it does not hold yet.
pub open spec fn with_known_paired(
    paired: Seq<Seq<char>>,
    known: Seq<(Seq<char>, Seq<char>)>,
) -> Seq<Seq<char>> {
    add_missing(paired, known.map_values(|p: (Seq<char>, Seq<char>)| unicode_upper(p.0)))
}

/// Adds to `paired` the upper-cased address of each remembered pairing that
/// it does not hold yet.
pub fn add_known_paired(paired: &mut Vec<String>, known: &Vec<(String, String)>)
    ensures
        str_views(final(paired)@) == with_known_paired(str_views(old(paired)@), pair_views(known@)),
{
    let mut ups: Vec<String> = Vec::new();
    let mut i: usize = 0;
    while i < known.len()
        invariant
            i <= known@.len(),
            str_views(ups@) == pair_views(known@).take(i as int).map_values(
                |p: (Seq<char>, Seq<char>)| unicode_upper(p.0),
            ),
        decreases known@.len() - i,
    {
        let ghost before = str_views(ups@);
        let up = to_upper(known[i].0.as_str());
        ups.push(up);
        assert(str_views(ups@) =~= before.push(up@));
        i = i + 1;
        assert(str_views(ups@) =~= pair_views(known@).take(i as int).map_values(
            |p: (Seq<char>, Seq<char>)| unicode_upper(p.0),
        ));
    }
    assert(pair_views(known@).take(known@.len() as int) =~= pair_views(known@));
    push_missing(paired, &ups);
}

} // verus!
