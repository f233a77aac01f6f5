//! Reading the devices out of a `bluetoothctl` scan.

use vstd::prelude::*;
use crate::mac::{is_mac, is_mac_chars, lemma_ascii_upper_mac};
use crate::text::{
    lines, split_lines, strip_prefixes, strip_prefixes_chars, trim_start, trim_start_chars,
    chars_of, contains_chars, count_char, count_chars, eq_ignore_case, eq_ignore_case_chars, find,
    find_chars, has_substring, join, join_from, remove_char, split_ws, starts_with,
    starts_with_chars, str_views, string_of, trim, trim_chars, views, without_char, words,
    ascii_upper_chars, ascii_upper_seq, lemma_find_contains,
};

verus! {

/// How a device stands with this machine.
#[derive(Clone, Copy, Debug, PartialEq, Eq, Structural)]
pub enum DevState {
    Connected,
    Paired,
    Available,
}

/// A device seen by a scan.
#[derive(Debug)]
pub struct BtDevice {
    pub address: String,
    pub name: String,
    pub state: DevState,
}

/// What a device holds, as plain values.
pub struct DeviceView {
    pub address: Seq<char>,
    pub name: Seq<char>,
    pub state: DevState,
}

impl View for BtDevice {
    type V = DeviceView;

    open spec fn view(&self) -> DeviceView {
        DeviceView { address: self.address@, name: self.name@, state: self.state }
    }
}

/// The view of each device, in order.
pub open spec fn dev_views(v: Seq<BtDevice>) -> Seq<DeviceView> {
    v.map_values(|d: BtDevice| d@)
}

impl BtDevice {
    /// A device with a copy of each field.
    pub fn duplicate(&self) -> (r: BtDevice)
        ensures
            r@ == self@,
    {
        BtDevice { address: self.address.clone(), name: self.name.clone(), state: self.state }
    }
}

/// A scan line with the carriage returns and the `[bluetoothctl]> ` prompt
/// removed, and the `[` that the prompt swallows put back before `NEW]`,
/// `CHG]` and `DEL]`.
pub open spec fn clean_scan_line(l: Seq<char>) -> Seq<char> {
    let s = trim(without_char(l, '\r'));
    let s = match find(s, "> "@) {
        Some(p) => s.skip(p + 2),
        None => s,
    };
    let s = trim(s);
    if starts_with(s, "NEW]"@) || starts_with(s, "CHG]"@) || starts_with(s, "DEL]"@) {
        seq!['['] + s
    } else {
        s
    }
}

/// Cleans one scan line.
pub fn clean_line(raw: &[char]) -> (r: Vec<char>)
    ensures
        r@ == clean_scan_line(raw@),
{
    let no_cr = remove_char(raw, '\r');
    let s = trim_chars(no_cr.as_slice());
    let prompt = chars_of("> ");
    let s = match find_chars(s.as_slice(), prompt.as_slice()) {
        Some(p) => {
            proof {
                lemma_find_contains(s@, prompt@);
                reveal_strlit("> ");
                assert(prompt@.len() == 2);
                assert(p + 2 <= s@.len());
            }
            assert(p + 2 <= s.len());
            let mut rest: Vec<char> = Vec::new();
            let mut i: usize = p + 2;
            while i < s.len()
                invariant
                    p + 2 <= i <= s@.len(),
                    rest@ == s@.subrange(p + 2, i as int),
                decreases s@.len() - i,
            {
                rest.push(s[i]);
                i = i + 1;
            }
            assert(rest@ == s@.skip(p + 2));
            rest
        },
        None => s,
    };
    let s = trim_chars(s.as_slice());
    let new_tag = chars_of("NEW]");
    let chg_tag = chars_of("CHG]");
    let del_tag = chars_of("DEL]");
    if starts_with_chars(s.as_slice(), new_tag.as_slice()) || starts_with_chars(
        s.as_slice(),
        chg_tag.as_slice(),
    ) || starts_with_chars(s.as_slice(), del_tag.as_slice()) {
        let mut r: Vec<char> = Vec::new();
        r.push('[');
        let mut i: usize = 0;
        while i < s.len()
            invariant
                i <= s@.len(),
                r@ == seq!['['] + s@.take(i as int),
            decreases s@.len() - i,
        {
            r.push(s[i]);
            i = i + 1;
            assert(r@ =~= seq!['['] + s@.take(i as int));
        }
        assert(s@.take(s@.len() as int) == s@);
        r
    } else {
        s
    }
}

/// The first index at or after `i` of a word of `ws` that is an address.
pub open spec fn first_mac_from(ws: Seq<Seq<char>>, i: int) -> Option<int>
    decreases ws.len() - i,
{
    if i < 0 || i >= ws.len() {
        None
    } else if is_mac(ws[i]) {
        Some(i)
    } else {
        first_mac_from(ws, i + 1)
    }
}

pub proof fn lemma_first_mac_from(ws: Seq<Seq<char>>, i: int)
    requires
        0 <= i,
    ensures
        first_mac_from(ws, i) matches Some(k) ==> i <= k < ws.len() && is_mac(ws[k]),
    decreases ws.len() - i,
{
    if i < ws.len() && !is_mac(ws[i]) {
        lemma_first_mac_from(ws, i + 1);
    }
}

/// The index of the first word of `ws` that is an address.
pub fn first_mac(ws: &Vec<Vec<char>>) -> (r: Option<usize>)
    ensures
        r matches Some(k) ==> first_mac_from(views(ws@), 0) == Some(k as int) && k < ws@.len(),
        r is None ==> first_mac_from(views(ws@), 0) is None,
{
    let mut i: usize = 0;
    while i < ws.len()
        invariant
            i <= ws@.len(),
            first_mac_from(views(ws@), 0) == first_mac_from(views(ws@), i as int),
        decreases ws@.len() - i,
    {
        if is_mac_chars(ws[i].as_slice()) {
            assert(views(ws@)[i as int] == ws@[i as int]@);
            return Some(i);
        }
        i = i + 1;
    }
    None
}

/// Some entry of `addrs` equals `a` but for the case of ASCII letters.
pub open spec fn listed(addrs: Seq<Seq<char>>, a: Seq<char>) -> bool {
    exists|i: int| 0 <= i < addrs.len() && eq_ignore_case(#[trigger] addrs[i], a)
}

/// Whether some entry of `addrs` equals `a` but for the case of ASCII letters.
pub fn is_listed(addrs: &Vec<String>, a: &[char]) -> (b: bool)
    ensures
        b == listed(str_views(addrs@), a@),
{
    let mut i: usize = 0;
    while i < addrs.len()
        invariant
            i <= addrs@.len(),
            forall|k: int| 0 <= k < i ==> !eq_ignore_case(#[trigger] str_views(addrs@)[k], a@),
        decreases addrs@.len() - i,
    {
        let cv = chars_of(addrs[i].as_str());
        if eq_ignore_case_chars(cv.as_slice(), a) {
            assert(eq_ignore_case(str_views(addrs@)[i as int], a@));
            return true;
        }
        i = i + 1;
    }
    false
}

/// The state of the device at `a`: connected if `connected` lists it, else
/// paired if `paired` lists it, else available.
pub open spec fn classify(a: Seq<char>, connected: Seq<Seq<char>>, paired: Seq<Seq<char>>) -> DevState {
    if listed(connected, a) {
        DevState::Connected
    } else if listed(paired, a) {
        DevState::Paired
    } else {
        DevState::Available
    }
}

/// The name that a `[NEW] Device` line gives the device at word `idx`: the
/// words after it joined by spaces, or the address where there are none or
/// where they hold five dashes (a name that is an address written with dashes).
pub open spec fn scan_name(ws: Seq<Seq<char>>, idx: int, addr: Seq<char>) -> Seq<char> {
    let name = if idx + 1 < ws.len() {
        join(ws.skip(idx + 1), seq![' '])
    } else {
        addr
    };
    if count_char(name, '-') == 5 {
        addr
    } else if name.len() == 0 {
        addr
    } else {
        name
    }
}

/// The first index at or after `i` of a device at address `a`.
pub open spec fn device_index_from(devs: Seq<DeviceView>, a: Seq<char>, i: int) -> Option<int>
    decreases devs.len() - i,
{
    if i < 0 || i >= devs.len() {
        None
    } else if devs[i].address == a {
        Some(i)
    } else {
        device_index_from(devs, a, i + 1)
    }
}

/// The index of the first device at address `a`.
pub open spec fn device_index(devs: Seq<DeviceView>, a: Seq<char>) -> Option<int> {
    device_index_from(devs, a, 0)
}

pub proof fn lemma_device_index_from(devs: Seq<DeviceView>, a: Seq<char>, i: int)
    requires
        0 <= i,
    ensures
        device_index_from(devs, a, i) matches Some(k) ==> i <= k < devs.len() && devs[k].address
            == a,
        device_index_from(devs, a, i) is None ==> forall|j: int|
            i <= j < devs.len() ==> devs[j].address != a,
    decreases devs.len() - i,
{
    if i < devs.len() && devs[i].address != a {
        lemma_device_index_from(devs, a, i + 1);
    }
}

/// The index of the first device of `devs` at address `a`.
pub fn find_device(devs: &Vec<BtDevice>, a: &String) -> (r: Option<usize>)
    ensures
        r matches Some(k) ==> device_index(dev_views(devs@), a@) == Some(k as int),
        r is None ==> device_index(dev_views(devs@), a@) is None,
{
    let mut i: usize = 0;
    while i < devs.len()
        invariant
            i <= devs@.len(),
            device_index(dev_views(devs@), a@) == device_index_from(dev_views(devs@), a@, i as int),
        decreases devs@.len() - i,
    {
        if devs[i].address == *a {
            return Some(i);
        }
        i = i + 1;
    }
    None
}

/// The device list after a sighting of `addr` named `name`: a new device is
/// added at the end; a known one takes the name where it had none but its
/// address, and the new state where that is connected, or paired over available.
pub open spec fn merge_sighting(
    devs: Seq<DeviceView>,
    addr: Seq<char>,
    name: Seq<char>,
    state: DevState,
    is_conn: bool,
    is_paired: bool,
) -> Seq<DeviceView> {
    match device_index(devs, addr) {
        Some(k) => {
            let ex = devs[k];
            let new_name = if ex.name == ex.address && name != addr {
                name
            } else {
                ex.name
            };
            let new_state = if is_conn || (is_paired && ex.state == DevState::Available) {
                state
            } else {
                ex.state
            };
            devs.update(k, DeviceView { address: ex.address, name: new_name, state: new_state })
        },
        None => devs.push(DeviceView { address: addr, name: name, state: state }),
    }
}

/// The device list after one raw scan line: only a `[NEW] Device` line with
/// an address among its words changes it.
pub open spec fn scan_line(
    devs: Seq<DeviceView>,
    raw: Seq<char>,
    connected: Seq<Seq<char>>,
    paired: Seq<Seq<char>>,
) -> Seq<DeviceView> {
    let line = trim(clean_scan_line(raw));
    if !has_substring(line, "[NEW] Device"@) {
        devs
    } else {
        let ws = words(line);
        match first_mac_from(ws, 0) {
            None => devs,
            Some(idx) => {
                let addr = ascii_upper_seq(ws[idx]);
                let name = scan_name(ws, idx, addr);
                merge_sighting(
                    devs,
                    addr,
                    name,
                    classify(addr, connected, paired),
                    listed(connected, addr),
                    listed(paired, addr),
                )
            },
        }
    }
}

/// The devices that the scan output `lines` shows, in the order first seen.
pub open spec fn parse_scan(
    lines: Seq<Seq<char>>,
    connected: Seq<Seq<char>>,
    paired: Seq<Seq<char>>,
) -> Seq<DeviceView>
    decreases lines.len(),
{
    if lines.len() == 0 {
        seq![]
    } else {
        scan_line(parse_scan(lines.drop_last(), connected, paired), lines.last(), connected, paired)
    }
}

/// Applies one raw scan line to the device list.
fn apply_scan_line(
    devs: &mut Vec<BtDevice>,
    raw: &String,
    connected: &Vec<String>,
    paired: &Vec<String>,
)
    ensures
        dev_views(final(devs)@) == scan_line(
            dev_views(old(devs)@),
            raw@,
            str_views(connected@),
            str_views(paired@),
        ),
{
    let rv = chars_of(raw.as_str());
    let cleaned = clean_line(rv.as_slice());
    let line = trim_chars(cleaned.as_slice());
    let tag = chars_of("[NEW] Device");
    if !contains_chars(line.as_slice(), tag.as_slice()) {
        return;
    }
    let ws = split_ws(line.as_slice());
    let idx = match first_mac(&ws) {
        None => {
            return;
        },
        Some(k) => k,
    };
    let addr_chars = ascii_upper_chars(ws[idx].as_slice());
    let addr = string_of(addr_chars.as_slice());
    assert(idx < ws.len());
    let raw_name: Vec<char> = if idx + 1 < ws.len() {
        let sep: Vec<char> = vec![' '];
        let j = join_from(ws.as_slice(), idx + 1, sep.as_slice());
        assert(sep@ == seq![' ']);
        j
    } else {
        addr_chars.clone()
    };
    let name_chars: Vec<char> = if count_chars(raw_name.as_slice(), '-') == 5 {
        addr_chars.clone()
    } else if raw_name.len() == 0 {
        addr_chars.clone()
    } else {
        raw_name
    };
    let name = string_of(name_chars.as_slice());
    let is_conn = is_listed(connected, addr_chars.as_slice());
    let is_paired = is_listed(paired, addr_chars.as_slice());
    let state = if is_conn {
        DevState::Connected
    } else if is_paired {
        DevState::Paired
    } else {
        DevState::Available
    };
    let ghost before = dev_views(devs@);
    proof {
        lemma_device_index_from(before, addr@, 0);
    }
    match find_device(devs, &addr) {
        Some(k) => {
            let ex = &devs[k];
            let new_name = if ex.name == ex.address && name != addr {
                name
            } else {
                ex.name.clone()
            };
            let new_state = if is_conn || (is_paired && ex.state == DevState::Available) {
                state
            } else {
                ex.state
            };
            let updated = BtDevice { address: ex.address.clone(), name: new_name, state: new_state };
            devs.set(k, updated);
            assert(dev_views(devs@) =~= before.update(k as int, updated@));
        },
        None => {
            let fresh = BtDevice { address: addr, name: name, state: state };
            devs.push(fresh);
            assert(dev_views(devs@) =~= before.push(fresh@));
        },
    }
}

/// The devices that `bluetoothctl` scan output shows: one per address that a
/// `[NEW] Device` line names, in the order first seen, each with its name and
/// its state by the `connected` and `paired` lists.
pub fn parse_scan_bctl(lines: &Vec<String>, connected: &Vec<String>, paired: &Vec<String>) -> (r: Vec<BtDevice>)
    ensures
        dev_views(r@) == parse_scan(str_views(lines@), str_views(connected@), str_views(paired@)),
        scan_result_wf(dev_views(r@), str_views(connected@), str_views(paired@)),
        forall|i: int|
            0 <= i < r@.len() ==> {
                let a = (#[trigger] r@[i]).address@;
                &&& listed(str_views(connected@), a) ==> r@[i].state == DevState::Connected
                &&& !listed(str_views(connected@), a) && listed(str_views(paired@), a)
                    ==> r@[i].state == DevState::Paired
                &&& !listed(str_views(connected@), a) && !listed(str_views(paired@), a)
                    ==> r@[i].state == DevState::Available
            },
        forall|k: int|
            0 <= k < lines@.len() ==> {
                let line = trim(clean_scan_line(#[trigger] str_views(lines@)[k]));
                let ws = words(line);
                has_substring(line, "[NEW] Device"@) ==> (first_mac_from(ws, 0) matches Some(idx)
                    ==> has_address(dev_views(r@), ascii_upper_seq(ws[idx])))
            },
{
    let mut devs: Vec<BtDevice> = Vec::new();
    let mut i: usize = 0;
    while i < lines.len()
        invariant
            i <= lines@.len(),
            dev_views(devs@) == parse_scan(
                str_views(lines@).take(i as int),
                str_views(connected@),
                str_views(paired@),
            ),
        decreases lines@.len() - i,
    {
        assert(str_views(lines@).take(i + 1).drop_last() == str_views(lines@).take(i as int));
        assert(str_views(lines@).take(i + 1).last() == lines@[i as int]@);
        apply_scan_line(&mut devs, &lines[i], connected, paired);
        i = i + 1;
    }
    assert(str_views(lines@).take(lines@.len() as int) =~= str_views(lines@));
    proof {
        lemma_parse_scan_wf(str_views(lines@), str_views(connected@), str_views(paired@));
        lemma_scan_states(str_views(lines@), str_views(connected@), str_views(paired@));
        lemma_scan_complete(str_views(lines@), str_views(connected@), str_views(paired@));
        assert forall|i: int| 0 <= i < devs@.len() implies dev_views(devs@)[i] == (#[trigger] devs@[i])@ by {}
    }
    devs
}

/// Every device has its own address, which is a Bluetooth address, a name,
/// and the state that the `connected` and `paired` lists give its address.
pub open spec fn scan_result_wf(
    devs: Seq<DeviceView>,
    connected: Seq<Seq<char>>,
    paired: Seq<Seq<char>>,
) -> bool {
    &&& forall|i: int, j: int|
        0 <= i < j < devs.len() ==> #[trigger] devs[i].address != #[trigger] devs[j].address
    &&& forall|i: int| 0 <= i < devs.len() ==> #[trigger] devs[i].state == classify(devs[i].address, connected, paired)
    &&& forall|i: int| 0 <= i < devs.len() ==> (#[trigger] devs[i]).name.len() > 0
    &&& forall|i: int| 0 <= i < devs.len() ==> is_mac((#[trigger] devs[i]).address)
}

proof fn lemma_utf8_len_empty(s: Seq<char>)
    requires
        s.len() == 0,
    ensures
        crate::mac::utf8_len(s) == 0,
{
}

/// A scan lists each address at most once, never without a name, and with
/// the state that the lists of connected and paired addresses give it.
pub proof fn lemma_parse_scan_wf(lines: Seq<Seq<char>>, connected: Seq<Seq<char>>, paired: Seq<Seq<char>>)
    ensures
        scan_result_wf(parse_scan(lines, connected, paired), connected, paired),
    decreases lines.len(),
{
    if lines.len() > 0 {
        let prev = parse_scan(lines.drop_last(), connected, paired);
        lemma_parse_scan_wf(lines.drop_last(), connected, paired);
        let raw = lines.last();
        let line = trim(clean_scan_line(raw));
        if has_substring(line, "[NEW] Device"@) {
            let ws = words(line);
            lemma_first_mac_from(ws, 0);
            if let Some(idx) = first_mac_from(ws, 0) {
                let addr = ascii_upper_seq(ws[idx]);
                lemma_ascii_upper_mac(ws[idx]);
                if ws[idx].len() == 0 {
                    lemma_utf8_len_empty(ws[idx]);
                }
                assert(addr.len() > 0);
                let name = scan_name(ws, idx, addr);
                assert(name.len() > 0);
                lemma_device_index_from(prev, addr, 0);
                let next = scan_line(prev, raw, connected, paired);
                assert(next == merge_sighting(
                    prev,
                    addr,
                    name,
                    classify(addr, connected, paired),
                    listed(connected, addr),
                    listed(paired, addr),
                ));
                match device_index(prev, addr) {
                    Some(k) => {
                        assert(prev[k].state == classify(addr, connected, paired));
                        assert forall|i: int, j: int| 0 <= i < j < next.len() implies #[trigger] next[i].address
                            != #[trigger] next[j].address by {
                            assert(prev[i].address != prev[j].address);
                        }
                        assert forall|i: int| 0 <= i < next.len() implies #[trigger] next[i].state == classify(
                            next[i].address,
                            connected,
                            paired,
                        ) by {
                            assert(prev[i].state == classify(prev[i].address, connected, paired));
                        }
                        assert forall|i: int| 0 <= i < next.len() implies (#[trigger] next[i]).name.len() > 0 by {
                            assert(prev[i].name.len() > 0);
                        }
                        assert forall|i: int| 0 <= i < next.len() implies is_mac((#[trigger] next[i]).address) by {
                            assert(is_mac(prev[i].address));
                        }
                    },
                    None => {
                        assert forall|i: int, j: int| 0 <= i < j < next.len() implies #[trigger] next[i].address
                            != #[trigger] next[j].address by {
                            if j < prev.len() {
                                assert(prev[i].address != prev[j].address);
                            }
                        }
                        assert forall|i: int| 0 <= i < next.len() implies #[trigger] next[i].state == classify(
                            next[i].address,
                            connected,
                            paired,
                        ) by {
                            if i < prev.len() {
                                assert(prev[i].state == classify(prev[i].address, connected, paired));
                            }
                        }
                        assert forall|i: int| 0 <= i < next.len() implies (#[trigger] next[i]).name.len() > 0 by {
                            if i < prev.len() {
                                assert(prev[i].name.len() > 0);
                            }
                        }
                        assert forall|i: int| 0 <= i < next.len() implies is_mac((#[trigger] next[i]).address) by {
                            if i < prev.len() {
                                assert(is_mac(prev[i].address));
                            }
                        }
                    },
                }
            }
        }
    }
}

/// Some device of `devs` is at address `a`.
pub open spec fn has_address(devs: Seq<DeviceView>, a: Seq<char>) -> bool {
    exists|i: int| 0 <= i < devs.len() && (#[trigger] devs[i]).address == a
}

proof fn lemma_scan_line_keeps(
    devs: Seq<DeviceView>,
    raw: Seq<char>,
    connected: Seq<Seq<char>>,
    paired: Seq<Seq<char>>,
)
    ensures
        forall|a: Seq<char>| has_address(devs, a) ==> has_address(scan_line(devs, raw, connected, paired), a),
        ({
            let line = trim(clean_scan_line(raw));
            let ws = words(line);
            has_substring(line, "[NEW] Device"@) ==> (first_mac_from(ws, 0) matches Some(idx)
                ==> has_address(scan_line(devs, raw, connected, paired), ascii_upper_seq(ws[idx])))
        }),
{
    let next = scan_line(devs, raw, connected, paired);
    let line = trim(clean_scan_line(raw));
    let ws = words(line);
    lemma_first_mac_from(ws, 0);
    if has_substring(line, "[NEW] Device"@) {
        if let Some(idx) = first_mac_from(ws, 0) {
            let addr = ascii_upper_seq(ws[idx]);
            lemma_device_index_from(devs, addr, 0);
            match device_index(devs, addr) {
                Some(k) => {
                    assert(next[k].address == addr);
                    assert forall|a: Seq<char>| has_address(devs, a) implies has_address(next, a) by {
                        let i = choose|i: int| 0 <= i < devs.len() && (#[trigger] devs[i]).address == a;
                        assert(next[i].address == a);
                    }
                },
                None => {
                    assert(next[devs.len() as int].address == addr);
                    assert forall|a: Seq<char>| has_address(devs, a) implies has_address(next, a) by {
                        let i = choose|i: int| 0 <= i < devs.len() && (#[trigger] devs[i]).address == a;
                        assert(next[i].address == a);
                    }
                },
            }
        }
    }
}

/// Every `[NEW] Device` line that names an address gives a device at that
/// address (upper-cased): no sighting is lost.
pub proof fn lemma_scan_complete(lines: Seq<Seq<char>>, connected: Seq<Seq<char>>, paired: Seq<Seq<char>>)
    ensures
        forall|k: int|
            0 <= k < lines.len() ==> {
                let line = trim(clean_scan_line(#[trigger] lines[k]));
                let ws = words(line);
                has_substring(line, "[NEW] Device"@) ==> (first_mac_from(ws, 0) matches Some(idx)
                    ==> has_address(parse_scan(lines, connected, paired), ascii_upper_seq(ws[idx])))
            },
    decreases lines.len(),
{
    if lines.len() > 0 {
        let prev = lines.drop_last();
        lemma_scan_complete(prev, connected, paired);
        let before = parse_scan(prev, connected, paired);
        lemma_scan_line_keeps(before, lines.last(), connected, paired);
        assert forall|k: int| 0 <= k < lines.len() implies {
            let line = trim(clean_scan_line(#[trigger] lines[k]));
            let ws = words(line);
            has_substring(line, "[NEW] Device"@) ==> (first_mac_from(ws, 0) matches Some(idx)
                ==> has_address(parse_scan(lines, connected, paired), ascii_upper_seq(ws[idx])))
        } by {
            if k < lines.len() - 1 {
                assert(prev[k] == lines[k]);
            }
        }
    }
}

/// What one scan line does to the list. A line without `[NEW] Device`, or
/// without an address among its words, changes nothing. Otherwise, for the
/// upper-cased address: a device not yet listed is added at the end, named by
/// the words after the address joined by spaces, or by its address where no
/// words follow or where they hold five dashes; a device already listed stays
/// in its place, keeps a name other than its address, and every other device
/// is left as it was.
pub proof fn lemma_scan_line_effect(
    devs: Seq<DeviceView>,
    raw: Seq<char>,
    connected: Seq<Seq<char>>,
    paired: Seq<Seq<char>>,
)
    ensures
        ({
            let line = trim(clean_scan_line(raw));
            let ws = words(line);
            let next = scan_line(devs, raw, connected, paired);
            &&& !has_substring(line, "[NEW] Device"@) ==> next == devs
            &&& first_mac_from(ws, 0) is None ==> next == devs
            &&& has_substring(line, "[NEW] Device"@) ==> (first_mac_from(ws, 0) matches Some(idx) ==> {
                let addr = ascii_upper_seq(ws[idx]);
                let rest = ws.skip(idx + 1);
                &&& !has_address(devs, addr) ==> {
                    &&& next.len() == devs.len() + 1
                    &&& next.drop_last() == devs
                    &&& next.last().address == addr
                    &&& rest.len() == 0 ==> next.last().name == addr
                    &&& rest.len() > 0 && count_char(join(rest, seq![' ']), '-') == 5 ==> next.last().name
                        == addr
                    &&& rest.len() > 0 && count_char(join(rest, seq![' ']), '-') != 5 && join(
                        rest,
                        seq![' '],
                    ).len() > 0 ==> next.last().name == join(rest, seq![' '])
                }
                &&& has_address(devs, addr) ==> {
                    &&& next.len() == devs.len()
                    &&& forall|i: int|
                        0 <= i < devs.len() ==> {
                            &&& (#[trigger] next[i]).address == devs[i].address
                            &&& devs[i].address != addr ==> next[i] == devs[i]
                            &&& devs[i].name != devs[i].address ==> next[i].name == devs[i].name
                        }
                }
            })
        }),
{
    let line = trim(clean_scan_line(raw));
    let ws = words(line);
    lemma_first_mac_from(ws, 0);
    if has_substring(line, "[NEW] Device"@) {
        if let Some(idx) = first_mac_from(ws, 0) {
            let addr = ascii_upper_seq(ws[idx]);
            lemma_device_index_from(devs, addr, 0);
            let next = scan_line(devs, raw, connected, paired);
            match device_index(devs, addr) {
                Some(k) => {
                    assert(has_address(devs, addr));
                    assert forall|i: int| 0 <= i < devs.len() implies {
                        &&& (#[trigger] next[i]).address == devs[i].address
                        &&& devs[i].address != addr ==> next[i] == devs[i]
                        &&& devs[i].name != devs[i].address ==> next[i].name == devs[i].name
                    } by {
                        if i != k {
                            assert(next[i] == devs[i]);
                        }
                    }
                },
                None => {
                    assert(!has_address(devs, addr));
                    assert(next.drop_last() =~= devs);
                },
            }
        }
    }
}

/// The state a scan gives each device: connected wherever the connected list
/// holds its address (case aside), whatever the paired list holds; paired
/// where only the paired list holds it; available where neither does.
pub proof fn lemma_scan_states(lines: Seq<Seq<char>>, connected: Seq<Seq<char>>, paired: Seq<Seq<char>>)
    ensures
        forall|i: int|
            0 <= i < parse_scan(lines, connected, paired).len() ==> {
                let d = #[trigger] parse_scan(lines, connected, paired)[i];
                &&& listed(connected, d.address) ==> d.state == DevState::Connected
                &&& !listed(connected, d.address) && listed(paired, d.address) ==> d.state == DevState::Paired
                &&& !listed(connected, d.address) && !listed(paired, d.address) ==> d.state
                    == DevState::Available
            },
{
    lemma_parse_scan_wf(lines, connected, paired);
}

/// A line that does not hold `[NEW] Device` (a `[CHG]` or `[DEL]` line, say)
/// leaves the device list as it was.
pub proof fn lemma_scan_ignores_other_lines(
    devs: Seq<DeviceView>,
    raw: Seq<char>,
    connected: Seq<Seq<char>>,
    paired: Seq<Seq<char>>,
)
    requires
        !has_substring(trim(clean_scan_line(raw)), "[NEW] Device"@),
    ensures
        scan_line(devs, raw, connected, paired) == devs,
{
}

/// A line of `bluetoothctl info` output that gives the device's name.
pub open spec fn is_name_line(l: Seq<char>) -> bool {
    starts_with(trim_start(l), "Name:"@)
}

/// The first index at or after `i` of a line that gives a name.
pub open spec fn name_line_from(ls: Seq<Seq<char>>, i: int) -> Option<int>
    decreases ls.len() - i,
{
    if i < 0 || i >= ls.len() {
        None
    } else if is_name_line(ls[i]) {
        Some(i)
    } else {
        name_line_from(ls, i + 1)
    }
}

pub proof fn lemma_name_line_from(ls: Seq<Seq<char>>, i: int)
    requires
        0 <= i,
    ensures
        name_line_from(ls, i) matches Some(k) ==> i <= k < ls.len(),
    decreases ls.len() - i,
{
    if i < ls.len() && !is_name_line(ls[i]) {
        lemma_name_line_from(ls, i + 1);
    }
}

/// The name that `bluetoothctl info` output gives: what follows `Name:` on the
/// first line that starts with it, trimmed, or `addr` where that is empty or
/// there is no such line.
pub open spec fn info_name(info: Seq<char>, addr: Seq<char>) -> Seq<char> {
    let ls = lines(info);
    match name_line_from(ls, 0) {
        Some(k) => {
            let n = trim(strip_prefixes(trim_start(ls[k]), "Name:"@));
            if n.len() > 0 {
                n
            } else {
                addr
            }
        },
        None => addr,
    }
}

/// The device name that `bluetoothctl info <addr>` output gives, or the
/// address where it gives none.
pub fn name_from_info(info: &str, addr: &String) -> (r: String)
    ensures
        r@ == info_name(info@, addr@),
{
    let iv = chars_of(info);
    let ls = split_lines(iv.as_slice());
    let tag = chars_of("Name:");
    let mut i: usize = 0;
    while i < ls.len()
        invariant
            i <= ls@.len(),
            views(ls@) == lines(info@),
            tag@ == "Name:"@,
            name_line_from(views(ls@), 0) == name_line_from(views(ls@), i as int),
        decreases ls@.len() - i,
    {
        let t = trim_start_chars(ls[i].as_slice());
        assert(views(ls@)[i as int] == ls@[i as int]@);
        if starts_with_chars(t.as_slice(), tag.as_slice()) {
            let stripped = strip_prefixes_chars(t.as_slice(), tag.as_slice());
            let n = trim_chars(stripped.as_slice());
            if n.len() > 0 {
                return string_of(n.as_slice());
            } else {
                return addr.clone();
            }
        }
        i = i + 1;
    }
    addr.clone()
}

/// The devices of `devs` in state `st`, in their order.
pub open spec fn of_state(devs: Seq<DeviceView>, st: DevState) -> Seq<DeviceView>
    decreases devs.len(),
{
    if devs.len() == 0 {
        seq![]
    } else {
        let p = of_state(devs.drop_last(), st);
        if devs.last().state == st {
            p.push(devs.last())
        } else {
            p
        }
    }
}

proof fn lemma_of_state_all(devs: Seq<DeviceView>, st: DevState)
    ensures
        forall|i: int| 0 <= i < of_state(devs, st).len() ==> (#[trigger] of_state(devs, st)[i]).state == st,
    decreases devs.len(),
{
    if devs.len() > 0 {
        lemma_of_state_all(devs.drop_last(), st);
    }
}

/// Where a state comes in the list: connected first, then paired, then available.
pub open spec fn rank(st: DevState) -> int {
    match st {
        DevState::Connected => 0,
        DevState::Paired => 1,
        DevState::Available => 2,
    }
}

/// `devs` stably sorted by state: the connected devices, then the paired ones,
/// then the available ones, each group in the order it had.
pub open spec fn sorted_by_state(devs: Seq<DeviceView>) -> Seq<DeviceView> {
    of_state(devs, DevState::Connected) + of_state(devs, DevState::Paired) + of_state(
        devs,
        DevState::Available,
    )
}

/// Copies the devices of `devs` in state `st` onto `out`.
fn push_of_state(out: &mut Vec<BtDevice>, devs: &Vec<BtDevice>, st: DevState)
    ensures
        dev_views(final(out)@) == dev_views(old(out)@) + of_state(dev_views(devs@), st),
{
    let ghost start = dev_views(out@);
    let mut i: usize = 0;
    while i < devs.len()
        invariant
            i <= devs@.len(),
            dev_views(out@) == start + of_state(dev_views(devs@).take(i as int), st),
        decreases devs@.len() - i,
    {
        let ghost pre = dev_views(devs@).take(i as int);
        let ghost nxt = dev_views(devs@).take(i + 1);
        assert(nxt.drop_last() == pre);
        assert(nxt.last() == devs@[i as int]@);
        if devs[i].state == st {
            let ghost before = dev_views(out@);
            let d = devs[i].duplicate();
            out.push(d);
            assert(dev_views(out@) =~= before.push(d@));
            assert(of_state(nxt, st) == of_state(pre, st).push(nxt.last()));
            assert(dev_views(out@) =~= start + of_state(nxt, st));
        } else {
            assert(of_state(nxt, st) == of_state(pre, st));
        }
        i = i + 1;
    }
    assert(dev_views(devs@).take(devs@.len() as int) =~= dev_views(devs@));
}

/// The devices ordered connected, paired, available, keeping the order within
/// each group (the stable sort by state rank that a scan ends with).
pub fn sort_by_state(devs: &Vec<BtDevice>) -> (r: Vec<BtDevice>)
    ensures
        dev_views(r@) == sorted_by_state(dev_views(devs@)),
        dev_views(r@).to_multiset() == dev_views(devs@).to_multiset(),
        r@.len() == devs@.len(),
        forall|i: int, j: int|
            0 <= i < j < r@.len() ==> rank(#[trigger] r@[i].state) <= rank(#[trigger] r@[j].state),
{
    let mut r: Vec<BtDevice> = Vec::new();
    push_of_state(&mut r, devs, DevState::Connected);
    push_of_state(&mut r, devs, DevState::Paired);
    push_of_state(&mut r, devs, DevState::Available);
    assert(dev_views(r@) =~= sorted_by_state(dev_views(devs@)));
    proof {
        lemma_sorted_by_state(dev_views(devs@));
        lemma_sorted_by_state_permutes(dev_views(devs@));
        assert forall|i: int, j: int| 0 <= i < j < r@.len() implies rank(#[trigger] r@[i].state)
            <= rank(#[trigger] r@[j].state) by {
            let sv = sorted_by_state(dev_views(devs@));
            assert(sv[i] == r@[i]@);
            assert(sv[j] == r@[j]@);
            assert(rank(sv[i].state) <= rank(sv[j].state));
        }
    }
    r
}

/// Sorting by state keeps every device and puts them in rank order.
pub proof fn lemma_sorted_by_state(devs: Seq<DeviceView>)
    ensures
        sorted_by_state(devs).len() == devs.len(),
        forall|i: int, j: int|
            0 <= i < j < sorted_by_state(devs).len() ==> rank(#[trigger] sorted_by_state(devs)[i].state)
                <= rank(#[trigger] sorted_by_state(devs)[j].state),
{
    let c = of_state(devs, DevState::Connected);
    let p = of_state(devs, DevState::Paired);
    let a = of_state(devs, DevState::Available);
    lemma_of_state_all(devs, DevState::Connected);
    lemma_of_state_all(devs, DevState::Paired);
    lemma_of_state_all(devs, DevState::Available);
    lemma_state_counts(devs);
    let s = sorted_by_state(devs);
    assert forall|i: int| 0 <= i < s.len() implies rank(#[trigger] s[i].state) == if i < c.len() {
        0int
    } else if i < c.len() + p.len() {
        1int
    } else {
        2int
    } by {
        if i < c.len() {
            assert(s[i] == c[i]);
        } else if i < c.len() + p.len() {
            assert(s[i] == p[i - c.len()]);
        } else {
            assert(s[i] == a[i - c.len() - p.len()]);
        }
    }
}

proof fn lemma_state_multisets(devs: Seq<DeviceView>)
    ensures
        of_state(devs, DevState::Connected).to_multiset().add(of_state(devs, DevState::Paired).to_multiset()).add(
            of_state(devs, DevState::Available).to_multiset(),
        ) =~= devs.to_multiset(),
    decreases devs.len(),
{
    broadcast use vstd::seq_lib::group_to_multiset_ensures;
    broadcast use vstd::multiset::group_multiset_axioms;

    if devs.len() == 0 {
        assert(of_state(devs, DevState::Connected) =~= Seq::<DeviceView>::empty());
        assert(of_state(devs, DevState::Paired) =~= Seq::<DeviceView>::empty());
        assert(of_state(devs, DevState::Available) =~= Seq::<DeviceView>::empty());
        assert(devs =~= Seq::<DeviceView>::empty());
    } else {
        lemma_state_multisets(devs.drop_last());
        assert(devs.drop_last().push(devs.last()) =~= devs);
    }
}

/// Sorting by state neither loses nor adds a device.
pub proof fn lemma_sorted_by_state_permutes(devs: Seq<DeviceView>)
    ensures
        sorted_by_state(devs).to_multiset() =~= devs.to_multiset(),
{
    broadcast use vstd::seq_lib::lemma_multiset_commutative;

    lemma_state_multisets(devs);
}

proof fn lemma_state_counts(devs: Seq<DeviceView>)
    ensures
        of_state(devs, DevState::Connected).len() + of_state(devs, DevState::Paired).len()
            + of_state(devs, DevState::Available).len() == devs.len(),
    decreases devs.len(),
{
    if devs.len() > 0 {
        lemma_state_counts(devs.drop_last());
    }
}

} // verus!
