//! What the application knows of the devices between scans, and how each
//! user action or finished task changes it.

use vstd::prelude::*;
use crate::known::pair_views;
use crate::scan::{dev_views, BtDevice, DevState, DeviceView};
use crate::service::SysError;
use crate::text::{
    ascii_lower, ascii_upper, ascii_upper_seq, is_ascii_seq,
    chars_of, contains_chars, eq_ignore_case, eq_ignore_case_chars, has_substring, owned, to_upper,
    unicode_upper,
};

verus! {

/// The device list, whether a scan runs, and the remembered pairings
/// (address, name).
#[derive(Debug)]
pub struct ScanState {
    pub devices: Vec<BtDevice>,
    pub scanning: bool,
    pub known_paired: Vec<(String, String)>,
}

pub struct ScanView {
    pub devices: Seq<DeviceView>,
    pub scanning: bool,
    pub known: Seq<(Seq<char>, Seq<char>)>,
}

impl View for ScanState {
    type V = ScanView;

    open spec fn view(&self) -> ScanView {
        ScanView {
            devices: dev_views(self.devices@),
            scanning: self.scanning,
            known: pair_views(self.known_paired@),
        }
    }
}

/// What a scan task does once it has asked whether bluetoothd runs.
#[derive(Clone, Copy, Debug, PartialEq, Eq, Structural)]
pub enum ScanGate {
    /// bluetoothd runs: scan.
    Proceed,
    /// bluetoothd is off, or could not be asked: no scan.
    Skip,
    /// bluetoothd is in an unknown state: no scan, and the warning is shown.
    SkipUnknown,
}

/// The devices of `devs` with each one at `addr` (case aside) marked paired.
pub open spec fn mark_paired(devs: Seq<DeviceView>, addr: Seq<char>) -> Seq<DeviceView> {
    devs.map_values(
        |d: DeviceView|
            if eq_ignore_case(d.address, addr) {
                DeviceView { address: d.address, name: d.name, state: DevState::Paired }
            } else {
                d
            },
    )
}

/// The devices of `devs` that are not at `addr` (case aside), in order.
pub open spec fn devices_without(devs: Seq<DeviceView>, addr: Seq<char>) -> Seq<DeviceView>
    decreases devs.len(),
{
    if devs.len() == 0 {
        devs
    } else {
        let rest = devices_without(devs.drop_last(), addr);
        if eq_ignore_case(devs.last().address, addr) {
            rest
        } else {
            rest.push(devs.last())
        }
    }
}

/// The pairings of `known` that are not for `addr` (case aside), in order.
pub open spec fn known_without(known: Seq<(Seq<char>, Seq<char>)>, addr: Seq<char>) -> Seq<(Seq<char>, Seq<char>)>
    decreases known.len(),
{
    if known.len() == 0 {
        known
    } else {
        let rest = known_without(known.drop_last(), addr);
        if eq_ignore_case(known.last().0, addr) {
            rest
        } else {
            rest.push(known.last())
        }
    }
}

/// Some pairing of `known` is for `addr` (case aside).
pub open spec fn knows(known: Seq<(Seq<char>, Seq<char>)>, addr: Seq<char>) -> bool {
    exists|i: int| 0 <= i < known.len() && eq_ignore_case(#[trigger] known[i].0, addr)
}

/// A device's entry after a finished pairing session for `addr`: connected
/// where the device shows as connected now, else paired where the session
/// succeeded; and named `name` where it had only its address for a name and
/// `name` is neither empty nor the address.
pub open spec fn after_session(d: DeviceView, addr: Seq<char>, name: Seq<char>, success: bool, connected_now: bool) -> DeviceView {
    if eq_ignore_case(d.address, addr) {
        DeviceView {
            address: d.address,
            name: if d.name == d.address && name.len() > 0 && name != addr {
                name
            } else {
                d.name
            },
            state: if connected_now {
                DevState::Connected
            } else if success {
                DevState::Paired
            } else {
                d.state
            },
        }
    } else {
        d
    }
}

/// Whether the device at `addr` shows in `bluetoothctl devices Connected`
/// output: the upper-cased output holds the upper-cased address.
pub open spec fn shows_connected(connected_out: Seq<char>, addr: Seq<char>) -> bool {
    has_substring(unicode_upper(connected_out), unicode_upper(addr))
}

/// The state after a pairing session for `addr` named `name` ended with
/// `success`, given the `devices Connected` output read after it.
pub open spec fn after_pair_session(
    s: ScanView,
    addr: Seq<char>,
    name: Seq<char>,
    success: bool,
    connected_out: Seq<char>,
) -> ScanView {
    let now = shows_connected(connected_out, addr);
    let ok = success || now;
    let up = unicode_upper(addr);
    ScanView {
        devices: s.devices.map_values(|d: DeviceView| after_session(d, addr, name, success, now)),
        scanning: s.scanning,
        known: if ok && !knows(s.known, up) {
            s.known.push((up, name))
        } else {
            s.known
        },
    }
}

/// What a finished pairing session comes to.
#[derive(Clone, Copy, Debug, PartialEq, Eq, Structural)]
pub struct PairOutcome {
    /// The session succeeded or the device is connected now.
    pub ok: bool,
    /// A pairing was added to the remembered ones, which are to be saved.
    pub known_changed: bool,
}

impl ScanState {
    /// A state with no devices, no scan, and the given remembered pairings.
    pub fn new(known_paired: Vec<(String, String)>) -> (r: ScanState)
        ensures
            r@.devices == Seq::<DeviceView>::empty(),
            !r@.scanning,
            r@.known == pair_views(known_paired@),
    {
        let r = ScanState { devices: Vec::new(), scanning: false, known_paired };
        assert(dev_views(r.devices@) =~= Seq::<DeviceView>::empty());
        r
    }

    /// Starts a scan where Bluetooth is on and none runs; says whether it did.
    pub fn begin_scan(&mut self, bt_power: bool) -> (started: bool)
        ensures
            started == (bt_power && !old(self)@.scanning),
            final(self)@.scanning == (old(self)@.scanning || started),
            final(self)@.devices == old(self)@.devices,
            final(self)@.known == old(self)@.known,
    {
        if !bt_power {
            return false;
        }
        if self.scanning {
            return false;
        }
        self.scanning = true;
        true
    }

    /// What the scan task does with the answer to whether bluetoothd runs; a
    /// scan that will not happen stops here.
    pub fn scan_gate(&mut self, active: Result<bool, SysError>) -> (g: ScanGate)
        ensures
            g == match active {
                Ok(true) => ScanGate::Proceed,
                Err(SysError::BluetoothUnknownState) => ScanGate::SkipUnknown,
                _ => ScanGate::Skip,
            },
            final(self)@.scanning == (old(self)@.scanning && g == ScanGate::Proceed),
            final(self)@.devices == old(self)@.devices,
            final(self)@.known == old(self)@.known,
    {
        match active {
            Ok(true) => ScanGate::Proceed,
            Ok(false) => {
                self.scanning = false;
                ScanGate::Skip
            },
            Err(SysError::BluetoothUnknownState) => {
                self.scanning = false;
                ScanGate::SkipUnknown
            },
            Err(_) => {
                self.scanning = false;
                ScanGate::Skip
            },
        }
    }

    /// Ends a scan with the devices it found.
    pub fn finish_scan(&mut self, devices: Vec<BtDevice>)
        ensures
            final(self)@.devices == dev_views(devices@),
            !final(self)@.scanning,
            final(self)@.known == old(self)@.known,
    {
        self.devices = devices;
        self.scanning = false;
    }

    /// Marks that no scan runs.
    pub fn stop_scanning(&mut self)
        ensures
            !final(self)@.scanning,
            final(self)@.devices == old(self)@.devices,
            final(self)@.known == old(self)@.known,
    {
        self.scanning = false;
    }

    /// Empties the device list (Bluetooth was switched off).
    pub fn clear_devices(&mut self)
        ensures
            final(self)@.devices == Seq::<DeviceView>::empty(),
            final(self)@.scanning == old(self)@.scanning,
            final(self)@.known == old(self)@.known,
    {
        self.devices = Vec::new();
        assert(dev_views(self.devices@) =~= Seq::<DeviceView>::empty());
    }

    /// Shows the device at `addr` as paired at once, while it is being disconnected.
    pub fn mark_disconnected(&mut self, addr: &str)
        ensures
            final(self)@.devices == mark_paired(old(self)@.devices, addr@),
            final(self)@.scanning == old(self)@.scanning,
            final(self)@.known == old(self)@.known,
    {
        let av = chars_of(addr);
        let ghost start = dev_views(self.devices@);
        let mut devices: Vec<BtDevice> = Vec::new();
        let mut i: usize = 0;
        while i < self.devices.len()
            invariant
                i <= self.devices@.len(),
                start == dev_views(self.devices@),
                av@ == addr@,
                dev_views(devices@) == mark_paired(start, addr@).take(i as int),
            decreases start.len() - i,
        {
            let d = &self.devices[i];
            let dv = chars_of(d.address.as_str());
            let state = if eq_ignore_case_chars(dv.as_slice(), av.as_slice()) {
                DevState::Paired
            } else {
                d.state
            };
            let updated = BtDevice { address: d.address.clone(), name: d.name.clone(), state };
            let ghost before = dev_views(devices@);
            devices.push(updated);
            assert(dev_views(devices@) =~= before.push(updated@));
            i = i + 1;
            assert(dev_views(devices@) =~= mark_paired(start, addr@).take(i as int));
        }
        assert(mark_paired(start, addr@).take(start.len() as int) =~= mark_paired(start, addr@));
        self.devices = devices;
    }

    /// Forgets the device at `addr`: its remembered pairing and its entry in
    /// the list (both matched against the upper-cased address, case aside).
    pub fn forget_device(&mut self, addr: &str)
        ensures
            final(self)@.known == known_without(old(self)@.known, unicode_upper(addr@)),
            final(self)@.devices == devices_without(old(self)@.devices, unicode_upper(addr@)),
            final(self)@.scanning == old(self)@.scanning,
            final(self)@.known == old(self)@.known.filter(
                |p: (Seq<char>, Seq<char>)| !eq_ignore_case(p.0, unicode_upper(addr@)),
            ),
            final(self)@.devices == old(self)@.devices.filter(
                |d: DeviceView| !eq_ignore_case(d.address, unicode_upper(addr@)),
            ),
    {
        proof {
            lemma_forget_is_filter(old(self)@.devices, old(self)@.known, unicode_upper(addr@));
        }
        let up = to_upper(addr);
        let uv = chars_of(up.as_str());
        let mut known: Vec<(String, String)> = Vec::new();
        let mut i: usize = 0;
        while i < self.known_paired.len()
            invariant
                i <= self.known_paired@.len(),
                uv@ == unicode_upper(addr@),
                pair_views(known@) == known_without(pair_views(self.known_paired@).take(i as int), uv@),
            decreases self.known_paired@.len() - i,
        {
            let ghost kv = pair_views(self.known_paired@);
            assert(kv.take(i + 1).drop_last() == kv.take(i as int));
            assert(kv.take(i + 1).last() == kv[i as int]);
            let mv = chars_of(self.known_paired[i].0.as_str());
            if !eq_ignore_case_chars(mv.as_slice(), uv.as_slice()) {
                let ghost before = pair_views(known@);
                let entry = (self.known_paired[i].0.clone(), self.known_paired[i].1.clone());
                known.push(entry);
                assert(pair_views(known@) =~= before.push(kv[i as int]));
            }
            i = i + 1;
        }
        assert(pair_views(self.known_paired@).take(self.known_paired@.len() as int) =~= pair_views(self.known_paired@));
        let mut devices: Vec<BtDevice> = Vec::new();
        let mut j: usize = 0;
        while j < self.devices.len()
            invariant
                j <= self.devices@.len(),
                uv@ == unicode_upper(addr@),
                dev_views(devices@) == devices_without(dev_views(self.devices@).take(j as int), uv@),
            decreases self.devices@.len() - j,
        {
            let ghost dvs = dev_views(self.devices@);
            assert(dvs.take(j + 1).drop_last() == dvs.take(j as int));
            assert(dvs.take(j + 1).last() == dvs[j as int]);
            let av = chars_of(self.devices[j].address.as_str());
            if !eq_ignore_case_chars(av.as_slice(), uv.as_slice()) {
                let ghost before = dev_views(devices@);
                let d = self.devices[j].duplicate();
                devices.push(d);
                assert(dev_views(devices@) =~= before.push(dvs[j as int]));
            }
            j = j + 1;
        }
        assert(dev_views(self.devices@).take(self.devices@.len() as int) =~= dev_views(self.devices@));
        self.known_paired = known;
        self.devices = devices;
    }

    /// Takes in the end of a pairing session for `addr` named `name`: the
    /// session's result, and the `devices Connected` output read after it.
    pub fn record_pair_outcome(&mut self, addr: &str, name: &str, success: bool, connected_out: &str) -> (r: PairOutcome)
        ensures
            final(self)@ == after_pair_session(old(self)@, addr@, name@, success, connected_out@),
            r.ok == (success || shows_connected(connected_out@, addr@)),
            r.known_changed == (r.ok && !knows(old(self)@.known, unicode_upper(addr@))),
            r.ok && is_ascii_seq(addr@) ==> knows(final(self)@.known, addr@),
            final(self)@.devices.len() == old(self)@.devices.len(),
            forall|i: int|
                0 <= i < old(self)@.devices.len() ==> {
                    let before = old(self)@.devices[i];
                    let after = #[trigger] final(self)@.devices[i];
                    let matches = eq_ignore_case(before.address, addr@);
                    let listed_now = has_substring(unicode_upper(connected_out@), unicode_upper(addr@));
                    &&& after.address == before.address
                    &&& matches && listed_now ==> after.state == DevState::Connected
                    &&& matches && !listed_now && success ==> after.state == DevState::Paired
                    &&& matches && !listed_now && !success ==> after.state == before.state
                    &&& matches && before.name == before.address && name@.len() > 0 && name@ != addr@
                        ==> after.name == name@
                    &&& !(before.name == before.address && name@.len() > 0 && name@ != addr@)
                        ==> after.name == before.name
                    &&& !matches ==> after == before
                },
            final(self)@.scanning == old(self)@.scanning,
            r.ok ==> knows(final(self)@.known, unicode_upper(addr@)),
            !r.ok || knows(old(self)@.known, unicode_upper(addr@)) ==> final(self)@.known == old(self)@.known,
            final(self)@.known == old(self)@.known || final(self)@.known == old(self)@.known.push(
                (unicode_upper(addr@), name@),
            ),
    {
        let out_up = to_upper(connected_out);
        let addr_up = to_upper(addr);
        let ov = chars_of(out_up.as_str());
        let av = chars_of(addr_up.as_str());
        let now = contains_chars(ov.as_slice(), av.as_slice());
        let ok = success || now;
        let mut known_changed = false;
        if ok {
            let mut found = false;
            let mut i: usize = 0;
            while i < self.known_paired.len()
                invariant
                    i <= self.known_paired@.len(),
                    av@ == unicode_upper(addr@),
                    found == exists|k: int| 0 <= k < i && eq_ignore_case(#[trigger] pair_views(self.known_paired@)[k].0, av@),
                decreases self.known_paired@.len() - i,
            {
                let mv = chars_of(self.known_paired[i].0.as_str());
                if eq_ignore_case_chars(mv.as_slice(), av.as_slice()) {
                    assert(eq_ignore_case(pair_views(self.known_paired@)[i as int].0, av@));
                    found = true;
                }
                i = i + 1;
            }
            if !found {
                let ghost before = pair_views(self.known_paired@);
                self.known_paired.push((addr_up, owned(name)));
                assert(pair_views(self.known_paired@) =~= before.push((unicode_upper(addr@), name@)));
                known_changed = true;
            }
        }
        let avv = chars_of(addr);
        let nv = chars_of(name);
        let name_s = owned(name);
        let addr_s = owned(addr);
        let name_differs = !(name_s == addr_s);
        let ghost start = dev_views(self.devices@);
        let ghost target = start.map_values(|d: DeviceView| after_session(d, addr@, name@, success, now));
        let mut devices: Vec<BtDevice> = Vec::new();
        let mut j: usize = 0;
        while j < self.devices.len()
            invariant
                j <= self.devices@.len(),
                start == dev_views(self.devices@),
                target == start.map_values(|d: DeviceView| after_session(d, addr@, name@, success, now)),
                avv@ == addr@,
                nv@ == name@,
                name_differs == (name@ != addr@),
                dev_views(devices@) == target.take(j as int),
            decreases start.len() - j,
        {
            let d = &self.devices[j];
            let dv = chars_of(d.address.as_str());
            let updated = if eq_ignore_case_chars(dv.as_slice(), avv.as_slice()) {
                let state = if now {
                    DevState::Connected
                } else if success {
                    DevState::Paired
                } else {
                    d.state
                };
                let new_name = if d.name == d.address && nv.len() > 0 && name_differs {
                    owned(name)
                } else {
                    d.name.clone()
                };
                BtDevice { address: d.address.clone(), name: new_name, state }
            } else {
                d.duplicate()
            };
            let ghost before = dev_views(devices@);
            devices.push(updated);
            assert(dev_views(devices@) =~= before.push(updated@));
            j = j + 1;
            assert(dev_views(devices@) =~= target.take(j as int));
        }
        assert(target.take(start.len() as int) =~= target);
        self.devices = devices;
        proof {
            lemma_session_states(old(self)@, addr@, name@, success, connected_out@);
            if ok && is_ascii_seq(addr@) {
                lemma_success_remembers(old(self)@, addr@, name@, connected_out@);
                lemma_upper_same_case(addr@);
                let k = pair_views(self.known_paired@);
                let up = unicode_upper(addr@);
                assert(knows(k, up));
                let i = choose|i: int| 0 <= i < k.len() && eq_ignore_case(#[trigger] k[i].0, up);
                assert(eq_ignore_case(k[i].0, addr@)) by {
                    assert forall|j: int| 0 <= j < k[i].0.len() implies ascii_lower(#[trigger] k[i].0[j])
                        == ascii_lower(addr@[j]) by {
                        assert(ascii_lower(k[i].0[j]) == ascii_lower(up[j]));
                        assert(ascii_lower(up[j]) == ascii_lower(addr@[j]));
                    }
                }
            }
        }
        PairOutcome { ok, known_changed }
    }
}

/// After a pairing session for `addr`, each device at `addr` (case aside) is
/// connected where the `devices Connected` output lists the address, whether
/// the session succeeded or not; else paired where it succeeded; else as it
/// was. Every other device stays as it was, and no device is added or dropped.
pub proof fn lemma_session_states(
    s: ScanView,
    addr: Seq<char>,
    name: Seq<char>,
    success: bool,
    connected_out: Seq<char>,
)
    ensures
        after_pair_session(s, addr, name, success, connected_out).devices.len() == s.devices.len(),
        forall|i: int|
            0 <= i < s.devices.len() ==> {
                let before = s.devices[i];
                let after = #[trigger] after_pair_session(s, addr, name, success, connected_out).devices[i];
                let matches = eq_ignore_case(before.address, addr);
                let listed_now = has_substring(unicode_upper(connected_out), unicode_upper(addr));
                &&& after.address == before.address
                &&& matches && listed_now ==> after.state == DevState::Connected
                &&& matches && !listed_now && success ==> after.state == DevState::Paired
                &&& matches && !listed_now && !success ==> after.state == before.state
                &&& matches && before.name == before.address && name.len() > 0 && name != addr
                    ==> after.name == name
                &&& !(before.name == before.address && name.len() > 0 && name != addr) ==> after.name
                    == before.name
                &&& !matches ==> after == before
            },
        ({
            let after = after_pair_session(s, addr, name, success, connected_out);
            let up = unicode_upper(addr);
            let ok = success || has_substring(unicode_upper(connected_out), up);
            &&& after.scanning == s.scanning
            &&& ok ==> knows(after.known, up)
            &&& !ok || knows(s.known, up) ==> after.known == s.known
            &&& after.known == s.known || after.known == s.known.push((up, name))
        }),
{
    let up = unicode_upper(addr);
    let k = after_pair_session(s, addr, name, success, connected_out).known;
    if (success || shows_connected(connected_out, addr)) && !knows(s.known, up) {
        assert(k[k.len() - 1].0 == up);
        assert(eq_ignore_case(k[k.len() - 1].0, up));
    }
}

/// Upper-casing the ASCII letters keeps a text equal to itself, case aside.
pub proof fn lemma_upper_same_case(a: Seq<char>)
    ensures
        eq_ignore_case(ascii_upper_seq(a), a),
{
    assert forall|j: int| 0 <= j < a.len() implies ascii_lower(#[trigger] ascii_upper_seq(a)[j])
        == ascii_lower(a[j]) by {
        let c = a[j];
        assert(ascii_upper_seq(a)[j] == ascii_upper(c));
    }
}

/// Forgetting an address keeps exactly the remembered pairings and the
/// devices whose address differs from it (case aside), in their order.
pub proof fn lemma_forget_is_filter(devs: Seq<DeviceView>, known: Seq<(Seq<char>, Seq<char>)>, addr: Seq<char>)
    ensures
        known_without(known, addr) == known.filter(
            |p: (Seq<char>, Seq<char>)| !eq_ignore_case(p.0, addr),
        ),
        devices_without(devs, addr) == devs.filter(|d: DeviceView| !eq_ignore_case(d.address, addr)),
    decreases devs.len() + known.len(),
{
    reveal(Seq::filter);
    if known.len() > 0 {
        lemma_forget_is_filter(devs, known.drop_last(), addr);
    }
    if devs.len() > 0 {
        lemma_forget_is_filter(devs.drop_last(), known, addr);
    }
}

/// Forgetting an address a second time changes nothing more.
pub proof fn lemma_forget_twice(devs: Seq<DeviceView>, known: Seq<(Seq<char>, Seq<char>)>, addr: Seq<char>)
    ensures
        known_without(known_without(known, addr), addr) == known_without(known, addr),
        devices_without(devices_without(devs, addr), addr) == devices_without(devs, addr),
    decreases devs.len() + known.len(),
{
    if known.len() > 0 {
        lemma_forget_twice(devs, known.drop_last(), addr);
        let rest = known_without(known.drop_last(), addr);
        if !eq_ignore_case(known.last().0, addr) {
            assert(rest.push(known.last()).drop_last() =~= rest);
        }
    }
    if devs.len() > 0 {
        lemma_forget_twice(devs.drop_last(), known, addr);
        let rest = devices_without(devs.drop_last(), addr);
        if !eq_ignore_case(devs.last().address, addr) {
            assert(rest.push(devs.last()).drop_last() =~= rest);
        }
    }
}

/// Forgetting an address leaves neither a device nor a remembered pairing for
/// it, and keeps everything else.
pub proof fn lemma_forget_removes(devs: Seq<DeviceView>, known: Seq<(Seq<char>, Seq<char>)>, addr: Seq<char>)
    ensures
        forall|i: int|
            0 <= i < devices_without(devs, addr).len() ==> !eq_ignore_case(
                #[trigger] devices_without(devs, addr)[i].address,
                addr,
            ),
        forall|i: int|
            0 <= i < devs.len() && !eq_ignore_case(devs[i].address, addr) ==> devices_without(
                devs,
                addr,
            ).contains(#[trigger] devs[i]),
        !knows(known_without(known, addr), addr),
    decreases devs.len() + known.len(),
{
    if devs.len() > 0 {
        lemma_forget_removes(devs.drop_last(), known, addr);
        let rest = devices_without(devs.drop_last(), addr);
        let r = devices_without(devs, addr);
        assert forall|i: int| 0 <= i < devs.len() && !eq_ignore_case(devs[i].address, addr) implies r.contains(
            #[trigger] devs[i],
        ) by {
            if i < devs.len() - 1 {
                assert(devs.drop_last()[i] == devs[i]);
                let k = choose|k: int| 0 <= k < rest.len() && rest[k] == devs[i];
                assert(r[k] == rest[k]);
            } else {
                assert(r[r.len() - 1] == devs[i]);
            }
        }
    } else if known.len() > 0 {
        lemma_forget_removes(devs, known.drop_last(), addr);
    }
}

/// A pairing session that succeeded leaves the device remembered, under its
/// upper-cased address, and a second one adds no second entry.
pub proof fn lemma_success_remembers(
    s: ScanView,
    addr: Seq<char>,
    name: Seq<char>,
    connected_out: Seq<char>,
)
    ensures
        knows(after_pair_session(s, addr, name, true, connected_out).known, unicode_upper(addr)),
        knows(s.known, unicode_upper(addr)) ==> after_pair_session(s, addr, name, true, connected_out).known
            == s.known,
{
    let up = unicode_upper(addr);
    let k = after_pair_session(s, addr, name, true, connected_out).known;
    if !knows(s.known, up) {
        assert(k[k.len() - 1].0 == up);
        assert(eq_ignore_case(k[k.len() - 1].0, up));
    }
}

/// Disconnecting shows the device as paired and leaves every other device,
/// and every address and name, as it was.
pub proof fn lemma_mark_paired(devs: Seq<DeviceView>, addr: Seq<char>)
    ensures
        mark_paired(devs, addr).len() == devs.len(),
        forall|i: int|
            0 <= i < devs.len() ==> {
                let d = #[trigger] mark_paired(devs, addr)[i];
                &&& d.address == devs[i].address
                &&& d.name == devs[i].name
                &&& d.state == if eq_ignore_case(devs[i].address, addr) {
                    DevState::Paired
                } else {
                    devs[i].state
                }
            },
{
}

} // verus!
