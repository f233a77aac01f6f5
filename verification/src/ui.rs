//! The decisions behind the window: language, labels, which buttons a device
//! gets, and what the answers to the start-up checks mean.

use vstd::prelude::*;
use crate::pairing::PairGoal;
use crate::scan::{BtDevice, DevState};
use crate::service::SysError;
use crate::text::{
    chars_of, contains_chars, eq_ignore_case, has_substring, owned, starts_with, starts_with_chars,
    str_eq_ignore_case, str_views, to_lower, unicode_lower,
};

verus! {

/// Whether one of the locale values (`LANG`, `LANGUAGE`, `LC_ALL`,
/// `LC_MESSAGES`, those that are set) asks for Russian: it starts with `ru`
/// in lower case.
pub open spec fn asks_russian(values: Seq<Seq<char>>) -> bool {
    exists|i: int| 0 <= i < values.len() && starts_with(unicode_lower(#[trigger] values[i]), "ru"@)
}

/// Whether the interface should be Russian rather than English.
pub fn prefers_russian(values: &Vec<String>) -> (b: bool)
    ensures
        b == asks_russian(str_views(values@)),
{
    let ru = chars_of("ru");
    let mut i: usize = 0;
    while i < values.len()
        invariant
            i <= values@.len(),
            ru@ == "ru"@,
            forall|k: int| 0 <= k < i ==> !starts_with(unicode_lower(#[trigger] str_views(values@)[k]), "ru"@),
        decreases values@.len() - i,
    {
        let lower = to_lower(values[i].as_str());
        let lv = chars_of(lower.as_str());
        assert(str_views(values@)[i as int] == values@[i as int]@);
        if starts_with_chars(lv.as_slice(), ru.as_slice()) {
            return true;
        }
        i = i + 1;
    }
    false
}

/// How a session log line is coloured.
#[derive(Clone, Copy, Debug, PartialEq, Eq, Structural)]
pub enum LineTone {
    Success,
    Failure,
    Plain,
}

/// The tone of a log line: success where it starts with a check mark, failure
/// where it starts with a cross or mentions failing, plain otherwise.
pub open spec fn line_tone(line: Seq<char>) -> LineTone {
    if starts_with(line, "\u{2714}"@) {
        LineTone::Success
    } else if starts_with(line, "\u{274c}"@) || has_substring(unicode_lower(line), "fail"@) {
        LineTone::Failure
    } else {
        LineTone::Plain
    }
}

/// The tone of a session log line.
pub fn log_line_tone(line: &str) -> (t: LineTone)
    ensures
        t == line_tone(line@),
{
    let lv = chars_of(line);
    let check = chars_of("\u{2714}");
    if starts_with_chars(lv.as_slice(), check.as_slice()) {
        return LineTone::Success;
    }
    let cross = chars_of("\u{274c}");
    if starts_with_chars(lv.as_slice(), cross.as_slice()) {
        return LineTone::Failure;
    }
    let lower = to_lower(line);
    let low = chars_of(lower.as_str());
    let fail = chars_of("fail");
    if contains_chars(low.as_slice(), fail.as_slice()) {
        LineTone::Failure
    } else {
        LineTone::Plain
    }
}

/// What a device row shows: its name and, beside it, its address; or its
/// address alone (and a blank) where the name is the address, case aside.
pub open spec fn row_labels(address: Seq<char>, name: Seq<char>) -> (Seq<char>, Seq<char>) {
    if !eq_ignore_case(name, address) {
        (name, address)
    } else {
        (address, " "@)
    }
}

/// The two labels of a device row.
pub fn device_row_labels(dev: &BtDevice) -> (r: (String, String))
    ensures
        (r.0@, r.1@) == row_labels(dev.address@, dev.name@),
{
    if !str_eq_ignore_case(dev.name.as_str(), dev.address.as_str()) {
        (dev.name.clone(), dev.address.clone())
    } else {
        (dev.address.clone(), owned(" "))
    }
}

/// The device that is selected after a click on the row of `addr`: none where
/// it was selected, else that one.
pub fn toggle_selection(selected: &Option<String>, addr: &str) -> (r: Option<String>)
    ensures
        match *selected {
            Some(s) if s@ == addr@ => r is None,
            _ => r matches Some(n) && n@ == addr@,
        },
{
    let a = owned(addr);
    match selected {
        Some(s) => {
            if *s == a {
                None
            } else {
                Some(a)
            }
        },
        None => Some(a),
    }
}

/// What can be done to a device from its window.
#[derive(Clone, Copy, Debug, PartialEq, Eq, Structural)]
pub enum DeviceAction {
    Disconnect,
    Unpair,
    Connect,
    Repair,
    Pair,
}

/// The buttons of a device's window.
pub open spec fn actions_for_state(st: DevState) -> Seq<DeviceAction> {
    match st {
        DevState::Connected => seq![DeviceAction::Disconnect, DeviceAction::Unpair],
        DevState::Paired => seq![DeviceAction::Connect, DeviceAction::Unpair],
        DevState::Available => seq![DeviceAction::Pair],
    }
}

/// The buttons of a device's window, in order.
pub fn device_actions(st: DevState) -> (r: Vec<DeviceAction>)
    ensures
        r@ == actions_for_state(st),
        st == DevState::Connected ==> r@.contains(DeviceAction::Disconnect) && !r@.contains(
            DeviceAction::Connect,
        ),
        st == DevState::Paired ==> r@.contains(DeviceAction::Connect) && !r@.contains(
            DeviceAction::Disconnect,
        ),
        st != DevState::Available ==> r@.contains(DeviceAction::Unpair) && !r@.contains(DeviceAction::Pair),
        st == DevState::Available ==> r@ == seq![DeviceAction::Pair],
{
    let mut r: Vec<DeviceAction> = Vec::new();
    match st {
        DevState::Connected => {
            r.push(DeviceAction::Disconnect);
            r.push(DeviceAction::Unpair);
        },
        DevState::Paired => {
            r.push(DeviceAction::Connect);
            r.push(DeviceAction::Unpair);
        },
        DevState::Available => {
            r.push(DeviceAction::Pair);
        },
    }
    assert(r@ =~= actions_for_state(st));
    match st {
        DevState::Available => {},
        _ => {
            assert(r@[0] != DeviceAction::Pair && r@[1] != DeviceAction::Pair);
            assert(r@[1] == DeviceAction::Unpair);
            if st == DevState::Connected {
                assert(r@[0] == DeviceAction::Disconnect);
            } else {
                assert(r@[0] == DeviceAction::Connect);
            }
        },
    }
    r
}

/// The pairing session that an action opens, if any.
pub fn session_goal(a: DeviceAction) -> (r: Option<PairGoal>)
    ensures
        r == match a {
            DeviceAction::Connect => Some(PairGoal::Reconnect),
            DeviceAction::Repair => Some(PairGoal::RepairForce),
            DeviceAction::Pair => Some(PairGoal::PairFresh),
            _ => None,
        },
{
    match a {
        DeviceAction::Connect => Some(PairGoal::Reconnect),
        DeviceAction::Repair => Some(PairGoal::RepairForce),
        DeviceAction::Pair => Some(PairGoal::PairFresh),
        _ => None,
    }
}

/// What becomes of the warning about bluetoothd's state.
#[derive(Clone, Copy, Debug, PartialEq, Eq, Structural)]
pub enum DaemonWarning {
    /// Take the warning away.
    Clear,
    /// Show that bluetoothd is in an unknown state.
    Unknown,
    /// Leave it as it is.
    Keep,
}

/// Whether Bluetooth counts as on after the password was accepted, and what
/// becomes of the warning, from whether bluetoothd is active.
pub fn power_after_auth(active: Result<bool, SysError>) -> (r: (bool, DaemonWarning))
    ensures
        r == match active {
            Ok(a) => (a, DaemonWarning::Clear),
            Err(SysError::BluetoothUnknownState) => (false, DaemonWarning::Unknown),
            Err(_) => (false, DaemonWarning::Keep),
        },
{
    match active {
        Ok(a) => (a, DaemonWarning::Clear),
        Err(SysError::BluetoothUnknownState) => (false, DaemonWarning::Unknown),
        Err(_) => (false, DaemonWarning::Keep),
    }
}

} // verus!
