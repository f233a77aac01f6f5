//! The Bluetooth service and adapter: what to check, what to run, and how to
//! read what comes back.

use vstd::prelude::*;
use crate::text::{concat_str, has_substring, owned, str_contains, str_views, to_upper, unicode_upper};

verus! {

/// What is wrong with the system's Bluetooth setup.
#[derive(Clone, Copy, Debug, PartialEq, Eq, Structural)]
pub enum SysError {
    NoBluetoothctl,
    NoBluetoothd,
    NoDbus,
    BluetoothUnknownState,
}

/// The package to install for an error (Void Linux names); empty where
/// installing does not help.
pub fn install_hint(err: &SysError) -> (r: &'static str)
    ensures
        r@ == match *err {
            SysError::NoDbus => "dbus"@,
            SysError::NoBluetoothd => "bluez"@,
            SysError::NoBluetoothctl => "bluez"@,
            SysError::BluetoothUnknownState => ""@,
        },
{
    match err {
        SysError::NoDbus => "dbus",
        SysError::NoBluetoothd => "bluez",
        SysError::NoBluetoothctl => "bluez",
        SysError::BluetoothUnknownState => "",
    }
}

/// What the startup probes found: whether `which` finds each program, and
/// whether each of the files that also show it is there.
#[derive(Clone, Copy, Debug)]
pub struct SystemProbe {
    pub dbus_on_path: bool,
    pub dbus_socket_run: bool,
    pub dbus_socket_var_run: bool,
    pub bluetoothd_on_path: bool,
    pub bluetoothd_in_usr_lib: bool,
    pub bluetoothd_in_usr_libexec: bool,
    pub bluetoothctl_on_path: bool,
}

/// The problems that a probe shows, in the order D-Bus, bluetoothd, bluetoothctl.
pub open spec fn sys_errors(p: SystemProbe) -> Seq<SysError> {
    let has_dbus = p.dbus_on_path || p.dbus_socket_run || p.dbus_socket_var_run;
    let has_daemon = p.bluetoothd_on_path || p.bluetoothd_in_usr_lib || p.bluetoothd_in_usr_libexec;
    (if has_dbus { seq![] } else { seq![SysError::NoDbus] }) + (if has_daemon {
        seq![]
    } else {
        seq![SysError::NoBluetoothd]
    }) + (if p.bluetoothctl_on_path { seq![] } else { seq![SysError::NoBluetoothctl] })
}

/// The missing pieces of the Bluetooth stack that a probe shows.
pub fn check_system_deps(p: &SystemProbe) -> (r: Vec<SysError>)
    ensures
        r@ == sys_errors(*p),
        r@.contains(SysError::NoDbus) <==> !(p.dbus_on_path || p.dbus_socket_run || p.dbus_socket_var_run),
        r@.contains(SysError::NoBluetoothd) <==> !(p.bluetoothd_on_path || p.bluetoothd_in_usr_lib
            || p.bluetoothd_in_usr_libexec),
        r@.contains(SysError::NoBluetoothctl) <==> !p.bluetoothctl_on_path,
        !r@.contains(SysError::BluetoothUnknownState),
{
    let mut errors: Vec<SysError> = Vec::new();
    if !(p.dbus_on_path || p.dbus_socket_run || p.dbus_socket_var_run) {
        errors.push(SysError::NoDbus);
    }
    if !(p.bluetoothd_on_path || p.bluetoothd_in_usr_lib || p.bluetoothd_in_usr_libexec) {
        errors.push(SysError::NoBluetoothd);
    }
    if !p.bluetoothctl_on_path {
        errors.push(SysError::NoBluetoothctl);
    }
    assert(errors@ =~= sys_errors(*p));
    proof {
        let e = errors@;
        let has_dbus = p.dbus_on_path || p.dbus_socket_run || p.dbus_socket_var_run;
        let has_daemon = p.bluetoothd_on_path || p.bluetoothd_in_usr_lib || p.bluetoothd_in_usr_libexec;
        let i1: int = if has_dbus { 0 } else { 1 };
        let i2: int = i1 + if has_daemon { 0int } else { 1int };
        if !has_dbus {
            assert(e[0] == SysError::NoDbus);
        }
        if !has_daemon {
            assert(e[i1] == SysError::NoBluetoothd);
        }
        if !p.bluetoothctl_on_path {
            assert(e[i2] == SysError::NoBluetoothctl);
        }
        assert(e.len() == i2 + if p.bluetoothctl_on_path { 0int } else { 1int });
        assert forall|k: int| 0 <= k < e.len() implies {
            &&& (#[trigger] e[k] == SysError::NoDbus ==> !has_dbus)
            &&& (e[k] == SysError::NoBluetoothd ==> !has_daemon)
            &&& (e[k] == SysError::NoBluetoothctl ==> !p.bluetoothctl_on_path)
            &&& e[k] != SysError::BluetoothUnknownState
        } by {
            if k < i1 {
                assert(e[k] == SysError::NoDbus);
            } else if k < i2 {
                assert(e[k] == SysError::NoBluetoothd);
            } else {
                assert(e[k] == SysError::NoBluetoothctl);
            }
        }
    }
    errors
}

/// Whether the service manager must be asked for the status: only where the
/// service link is there and no `down` file stops it.
pub fn status_query_needed(svc_linked: bool, down_file: bool) -> (b: bool)
    ensures
        b == (svc_linked && !down_file),
{
    svc_linked && !down_file
}

/// Whether bluetoothd runs, from the service link, the `down` file and the
/// output of `sv status bluetoothd`: not without the link or with the down
/// file; not where the status says `down:`; yes where it says `run:`;
/// and an unknown state otherwise.
pub open spec fn daemon_state(svc_linked: bool, down_file: bool, status: Seq<char>) -> Result<bool, SysError> {
    if !svc_linked {
        Ok(false)
    } else if down_file {
        Ok(false)
    } else if has_substring(status, "down:"@) {
        Ok(false)
    } else if has_substring(status, "run:"@) {
        Ok(true)
    } else {
        Err(SysError::BluetoothUnknownState)
    }
}

/// Whether bluetoothd is active; `status` is read only where
/// `status_query_needed` says so.
pub fn bluetoothd_is_active(svc_linked: bool, down_file: bool, status: &str) -> (r: Result<bool, SysError>)
    ensures
        r == daemon_state(svc_linked, down_file, status@),
        !svc_linked || down_file ==> r == Ok::<bool, SysError>(false),
        has_substring(status@, "down:"@) ==> r == Ok::<bool, SysError>(false),
        svc_linked && !down_file && !has_substring(status@, "down:"@) && has_substring(status@, "run:"@)
            ==> r == Ok::<bool, SysError>(true),
        r is Err ==> r == Err::<bool, SysError>(SysError::BluetoothUnknownState) && svc_linked
            && !down_file && !has_substring(status@, "down:"@) && !has_substring(status@, "run:"@),
{
    if !svc_linked {
        return Ok(false);
    }
    if down_file {
        return Ok(false);
    }
    if str_contains(status, "down:") {
        return Ok(false);
    }
    if str_contains(status, "run:") {
        return Ok(true);
    }
    Err(SysError::BluetoothUnknownState)
}

/// Whether `sv status` output shows the service running.
pub fn status_shows_running(status: &str) -> (b: bool)
    ensures
        b == has_substring(status@, "run:"@),
{
    str_contains(status, "run:")
}

/// Whether the adapter is powered and discoverable, from `bluetoothctl show`.
pub fn bt_get_state(show_output: &str) -> (r: (bool, bool))
    ensures
        r == (has_substring(show_output@, "Powered: yes"@), has_substring(
            show_output@,
            "Discoverable: yes"@,
        )),
{
    (str_contains(show_output, "Powered: yes"), str_contains(show_output, "Discoverable: yes"))
}

/// A command line of three words.
fn command3(a: &str, b: &str, c: &str) -> (r: Vec<String>)
    ensures
        str_views(r@) == seq![a@, b@, c@],
{
    let mut r: Vec<String> = Vec::new();
    r.push(owned(a));
    r.push(owned(b));
    r.push(owned(c));
    assert(str_views(r@) =~= seq![a@, b@, c@]);
    r
}

/// The command that makes the adapter visible or hidden.
pub fn bt_set_discoverable(on: bool) -> (r: Vec<String>)
    ensures
        str_views(r@) == seq!["bluetoothctl"@, "discoverable"@, if on { "on"@ } else { "off"@ }],
{
    let val = if on {
        "on"
    } else {
        "off"
    };
    command3("bluetoothctl", "discoverable", val)
}

/// The command that disconnects the device at `addr`.
pub fn bt_disconnect(addr: &str) -> (r: Vec<String>)
    ensures
        str_views(r@) == seq!["bluetoothctl"@, "disconnect"@, addr@],
{
    command3("bluetoothctl", "disconnect", addr)
}

/// The two commands that forget the device at `addr`: `bluetoothctl remove`,
/// then removing what bluetoothd stored for it (under its upper-cased address).
pub fn bt_unpair(addr: &str) -> (r: (Vec<String>, Vec<String>))
    ensures
        str_views(r.0@) == seq!["bluetoothctl"@, "remove"@, addr@],
        str_views(r.1@) == seq!["sh"@, "-c"@, "rm -rf /var/lib/bluetooth/*/"@ + unicode_upper(addr@)],
{
    let remove = command3("bluetoothctl", "remove", addr);
    let up = to_upper(addr);
    let script = concat_str("rm -rf /var/lib/bluetooth/*/", up.as_str());
    let wipe = command3("sh", "-c", script.as_str());
    (remove, wipe)
}

/// One step of turning the service on or off.
#[derive(Debug)]
pub enum ServiceStep {
    /// Run this command with sudo.
    Run(Vec<String>),
    /// Wait this many milliseconds.
    PauseMs(u64),
}

/// A service step as plain values.
pub enum StepView {
    Run(Seq<Seq<char>>),
    PauseMs(u64),
}

impl View for ServiceStep {
    type V = StepView;

    open spec fn view(&self) -> StepView {
        match self {
            ServiceStep::Run(cmd) => StepView::Run(str_views(cmd@)),
            ServiceStep::PauseMs(ms) => StepView::PauseMs(*ms),
        }
    }
}

/// The view of each step, in order.
pub open spec fn step_views(v: Seq<ServiceStep>) -> Seq<StepView> {
    v.map_values(|s: ServiceStep| s@)
}

/// Turning bluetoothd on: remove the `down` file where there is one, link the
/// service where it is not linked, each followed by a pause; then `sv up`.
/// The wait for the service that follows is `enable_poll_start` and
/// `enable_poll_step`.
pub open spec fn enable_plan(down_file: bool, svc_linked: bool) -> Seq<StepView> {
    (if down_file {
        seq![
            StepView::Run(seq!["rm"@, "-f"@, "/var/service/bluetoothd/down"@]),
            StepView::PauseMs(200),
        ]
    } else {
        seq![]
    }) + (if !svc_linked {
        seq![
            StepView::Run(seq!["ln"@, "-sf"@, "/etc/sv/bluetoothd"@, "/var/service/bluetoothd"@]),
            StepView::PauseMs(500),
        ]
    } else {
        seq![]
    }) + seq![StepView::Run(seq!["sv"@, "up"@, "bluetoothd"@])]
}

/// How many times, 400 ms apart, to look whether bluetoothd came up.
pub const ENABLE_STATUS_POLLS: u32 = 10;

/// The pause between two looks at the status after `sv up`.
pub const ENABLE_POLL_PAUSE_MS: u64 = 400;

/// What the wait for bluetoothd to come up does next.
#[derive(Clone, Copy, Debug, PartialEq, Eq, Structural)]
pub enum PollDecision {
    /// Stop waiting.
    Stop,
    /// Wait this many milliseconds, then ask `sv status bluetoothd` again.
    PauseThenQuery(u64),
}

/// How the wait begins, right after `sv up`: a pause, then the first query.
pub fn enable_poll_start() -> (r: PollDecision)
    ensures
        r == PollDecision::PauseThenQuery(ENABLE_POLL_PAUSE_MS),
{
    PollDecision::PauseThenQuery(ENABLE_POLL_PAUSE_MS)
}

/// The decision after a status query, given how many queries came before
/// it: stop once the status shows the service running, or once this was the
/// last query allowed; otherwise pause and ask again.
pub open spec fn poll_decision(polls_done: u32, status: Seq<char>) -> PollDecision {
    if has_substring(status, "run:"@) {
        PollDecision::Stop
    } else if polls_done + 1 >= ENABLE_STATUS_POLLS {
        PollDecision::Stop
    } else {
        PollDecision::PauseThenQuery(ENABLE_POLL_PAUSE_MS)
    }
}

/// Decides, after a status query, whether to wait for bluetoothd any longer.
pub fn enable_poll_step(polls_done: u32, status: &str) -> (r: PollDecision)
    ensures
        r == poll_decision(polls_done, status@),
        has_substring(status@, "run:"@) ==> r == PollDecision::Stop,
        polls_done + 1 >= ENABLE_STATUS_POLLS ==> r == PollDecision::Stop,
        !has_substring(status@, "run:"@) && polls_done + 1 < ENABLE_STATUS_POLLS ==> r
            == PollDecision::PauseThenQuery(ENABLE_POLL_PAUSE_MS),
{
    if status_shows_running(status) {
        PollDecision::Stop
    } else if polls_done >= ENABLE_STATUS_POLLS - 1 {
        PollDecision::Stop
    } else {
        PollDecision::PauseThenQuery(ENABLE_POLL_PAUSE_MS)
    }
}

/// The wait, which starts with a query (`enable_poll_start`), makes at most
/// ten queries and stops exactly at the first answer that shows the service
/// running: where `k` is the place of that answer, or ten where none of the
/// first ten shows it, the decisions say "ask again" after every answer
/// before the `k`-th and "stop" after the `k`-th.
pub proof fn lemma_enable_poll_bounded(answers: Seq<Seq<char>>, k: int)
    requires
        1 <= k <= ENABLE_STATUS_POLLS,
        k <= answers.len(),
        forall|i: int| 0 <= i < k - 1 ==> !has_substring(#[trigger] answers[i], "run:"@),
        has_substring(answers[k - 1], "run:"@) || k == ENABLE_STATUS_POLLS,
    ensures
        forall|i: int|
            0 <= i < k - 1 ==> poll_decision(i as u32, #[trigger] answers[i])
                == PollDecision::PauseThenQuery(ENABLE_POLL_PAUSE_MS),
        poll_decision((k - 1) as u32, answers[k - 1]) == PollDecision::Stop,
{
}

/// The command that removes the `down` file.
pub open spec fn remove_down_step() -> StepView {
    StepView::Run(seq!["rm"@, "-f"@, "/var/service/bluetoothd/down"@])
}

/// The command that links the service into runit's service directory.
pub open spec fn link_step() -> StepView {
    StepView::Run(seq!["ln"@, "-sf"@, "/etc/sv/bluetoothd"@, "/var/service/bluetoothd"@])
}

/// Turning bluetoothd on ends with `sv up`; before it, the `down` file is
/// removed exactly when there is one, whether or not the service is linked,
/// and the service is linked exactly when it is not.
pub proof fn lemma_enable_plan(down_file: bool, svc_linked: bool)
    ensures
        enable_plan(down_file, svc_linked).len() > 0,
        enable_plan(down_file, svc_linked).last() == StepView::Run(seq!["sv"@, "up"@, "bluetoothd"@]),
        down_file <==> exists|i: int|
            0 <= i < enable_plan(down_file, svc_linked).len() - 1 && #[trigger] enable_plan(
                down_file,
                svc_linked,
            )[i] == remove_down_step(),
        !svc_linked <==> exists|i: int|
            0 <= i < enable_plan(down_file, svc_linked).len() - 1 && #[trigger] enable_plan(
                down_file,
                svc_linked,
            )[i] == link_step(),
        ({
            let p = enable_plan(down_file, svc_linked);
            &&& p.len() == 1 + (if down_file { 2int } else { 0int }) + (if svc_linked { 0int } else { 2int })
            &&& forall|i: int|
                0 <= i < p.len() && (#[trigger] p[i] is Run) ==> p[i] == remove_down_step() || p[i]
                    == link_step() || p[i] == StepView::Run(seq!["sv"@, "up"@, "bluetoothd"@])
            &&& forall|i: int| 0 <= i < p.len() - 1 && #[trigger] p[i] == remove_down_step() ==> p[i + 1]
                == StepView::PauseMs(200)
            &&& forall|i: int| 0 <= i < p.len() - 1 && #[trigger] p[i] == link_step() ==> p[i + 1]
                == StepView::PauseMs(500)
            &&& down_file && !svc_linked ==> p[0] == remove_down_step() && p[2] == link_step()
        }),
{
    let p = enable_plan(down_file, svc_linked);
    assert(seq!["ln"@, "-sf"@, "/etc/sv/bluetoothd"@, "/var/service/bluetoothd"@].len() == 4);
    assert(seq!["rm"@, "-f"@, "/var/service/bluetoothd/down"@].len() == 3);
    assert(seq!["sv"@, "up"@, "bluetoothd"@].len() == 3);
    if down_file {
        assert(p[0] == remove_down_step());
    } else {
        assert forall|i: int| 0 <= i < p.len() - 1 implies #[trigger] p[i] != remove_down_step() by {
            if !svc_linked && i == 0 {
                assert(p[i] == link_step());
                assert(seq!["ln"@, "-sf"@, "/etc/sv/bluetoothd"@, "/var/service/bluetoothd"@].len() == 4);
            }
        }
    }
    if !svc_linked {
        if down_file {
            assert(p[2] == link_step());
        } else {
            assert(p[0] == link_step());
        }
    } else {
        assert forall|i: int| 0 <= i < p.len() - 1 implies #[trigger] p[i] != link_step() by {
            if down_file && i == 0 {
                assert(p[i] == remove_down_step());
                assert(seq!["rm"@, "-f"@, "/var/service/bluetoothd/down"@].len() == 3);
            }
        }
    }
}

/// The steps that turn bluetoothd on.
pub fn bluetoothd_enable(down_file: bool, svc_linked: bool) -> (r: Vec<ServiceStep>)
    ensures
        step_views(r@) == enable_plan(down_file, svc_linked),
        step_views(r@).len() > 0,
        step_views(r@).last() == StepView::Run(seq!["sv"@, "up"@, "bluetoothd"@]),
        down_file <==> exists|i: int|
            0 <= i < step_views(r@).len() - 1 && #[trigger] step_views(r@)[i] == remove_down_step(),
        !svc_linked <==> exists|i: int|
            0 <= i < step_views(r@).len() - 1 && #[trigger] step_views(r@)[i] == link_step(),
{
    proof {
        lemma_enable_plan(down_file, svc_linked);
    }
    let mut r: Vec<ServiceStep> = Vec::new();
    if down_file {
        r.push(ServiceStep::Run(command3("rm", "-f", "/var/service/bluetoothd/down")));
        r.push(ServiceStep::PauseMs(200));
    }
    if !svc_linked {
        let mut link: Vec<String> = Vec::new();
        link.push(owned("ln"));
        link.push(owned("-sf"));
        link.push(owned("/etc/sv/bluetoothd"));
        link.push(owned("/var/service/bluetoothd"));
        assert(str_views(link@) =~= seq!["ln"@, "-sf"@, "/etc/sv/bluetoothd"@, "/var/service/bluetoothd"@]);
        r.push(ServiceStep::Run(link));
        r.push(ServiceStep::PauseMs(500));
    }
    r.push(ServiceStep::Run(command3("sv", "up", "bluetoothd")));
    assert(step_views(r@) =~= enable_plan(down_file, svc_linked));
    r
}

/// Turning bluetoothd off: create the `down` file, pause, then `sv down`.
pub open spec fn disable_plan() -> Seq<StepView> {
    seq![
        StepView::Run(seq!["sh"@, "-c"@, "touch /var/service/bluetoothd/down"@]),
        StepView::PauseMs(200),
        StepView::Run(seq!["sv"@, "down"@, "bluetoothd"@]),
    ]
}

/// The steps that turn bluetoothd off.
pub fn bluetoothd_disable() -> (r: Vec<ServiceStep>)
    ensures
        step_views(r@) == disable_plan(),
{
    let mut r: Vec<ServiceStep> = Vec::new();
    r.push(ServiceStep::Run(command3("sh", "-c", "touch /var/service/bluetoothd/down")));
    r.push(ServiceStep::PauseMs(200));
    r.push(ServiceStep::Run(command3("sv", "down", "bluetoothd")));
    assert(step_views(r@) =~= disable_plan());
    r
}

} // verus!
