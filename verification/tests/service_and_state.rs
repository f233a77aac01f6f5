use odjk_blue::scan::{BtDevice, DevState};
use odjk_blue::service::{
    bluetoothd_disable, bluetoothd_enable, enable_poll_start, enable_poll_step, PollDecision, bluetoothd_is_active, bt_disconnect, bt_get_state,
    bt_set_discoverable, bt_unpair, check_system_deps, install_hint, status_query_needed,
    status_shows_running, ServiceStep, SysError, SystemProbe,
};
use odjk_blue::state::{ScanGate, ScanState};

fn strings(v: &[&str]) -> Vec<String> {
    v.iter().map(|s| s.to_string()).collect()
}

fn run_args(step: &ServiceStep) -> Option<Vec<String>> {
    match step {
        ServiceStep::Run(cmd) => Some(cmd.clone()),
        ServiceStep::PauseMs(_) => None,
    }
}

#[test]
fn install_hints_name_packages() {
    assert_eq!(install_hint(&SysError::NoDbus), "dbus");
    assert_eq!(install_hint(&SysError::NoBluetoothd), "bluez");
    assert_eq!(install_hint(&SysError::NoBluetoothctl), "bluez");
    assert_eq!(install_hint(&SysError::BluetoothUnknownState), "");
}

#[test]
fn daemon_state_follows_link_down_file_and_status() {
    assert_eq!(bluetoothd_is_active(false, false, "run: bluetoothd"), Ok(false));
    assert_eq!(bluetoothd_is_active(true, true, "run: bluetoothd"), Ok(false));
    assert_eq!(bluetoothd_is_active(true, false, "down: bluetoothd: 3s"), Ok(false));
    assert_eq!(bluetoothd_is_active(true, false, "run: bluetoothd: (pid 42) 10s"), Ok(true));
    assert_eq!(
        bluetoothd_is_active(true, false, "warning: unable to open supervise/ok"),
        Err(SysError::BluetoothUnknownState)
    );
    assert_eq!(bluetoothd_is_active(true, false, "down: x; run: y"), Ok(false));
    assert!(status_query_needed(true, false));
    assert!(!status_query_needed(true, true));
    assert!(!status_query_needed(false, false));
    assert!(status_shows_running("run: bluetoothd"));
    assert!(!status_shows_running("down: bluetoothd"));
}

#[test]
fn adapter_state_from_show_output() {
    let show = "Controller 00:1A:7D:DA:71:13 (public)\n\tPowered: yes\n\tDiscoverable: no\n";
    assert_eq!(bt_get_state(show), (true, false));
    assert_eq!(bt_get_state("Powered: no\nDiscoverable: yes"), (false, true));
}

#[test]
fn adapter_commands() {
    assert_eq!(bt_set_discoverable(true), strings(&["bluetoothctl", "discoverable", "on"]));
    assert_eq!(bt_set_discoverable(false), strings(&["bluetoothctl", "discoverable", "off"]));
    assert_eq!(bt_disconnect("AA:BB"), strings(&["bluetoothctl", "disconnect", "AA:BB"]));
    let (remove, wipe) = bt_unpair("aa:bb:cc:dd:ee:ff");
    assert_eq!(remove, strings(&["bluetoothctl", "remove", "aa:bb:cc:dd:ee:ff"]));
    assert_eq!(wipe, strings(&["sh", "-c", "rm -rf /var/lib/bluetooth/*/AA:BB:CC:DD:EE:FF"]));
}

#[test]
fn enable_plan_covers_down_file_and_link() {
    let all = bluetoothd_enable(true, false);
    assert_eq!(all.len(), 5);
    assert_eq!(run_args(&all[0]), Some(strings(&["rm", "-f", "/var/service/bluetoothd/down"])));
    assert!(matches!(all[1], ServiceStep::PauseMs(200)));
    assert_eq!(
        run_args(&all[2]),
        Some(strings(&["ln", "-sf", "/etc/sv/bluetoothd", "/var/service/bluetoothd"]))
    );
    assert!(matches!(all[3], ServiceStep::PauseMs(500)));
    assert_eq!(run_args(&all[4]), Some(strings(&["sv", "up", "bluetoothd"])));
    let plain = bluetoothd_enable(false, true);
    assert_eq!(plain.len(), 1);
    assert_eq!(run_args(&plain[0]), Some(strings(&["sv", "up", "bluetoothd"])));
}

#[test]
fn disable_plan_creates_down_file() {
    let steps = bluetoothd_disable();
    assert_eq!(steps.len(), 3);
    assert_eq!(run_args(&steps[0]), Some(strings(&["sh", "-c", "touch /var/service/bluetoothd/down"])));
    assert!(matches!(steps[1], ServiceStep::PauseMs(200)));
    assert_eq!(run_args(&steps[2]), Some(strings(&["sv", "down", "bluetoothd"])));
}

#[test]
fn system_probe_reports_missing_pieces() {
    let none = SystemProbe {
        dbus_on_path: false,
        dbus_socket_run: false,
        dbus_socket_var_run: false,
        bluetoothd_on_path: false,
        bluetoothd_in_usr_lib: false,
        bluetoothd_in_usr_libexec: false,
        bluetoothctl_on_path: false,
    };
    assert_eq!(
        check_system_deps(&none),
        vec![SysError::NoDbus, SysError::NoBluetoothd, SysError::NoBluetoothctl]
    );
    let sockets = SystemProbe { dbus_socket_var_run: true, bluetoothd_in_usr_libexec: true, bluetoothctl_on_path: true, ..none };
    assert_eq!(check_system_deps(&sockets), vec![]);
    let no_ctl = SystemProbe { dbus_on_path: true, bluetoothd_on_path: true, ..none };
    assert_eq!(check_system_deps(&no_ctl), vec![SysError::NoBluetoothctl]);
}

fn dev(addr: &str, name: &str, state: DevState) -> BtDevice {
    BtDevice { address: addr.to_string(), name: name.to_string(), state }
}

#[test]
fn scan_start_needs_power_and_no_running_scan() {
    let mut s = ScanState::new(vec![]);
    assert!(!s.begin_scan(false));
    assert!(!s.scanning);
    assert!(s.begin_scan(true));
    assert!(s.scanning);
    assert!(!s.begin_scan(true));
}

#[test]
fn scan_gate_by_daemon_state() {
    let mut s = ScanState::new(vec![]);
    s.scanning = true;
    assert_eq!(s.scan_gate(Ok(true)), ScanGate::Proceed);
    assert!(s.scanning);
    assert_eq!(s.scan_gate(Err(SysError::BluetoothUnknownState)), ScanGate::SkipUnknown);
    assert!(!s.scanning);
    s.scanning = true;
    assert_eq!(s.scan_gate(Ok(false)), ScanGate::Skip);
    assert!(!s.scanning);
    s.scanning = true;
    assert_eq!(s.scan_gate(Err(SysError::NoDbus)), ScanGate::Skip);
    assert!(!s.scanning);
}

#[test]
fn finish_scan_replaces_devices() {
    let mut s = ScanState::new(vec![]);
    s.scanning = true;
    s.finish_scan(vec![dev("A", "a", DevState::Paired)]);
    assert!(!s.scanning);
    assert_eq!(s.devices.len(), 1);
    s.clear_devices();
    assert!(s.devices.is_empty());
}

#[test]
fn disconnect_marks_device_paired() {
    let mut s = ScanState::new(vec![]);
    s.devices = vec![dev("AA:01", "x", DevState::Connected), dev("AA:02", "y", DevState::Connected)];
    s.mark_disconnected("aa:01");
    assert_eq!(s.devices[0].state, DevState::Paired);
    assert_eq!(s.devices[1].state, DevState::Connected);
    assert_eq!(s.devices[0].name, "x");
}

#[test]
fn forget_device_drops_both_entries() {
    let mut s = ScanState::new(vec![
        ("AA:01".to_string(), "x".to_string()),
        ("AA:02".to_string(), "y".to_string()),
    ]);
    s.devices = vec![dev("AA:01", "x", DevState::Paired), dev("AA:02", "y", DevState::Connected)];
    s.forget_device("aa:01");
    assert_eq!(s.known_paired, vec![("AA:02".to_string(), "y".to_string())]);
    assert_eq!(s.devices.len(), 1);
    assert_eq!(s.devices[0].address, "AA:02");
}

#[test]
fn pair_outcome_remembers_and_updates() {
    let mut s = ScanState::new(vec![]);
    s.devices = vec![dev("AA:BB:CC:DD:EE:01", "AA:BB:CC:DD:EE:01", DevState::Available)];
    let out = s.record_pair_outcome("aa:bb:cc:dd:ee:01", "Headset", true, "");
    assert!(out.ok);
    assert!(out.known_changed);
    assert_eq!(s.known_paired, vec![("AA:BB:CC:DD:EE:01".to_string(), "Headset".to_string())]);
    assert_eq!(s.devices[0].state, DevState::Paired);
    assert_eq!(s.devices[0].name, "Headset");
    let again = s.record_pair_outcome("AA:BB:CC:DD:EE:01", "Headset", false, "Device aa:bb:cc:dd:ee:01 Headset");
    assert!(again.ok);
    assert!(!again.known_changed);
    assert_eq!(s.known_paired.len(), 1);
    assert_eq!(s.devices[0].state, DevState::Connected);
}

#[test]
fn failed_pair_outcome_changes_nothing_known() {
    let mut s = ScanState::new(vec![]);
    s.devices = vec![dev("AA:01", "AA:01", DevState::Available)];
    let out = s.record_pair_outcome("AA:01", "", false, "Device BB:02 x");
    assert!(!out.ok);
    assert!(!out.known_changed);
    assert!(s.known_paired.is_empty());
    assert_eq!(s.devices[0].state, DevState::Available);
    assert_eq!(s.devices[0].name, "AA:01");
}

#[test]
fn enable_wait_polls_until_running() {
    assert_eq!(enable_poll_start(), PollDecision::PauseThenQuery(400));
    assert_eq!(enable_poll_step(0, "down: bluetoothd: 1s"), PollDecision::PauseThenQuery(400));
    assert_eq!(enable_poll_step(3, "run: bluetoothd: (pid 7) 1s"), PollDecision::Stop);
    assert_eq!(enable_poll_step(8, "fail"), PollDecision::PauseThenQuery(400));
    assert_eq!(enable_poll_step(9, "fail"), PollDecision::Stop);
    let mut queries = 0;
    let mut next = enable_poll_start();
    while let PollDecision::PauseThenQuery(_) = next {
        next = enable_poll_step(queries, "down");
        queries += 1;
    }
    assert_eq!(queries, 10);
}

#[test]
fn pair_outcome_remembers_lower_case_address() {
    let mut s = ScanState::new(vec![("Aa:Bb:Cc:Dd:Ee:01".to_string(), "x".to_string())]);
    let out = s.record_pair_outcome("aa:bb:cc:dd:ee:01", "Headset", true, "");
    assert!(out.ok);
    assert!(!out.known_changed);
    assert_eq!(s.known_paired.len(), 1);
}
