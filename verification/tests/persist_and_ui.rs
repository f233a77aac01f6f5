use odjk_blue::pairing::PairGoal;
use odjk_blue::persist::{load_paired, paired_from_macs, save_paired};
use odjk_blue::scan::{BtDevice, DevState};
use odjk_blue::service::SysError;
use odjk_blue::ui::{
    device_actions, device_row_labels, log_line_tone, power_after_auth, prefers_russian,
    session_goal, toggle_selection, DaemonWarning, DeviceAction, LineTone,
};

#[test]
fn load_paired_keeps_address_shaped_entries() {
    let text = "[\"AA:BB:CC:DD:EE:FF\", \"bad\", \"aa-bb:cc:dd:ee:ff:00\", \"11:22:33:44:55:66\"]";
    assert_eq!(
        load_paired(text),
        vec![
            ("AA:BB:CC:DD:EE:FF".to_string(), "AA:BB:CC:DD:EE:FF".to_string()),
            ("11:22:33:44:55:66".to_string(), "11:22:33:44:55:66".to_string()),
        ]
    );
}

#[test]
fn load_paired_of_bad_file_is_empty() {
    assert!(load_paired("").is_empty());
    assert!(load_paired("{\"a\": 1}").is_empty());
    assert!(load_paired("[1, 2]").is_empty());
}

#[test]
fn saved_addresses_count_bytes() {
    // Seventeen characters but more bytes: not kept.
    let macs = vec!["ÄA:BB:CC:DD:EE:FF".to_string(), "AB:CD:EF:01:23:45".to_string()];
    assert_eq!(paired_from_macs(&macs).len(), 1);
}

#[test]
fn save_paired_writes_address_list() {
    let devices = vec![
        ("AA:BB:CC:DD:EE:FF".to_string(), "Phone".to_string()),
        ("11:22:33:44:55:66".to_string(), "Pods".to_string()),
    ];
    let text = save_paired(&devices).unwrap();
    assert_eq!(text, "[\"AA:BB:CC:DD:EE:FF\",\"11:22:33:44:55:66\"]");
    assert_eq!(load_paired(&text).len(), 2);
    assert_eq!(save_paired(&vec![]), Some("[]".to_string()));
}

#[test]
fn russian_locale_detected() {
    assert!(prefers_russian(&vec!["ru_RU.UTF-8".to_string()]));
    assert!(prefers_russian(&vec!["en_US.UTF-8".to_string(), "RU".to_string()]));
    assert!(!prefers_russian(&vec!["en_US.UTF-8".to_string(), "C".to_string()]));
    assert!(!prefers_russian(&vec![]));
}

#[test]
fn log_lines_get_tones() {
    assert_eq!(log_line_tone("\u{2714} Connected!"), LineTone::Success);
    assert_eq!(log_line_tone("\u{274c} Failed"), LineTone::Failure);
    assert_eq!(log_line_tone("Authentication FAILED"), LineTone::Failure);
    assert_eq!(log_line_tone("> scan on"), LineTone::Plain);
}

#[test]
fn row_labels_hide_duplicate_address() {
    let named = BtDevice { address: "AA".to_string(), name: "Phone".to_string(), state: DevState::Paired };
    assert_eq!(device_row_labels(&named), ("Phone".to_string(), "AA".to_string()));
    let bare = BtDevice { address: "AA".to_string(), name: "aa".to_string(), state: DevState::Paired };
    assert_eq!(device_row_labels(&bare), ("AA".to_string(), " ".to_string()));
}

#[test]
fn selection_toggles() {
    assert_eq!(toggle_selection(&None, "AA"), Some("AA".to_string()));
    assert_eq!(toggle_selection(&Some("AA".to_string()), "AA"), None);
    assert_eq!(toggle_selection(&Some("BB".to_string()), "AA"), Some("AA".to_string()));
}

#[test]
fn actions_by_state() {
    assert_eq!(device_actions(DevState::Connected), vec![DeviceAction::Disconnect, DeviceAction::Unpair]);
    assert_eq!(device_actions(DevState::Paired), vec![DeviceAction::Connect, DeviceAction::Unpair]);
    assert_eq!(device_actions(DevState::Available), vec![DeviceAction::Pair]);
    assert_eq!(session_goal(DeviceAction::Connect), Some(PairGoal::Reconnect));
    assert_eq!(session_goal(DeviceAction::Repair), Some(PairGoal::RepairForce));
    assert_eq!(session_goal(DeviceAction::Pair), Some(PairGoal::PairFresh));
    assert_eq!(session_goal(DeviceAction::Unpair), None);
}

#[test]
fn power_after_auth_by_daemon_state() {
    assert_eq!(power_after_auth(Ok(true)), (true, DaemonWarning::Clear));
    assert_eq!(power_after_auth(Ok(false)), (false, DaemonWarning::Clear));
    assert_eq!(power_after_auth(Err(SysError::BluetoothUnknownState)), (false, DaemonWarning::Unknown));
    assert_eq!(power_after_auth(Err(SysError::NoDbus)), (false, DaemonWarning::Keep));
}

#[test]
fn saved_pairings_read_back() {
    let devices = vec![
        ("AA:BB:CC:DD:EE:FF".to_string(), "Phone".to_string()),
        ("not an address".to_string(), "x".to_string()),
        ("a\"b\\c\n\u{1}".to_string(), "y".to_string()),
        ("11:22:33:44:55:66".to_string(), "Pods".to_string()),
    ];
    let text = save_paired(&devices).unwrap();
    assert_eq!(
        text,
        "[\"AA:BB:CC:DD:EE:FF\",\"not an address\",\"a\\\"b\\\\c\\n\\u0001\",\"11:22:33:44:55:66\"]"
    );
    assert_eq!(
        load_paired(&text),
        vec![
            ("AA:BB:CC:DD:EE:FF".to_string(), "AA:BB:CC:DD:EE:FF".to_string()),
            ("11:22:33:44:55:66".to_string(), "11:22:33:44:55:66".to_string()),
        ]
    );
}
