use odjk_blue::ansi::{clean_output_line, strip_ansi};
use odjk_blue::known::{add_known_paired, get_known_addrs};
use odjk_blue::mac::{extract_dir_macs, extract_macs};
use odjk_blue::scan::{name_from_info, parse_scan_bctl, sort_by_state, BtDevice, DevState};

fn strings(v: &[&str]) -> Vec<String> {
    v.iter().map(|s| s.to_string()).collect()
}

fn dev(addr: &str, name: &str, state: DevState) -> BtDevice {
    BtDevice { address: addr.to_string(), name: name.to_string(), state }
}

#[test]
fn extract_macs_upper_cases_and_dedups() {
    let text = "Device aa:bb:cc:dd:ee:ff Phone\nDevice 11:22:33:44:55:66 Speaker\r\nDevice AA:BB:CC:DD:EE:FF again\n";
    assert_eq!(extract_macs(text), strings(&["AA:BB:CC:DD:EE:FF", "11:22:33:44:55:66"]));
}

#[test]
fn extract_macs_skips_words_of_other_shapes() {
    let text = "Controller 00:1A:7D:DA:71:13 pc [default]\nab:cd short 12:34:56:78:9a:bc:de";
    assert_eq!(extract_macs(text), strings(&["00:1A:7D:DA:71:13"]));
    assert_eq!(extract_macs(""), Vec::<String>::new());
}

#[test]
fn extract_macs_takes_whole_words_only() {
    let text = "Device 00:1A:7D:DA:71:13/AA:BB:CC:DD:EE:01\n\taa:bb:cc:dd:ee:02\u{a0}x";
    assert_eq!(extract_macs(text), strings(&["AA:BB:CC:DD:EE:02"]));
}

#[test]
fn directory_listing_names_devices() {
    let listing = "/var/lib/bluetooth/00:1A:7D:DA:71:13/aa:bb:cc:dd:ee:ff\n\
                   /var/lib/bluetooth/00:1A:7D:DA:71:13/cache\n\
                   /var/lib/bluetooth/00:1A:7D:DA:71:13/11:22:33:44:55:66  \n\
                   /var/lib/bluetooth/00:1A:7D:DA:71:13/AA:BB:CC:DD:EE:FF\n";
    assert_eq!(extract_dir_macs(listing), strings(&["AA:BB:CC:DD:EE:FF", "11:22:33:44:55:66"]));
    assert_eq!(extract_dir_macs("11:22:33:44:55:66"), strings(&["11:22:33:44:55:66"]));
    assert!(extract_dir_macs("").is_empty());
}

#[test]
fn known_addrs_take_device_directories() {
    let (connected, paired) = get_known_addrs(
        "",
        "",
        "/var/lib/bluetooth/00:1A:7D:DA:71:13/AA:BB:CC:DD:EE:FF\n",
    );
    assert!(connected.is_empty());
    assert_eq!(paired, strings(&["AA:BB:CC:DD:EE:FF"]));
}

#[test]
fn known_addrs_merge_connected_into_paired() {
    let (connected, paired) = get_known_addrs(
        "Device AA:AA:AA:AA:AA:01 Headset\n",
        "Device BB:BB:BB:BB:BB:02 Phone\n",
        "/var/lib/bluetooth/00:1A:7D:DA:71:13/00:11:22:33:44:55\n/var/lib/bluetooth/00:1A:7D:DA:71:13/BB:BB:BB:BB:BB:02",
    );
    assert_eq!(connected, strings(&["AA:AA:AA:AA:AA:01"]));
    assert_eq!(
        paired,
        strings(&["BB:BB:BB:BB:BB:02", "00:11:22:33:44:55", "AA:AA:AA:AA:AA:01"])
    );
}

#[test]
fn known_paired_are_added_upper_cased_once() {
    let mut paired = strings(&["AA:AA:AA:AA:AA:01"]);
    let known = vec![
        ("aa:aa:aa:aa:aa:01".to_string(), "Headset".to_string()),
        ("cc:cc:cc:cc:cc:03".to_string(), "Mouse".to_string()),
    ];
    add_known_paired(&mut paired, &known);
    assert_eq!(paired, strings(&["AA:AA:AA:AA:AA:01", "CC:CC:CC:CC:CC:03"]));
}

#[test]
fn scan_reads_new_devices_after_prompt() {
    let lines = strings(&[
        "[bluetoothctl]> NEW] Device aa:bb:cc:dd:ee:ff My  Phone",
        "[bluetoothctl]> CHG] Device AA:BB:CC:DD:EE:FF RSSI: 0xffffffaf (-81)",
        "[NEW] Device 11:22:33:44:55:66 11-22-33-44-55-66",
        "[NEW] Device 22:22:33:44:55:66",
        "[bluetoothctl]> DEL] Device 33:22:33:44:55:66 Gone",
        "Discovery started",
    ]);
    let devs = parse_scan_bctl(&lines, &strings(&["11:22:33:44:55:66"]), &strings(&["aa:bb:cc:dd:ee:ff"]));
    assert_eq!(devs.len(), 3);
    assert_eq!(devs[0].address, "AA:BB:CC:DD:EE:FF");
    assert_eq!(devs[0].name, "My Phone");
    assert_eq!(devs[0].state, DevState::Paired);
    assert_eq!(devs[1].address, "11:22:33:44:55:66");
    assert_eq!(devs[1].name, "11:22:33:44:55:66");
    assert_eq!(devs[1].state, DevState::Connected);
    assert_eq!(devs[2].address, "22:22:33:44:55:66");
    assert_eq!(devs[2].name, "22:22:33:44:55:66");
    assert_eq!(devs[2].state, DevState::Available);
}

#[test]
fn scan_names_a_device_seen_first_without_name() {
    let lines = strings(&[
        "[NEW] Device AA:BB:CC:DD:EE:01",
        "\r[bluetoothctl]> NEW] Device AA:BB:CC:DD:EE:01 Keyboard\r",
        "[NEW] Device AA:BB:CC:DD:EE:01 Other",
    ]);
    let devs = parse_scan_bctl(&lines, &vec![], &vec![]);
    assert_eq!(devs.len(), 1);
    assert_eq!(devs[0].name, "Keyboard");
    assert_eq!(devs[0].state, DevState::Available);
}

#[test]
fn scan_ignores_lines_without_address() {
    let lines = strings(&["[NEW] Device nothing here", "[NEW] Controller AA:BB:CC:DD:EE:01 pc", "random"]);
    let devs = parse_scan_bctl(&lines, &vec![], &vec![]);
    assert_eq!(devs.len(), 0);
}

#[test]
fn strip_ansi_removes_colour_codes() {
    assert_eq!(strip_ansi("\x1b[0;94m[bluetoothctl]\x1b[0m> scan on"), "[bluetoothctl]> scan on");
    assert_eq!(strip_ansi("ab\x1bcd"), "ab");
    assert_eq!(strip_ansi("plain text"), "plain text");
    assert_eq!(strip_ansi(""), "");
}

#[test]
fn clean_output_line_trims_and_drops_empty() {
    assert_eq!(clean_output_line("  \x1b[1mhello\r  "), Some("hello".to_string()));
    assert_eq!(clean_output_line("\x1b[0m\r  "), None);
    assert_eq!(clean_output_line("a\rb"), Some("ab".to_string()));
}

#[test]
fn name_from_info_reads_name_line() {
    let info = "Device AA:BB:CC:DD:EE:FF (public)\n\tName: Phone X \n\tAlias: Phone X\n";
    assert_eq!(name_from_info(info, &"AA:BB:CC:DD:EE:FF".to_string()), "Phone X");
    assert_eq!(name_from_info("\tName:Name: Twice\n", &"A".to_string()), "Twice");
}

#[test]
fn name_from_info_falls_back_to_address() {
    let addr = "AA:BB:CC:DD:EE:FF".to_string();
    assert_eq!(name_from_info("Device AA:BB:CC:DD:EE:FF\n\tAlias: x", &addr), addr);
    assert_eq!(name_from_info("\tName:   \n\tName: Second", &addr), addr);
    assert_eq!(name_from_info("", &addr), addr);
}

#[test]
fn sort_by_state_is_stable_by_rank() {
    let devs = vec![
        dev("A", "a", DevState::Available),
        dev("B", "b", DevState::Connected),
        dev("C", "c", DevState::Paired),
        dev("D", "d", DevState::Available),
        dev("E", "e", DevState::Connected),
    ];
    let sorted = sort_by_state(&devs);
    let order: Vec<&str> = sorted.iter().map(|d| d.address.as_str()).collect();
    assert_eq!(order, vec!["B", "E", "C", "A", "D"]);
}

#[test]
fn strip_ansi_twice_is_once() {
    let raw = "\x1b[1;39m[\x1b[0;92mNEW\x1b[1;39m]\x1b[0m Device AA:BB:CC:DD:EE:FF \x1bX";
    let once = strip_ansi(raw);
    assert_eq!(once, "[NEW] Device AA:BB:CC:DD:EE:FF ");
    assert_eq!(strip_ansi(&once), once);
}

#[test]
fn cleaned_lines_have_no_edges() {
    for raw in ["\x1b[0m  a b \r\r", "\tx\u{3000}", "\r\n y \x1b[1m"] {
        if let Some(t) = clean_output_line(raw) {
            assert!(!t.is_empty());
            assert!(!t.contains('\r'));
            assert!(!t.starts_with(char::is_whitespace));
            assert!(!t.ends_with(char::is_whitespace));
        }
    }
}
