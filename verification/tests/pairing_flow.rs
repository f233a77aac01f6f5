use odjk_blue::pairing::{
    first_match, is_connect_confirmed, is_pair_refused, LogEntry, PairAction, PairEvent, PairFlow,
    PairGoal, Stage,
};

fn strings(v: &[&str]) -> Vec<String> {
    v.iter().map(|s| s.to_string()).collect()
}

fn sent(acts: &[PairAction]) -> Vec<String> {
    acts.iter()
        .filter_map(|a| match a {
            PairAction::Send(s) => Some(s.clone()),
            _ => None,
        })
        .collect()
}

fn waited(line: Option<&str>, snapshot: &[&str]) -> PairEvent {
    PairEvent::Waited { line: line.map(|s| s.to_string()), snapshot: strings(snapshot) }
}

#[test]
fn reconnect_goes_straight_to_connect() {
    let (mut flow, first) = PairFlow::new("AA:BB:CC:DD:EE:FF", PairGoal::Reconnect);
    assert_eq!(first.len(), 2);
    assert!(matches!(first[0], PairAction::Log(LogEntry::StartingBctl)));
    assert!(matches!(first[1], PairAction::StartSession));
    let acts = flow.step(PairEvent::SessionStarted(true));
    assert_eq!(sent(&acts), strings(&["agent on", "default-agent", "scan on", "connect AA:BB:CC:DD:EE:FF"]));
    match acts.last() {
        Some(PairAction::WaitFor { patterns, timeout_secs, snapshot }) => {
            assert_eq!(*timeout_secs, 25);
            assert!(*snapshot);
            assert_eq!(patterns[0], "connection successful");
            assert_eq!(patterns.len(), 6);
        }
        other => panic!("unexpected {:?}", other),
    }
    assert_eq!(flow.stage(), Stage::AwaitConnect);
    let done = flow.step(waited(Some("Connection successful"), &[]));
    assert!(matches!(done.last(), Some(PairAction::Finish(true))));
    assert!(done.iter().any(|a| matches!(a, PairAction::Log(LogEntry::DoneOk))));
    assert!(flow.is_done());
    assert!(flow.step(waited(None, &[])).is_empty());
}

#[test]
fn fresh_pairing_runs_pair_trust_connect() {
    let (mut flow, _) = PairFlow::new("AA:BB:CC:DD:EE:FF", PairGoal::PairFresh);
    let acts = flow.step(PairEvent::SessionStarted(true));
    assert_eq!(sent(&acts).last().unwrap(), "pair AA:BB:CC:DD:EE:FF");
    assert_eq!(flow.stage(), Stage::AwaitPasskey);
    let acts = flow.step(waited(Some("[agent] Confirm passkey 123456 (yes/no):"), &[]));
    assert_eq!(sent(&acts), strings(&["yes"]));
    assert_eq!(flow.stage(), Stage::AwaitPairResult);
    let acts = flow.step(waited(Some("Pairing successful"), &["Pairing successful"]));
    assert_eq!(sent(&acts), strings(&["trust AA:BB:CC:DD:EE:FF"]));
    assert!(matches!(acts[0], PairAction::Log(LogEntry::Output(_))));
    assert_eq!(flow.stage(), Stage::AwaitTrust);
    let acts = flow.step(waited(None, &[]));
    assert!(acts.iter().any(|a| matches!(a, PairAction::PauseMs(2000))));
    assert_eq!(sent(&acts), strings(&["connect AA:BB:CC:DD:EE:FF"]));
    let acts = flow.step(waited(Some("Failed to connect: org.bluez.Error.Failed"), &["x"]));
    assert!(matches!(acts.last(), Some(PairAction::Finish(false))));
    assert!(acts.iter().any(|a| matches!(a, PairAction::Log(LogEntry::DoneFail(Some(_))))));
}

#[test]
fn passkey_timeout_sends_no_confirmation() {
    let (mut flow, _) = PairFlow::new("AA", PairGoal::PairFresh);
    flow.step(PairEvent::SessionStarted(true));
    let acts = flow.step(waited(None, &[]));
    assert!(sent(&acts).is_empty());
    assert_eq!(acts.len(), 1);
}

#[test]
fn refused_pairing_ends_session() {
    let (mut flow, _) = PairFlow::new("AA", PairGoal::PairFresh);
    flow.step(PairEvent::SessionStarted(true));
    flow.step(waited(None, &[]));
    let acts = flow.step(waited(Some("Failed to pair: org.bluez.Error.AuthenticationFailed"), &["Attempting to pair"]));
    assert!(matches!(acts.last(), Some(PairAction::Finish(false))));
    assert!(acts.iter().any(|a| matches!(a, PairAction::Quit)));
    assert!(acts.iter().any(|a| matches!(a, PairAction::Log(LogEntry::PairFail(Some(_))))));
    assert!(flow.is_done());
}

#[test]
fn failure_line_overruled_by_success_in_output() {
    let (mut flow, _) = PairFlow::new("AA", PairGoal::PairFresh);
    flow.step(PairEvent::SessionStarted(true));
    flow.step(waited(None, &[]));
    let acts = flow.step(waited(Some("Failed to pair: busy"), &["Pairing successful", "Failed to pair: busy"]));
    assert_eq!(sent(&acts), strings(&["trust AA"]));
    assert_eq!(flow.stage(), Stage::AwaitTrust);
}

#[test]
fn session_that_does_not_start_fails() {
    let (mut flow, _) = PairFlow::new("AA", PairGoal::PairFresh);
    let acts = flow.step(PairEvent::SessionStarted(false));
    assert_eq!(acts.len(), 2);
    assert!(matches!(acts[0], PairAction::Log(LogEntry::BctlFailed)));
    assert!(matches!(acts[1], PairAction::Finish(false)));
}

#[test]
fn unexpected_answer_is_ignored() {
    let (mut flow, _) = PairFlow::new("AA", PairGoal::Reconnect);
    assert!(flow.step(waited(Some("connected"), &[])).is_empty());
    assert_eq!(flow.stage(), Stage::AwaitSession);
}

#[test]
fn repair_forgets_old_pairing_first() {
    let (flow, acts) = PairFlow::new("aa:bb:cc:dd:ee:ff", PairGoal::RepairForce);
    assert!(matches!(acts[0], PairAction::Log(LogEntry::RemovingOld)));
    match (&acts[1], &acts[2]) {
        (PairAction::Run(a), PairAction::Run(b)) => {
            assert_eq!(a, &strings(&["bluetoothctl", "remove", "aa:bb:cc:dd:ee:ff"]));
            assert_eq!(b, &strings(&["sh", "-c", "rm -rf /var/lib/bluetooth/*/AA:BB:CC:DD:EE:FF"]));
        }
        other => panic!("unexpected {:?}", other),
    }
    assert!(matches!(acts[3], PairAction::PauseMs(500)));
    assert!(matches!(acts.last(), Some(PairAction::StartSession)));
    assert_eq!(flow.address(), "aa:bb:cc:dd:ee:ff");
}

#[test]
fn connection_confirmed_by_output_or_answer() {
    assert!(is_connect_confirmed(&Some("Already Connected".to_string()), &vec![]));
    assert!(is_connect_confirmed(&None, &strings(&["[CHG] Device AA Connected: yes"])));
    assert!(!is_connect_confirmed(&None, &strings(&["Failed to connect"])));
    assert!(!is_connect_confirmed(&Some("error".to_string()), &vec![]));
}

#[test]
fn pair_refusal_needs_explicit_failure() {
    assert!(is_pair_refused(&Some("Device NOT AVAILABLE".to_string()), &vec![]));
    assert!(!is_pair_refused(&None, &vec![]));
    assert!(!is_pair_refused(&Some("Failed to pair".to_string()), &strings(&["already paired"])));
}

#[test]
fn first_match_is_case_blind_and_starts_at_offset() {
    let lines = strings(&["Pairing successful", "x", "[agent] Confirm Passkey 1234"]);
    assert_eq!(first_match(&lines, 0, &strings(&["confirm passkey"])), Some("[agent] Confirm Passkey 1234".to_string()));
    assert_eq!(first_match(&lines, 1, &strings(&["PAIRING SUCCESSFUL"])), None);
    assert_eq!(first_match(&lines, 0, &strings(&["PAIRING SUCCESSFUL", "x"])), Some("Pairing successful".to_string()));
    assert_eq!(first_match(&lines, 3, &strings(&["x"])), None);
}

#[test]
fn goal_only_connect() {
    assert!(PairGoal::Reconnect.only_connect());
    assert!(!PairGoal::PairFresh.only_connect());
    assert!(!PairGoal::RepairForce.only_connect());
}
