//! Pairing and connecting a device through one `bluetoothctl` session, as a
//! state machine: the caller performs each action and hands back what the
//! session answered.

use vstd::prelude::*;
use crate::text::{
    chars_of, concat_str, contains_chars, has_substring, join, join_lines, owned,
    str_views, to_lower, unicode_lower,
};
use crate::service::bt_unpair;

verus! {

/// What a pairing session is for.
#[derive(Clone, Copy, Debug, PartialEq, Eq, Structural)]
pub enum PairGoal {
    /// An unknown device: pair, trust, connect.
    PairFresh,
    /// A paired device: connect only.
    Reconnect,
    /// Forget the pairing first, then pair, trust, connect.
    RepairForce,
}

/// Where a session stands, as the session window shows it.
#[derive(Clone, Copy, Debug, PartialEq, Eq, Structural)]
pub enum PairStatus {
    Running,
    Done(bool),
}

/// An entry of the session log; the words come from the interface language.
#[derive(Debug)]
pub enum LogEntry {
    RemovingOld,
    StartingBctl,
    BctlFailed,
    Pairing(String),
    AcceptDevice,
    ConfirmKey,
    Trusting,
    Pause,
    Connecting(String),
    DoneOk,
    /// The connect attempt failed with this answer (`None`: no answer in time).
    DoneFail(Option<String>),
    /// The device refused to pair with this answer (`None`: no answer in time).
    PairFail(Option<String>),
    /// A command sent to `bluetoothctl`.
    Command(String),
    /// A line that `bluetoothctl` answered.
    Output(String),
}

/// What the session asks of its driver.
#[derive(Debug)]
pub enum PairAction {
    /// Add an entry to the session log.
    Log(LogEntry),
    /// Run a command with sudo, outside the `bluetoothctl` session.
    Run(Vec<String>),
    /// Send a line to `bluetoothctl`.
    Send(String),
    /// Wait this many milliseconds.
    PauseMs(u64),
    /// Start `bluetoothctl`; answer with `PairEvent::SessionStarted`.
    StartSession,
    /// Wait until an output line holds one of the patterns (case aside) or the
    /// time is up; answer with `PairEvent::Waited`, with the session's whole
    /// output where `snapshot` is set.
    WaitFor { patterns: Vec<String>, timeout_secs: u64, snapshot: bool },
    /// Leave `bluetoothctl`.
    Quit,
    /// The session is over, with this result.
    Finish(bool),
}

/// What the driver hands back.
#[derive(Debug)]
pub enum PairEvent {
    SessionStarted(bool),
    Waited { line: Option<String>, snapshot: Vec<String> },
}

/// The step that a session waits at.
#[derive(Clone, Copy, Debug, PartialEq, Eq, Structural)]
pub enum Stage {
    AwaitSession,
    AwaitPasskey,
    AwaitPairResult,
    AwaitTrust,
    AwaitConnect,
    Done,
}

/// A pairing or connecting session for one device.
#[derive(Debug)]
pub struct PairFlow {
    addr: String,
    only_connect: bool,
    stage: Stage,
}

pub enum LogView {
    RemovingOld,
    StartingBctl,
    BctlFailed,
    Pairing(Seq<char>),
    AcceptDevice,
    ConfirmKey,
    Trusting,
    Pause,
    Connecting(Seq<char>),
    DoneOk,
    DoneFail(Option<Seq<char>>),
    PairFail(Option<Seq<char>>),
    Command(Seq<char>),
    Output(Seq<char>),
}

pub enum ActionView {
    Log(LogView),
    Run(Seq<Seq<char>>),
    Send(Seq<char>),
    PauseMs(u64),
    StartSession,
    WaitFor(Seq<Seq<char>>, u64, bool),
    Quit,
    Finish(bool),
}

pub enum EventView {
    SessionStarted(bool),
    Waited(Option<Seq<char>>, Seq<Seq<char>>),
}

pub struct FlowView {
    pub addr: Seq<char>,
    pub only_connect: bool,
    pub stage: Stage,
}

/// The contents of an optional string.
pub open spec fn opt_view(o: Option<String>) -> Option<Seq<char>> {
    match o {
        Some(s) => Some(s@),
        None => None,
    }
}

impl View for LogEntry {
    type V = LogView;

    open spec fn view(&self) -> LogView {
        match self {
            LogEntry::RemovingOld => LogView::RemovingOld,
            LogEntry::StartingBctl => LogView::StartingBctl,
            LogEntry::BctlFailed => LogView::BctlFailed,
            LogEntry::Pairing(a) => LogView::Pairing(a@),
            LogEntry::AcceptDevice => LogView::AcceptDevice,
            LogEntry::ConfirmKey => LogView::ConfirmKey,
            LogEntry::Trusting => LogView::Trusting,
            LogEntry::Pause => LogView::Pause,
            LogEntry::Connecting(a) => LogView::Connecting(a@),
            LogEntry::DoneOk => LogView::DoneOk,
            LogEntry::DoneFail(r) => LogView::DoneFail(opt_view(*r)),
            LogEntry::PairFail(r) => LogView::PairFail(opt_view(*r)),
            LogEntry::Command(c) => LogView::Command(c@),
            LogEntry::Output(l) => LogView::Output(l@),
        }
    }
}

impl View for PairAction {
    type V = ActionView;

    open spec fn view(&self) -> ActionView {
        match self {
            PairAction::Log(e) => ActionView::Log(e@),
            PairAction::Run(cmd) => ActionView::Run(str_views(cmd@)),
            PairAction::Send(s) => ActionView::Send(s@),
            PairAction::PauseMs(ms) => ActionView::PauseMs(*ms),
            PairAction::StartSession => ActionView::StartSession,
            PairAction::WaitFor { patterns, timeout_secs, snapshot } => ActionView::WaitFor(
                str_views(patterns@),
                *timeout_secs,
                *snapshot,
            ),
            PairAction::Quit => ActionView::Quit,
            PairAction::Finish(ok) => ActionView::Finish(*ok),
        }
    }
}

impl View for PairEvent {
    type V = EventView;

    open spec fn view(&self) -> EventView {
        match self {
            PairEvent::SessionStarted(ok) => EventView::SessionStarted(*ok),
            PairEvent::Waited { line, snapshot } => EventView::Waited(
                opt_view(*line),
                str_views(snapshot@),
            ),
        }
    }
}

impl View for PairFlow {
    type V = FlowView;

    closed spec fn view(&self) -> FlowView {
        FlowView { addr: self.addr@, only_connect: self.only_connect, stage: self.stage }
    }
}

/// The view of each action, in order.
pub open spec fn action_views(v: Seq<PairAction>) -> Seq<ActionView> {
    v.map_values(|a: PairAction| a@)
}

impl PairGoal {
    /// Whether the session only connects (the device is paired already).
    pub fn only_connect(&self) -> (b: bool)
        ensures
            b == (*self == PairGoal::Reconnect),
    {
        match self {
            PairGoal::Reconnect => true,
            _ => false,
        }
    }
}

/// What the pairing answer is awaited by.
pub open spec fn pair_patterns() -> Seq<Seq<char>> {
    seq![
        "pairing successful"@,
        "failed to pair"@,
        "not available"@,
        "authentication failed"@,
        "already paired"@,
        "paired: yes"@,
        "request confirmed"@,
        "connected"@,
    ]
}

/// What the trust answer is awaited by.
pub open spec fn trust_patterns() -> Seq<Seq<char>> {
    seq!["trusted: yes"@, "trust succeeded"@, "changing trusted succeeded"@]
}

/// What the connect answer is awaited by.
pub open spec fn connect_patterns() -> Seq<Seq<char>> {
    seq![
        "connection successful"@,
        "failed to connect"@,
        "not available"@,
        "already connected"@,
        "connected: yes"@,
        "error"@,
    ]
}

/// The whole session output in lower case, lines joined by newlines.
pub open spec fn snapshot_text(snapshot: Seq<Seq<char>>) -> Seq<char> {
    unicode_lower(join(snapshot, seq!['\n']))
}

/// The device refused to pair: the answer (in lower case) says it failed to
/// pair, failed to authenticate, or is not available, and the whole output
/// nowhere says that pairing succeeded or that it was paired already.
pub open spec fn pair_refused(line: Option<Seq<char>>, snapshot: Seq<Seq<char>>) -> bool {
    let explicit = match line {
        Some(l) => {
            let l = unicode_lower(l);
            has_substring(l, "failed to pair"@) || has_substring(l, "authentication failed"@)
                || has_substring(l, "not available"@)
        },
        None => false,
    };
    let snap = snapshot_text(snapshot);
    explicit && !has_substring(snap, "pairing successful"@) && !has_substring(
        snap,
        "already paired"@,
    )
}

/// The device is connected: the answer (in lower case) says the connection
/// succeeded, that it was connected already, or `connected: yes`, or the
/// whole output says `connection successful` or `connected: yes`.
pub open spec fn connect_confirmed(line: Option<Seq<char>>, snapshot: Seq<Seq<char>>) -> bool {
    let by_line = match line {
        Some(l) => {
            let l = unicode_lower(l);
            has_substring(l, "connection successful"@) || has_substring(l, "already connected"@)
                || has_substring(l, "connected: yes"@)
        },
        None => false,
    };
    let snap = snapshot_text(snapshot);
    by_line || has_substring(snap, "connection successful"@) || has_substring(
        snap,
        "connected: yes"@,
    )
}

/// The session's output in lower case, lines joined by newlines.
fn snapshot_lower(snapshot: &Vec<String>) -> (r: Vec<char>)
    ensures
        r@ == snapshot_text(str_views(snapshot@)),
{
    let joined = join_lines(snapshot);
    let lower = to_lower(joined.as_str());
    chars_of(lower.as_str())
}

/// Whether `text` holds `pat`.
fn holds(text: &Vec<char>, pat: &str) -> (b: bool)
    ensures
        b == has_substring(text@, pat@),
{
    let p = chars_of(pat);
    contains_chars(text.as_slice(), p.as_slice())
}

/// Whether the pairing answer and output show that the device refused.
pub fn is_pair_refused(line: &Option<String>, snapshot: &Vec<String>) -> (b: bool)
    ensures
        b == pair_refused(opt_view(*line), str_views(snapshot@)),
{
    let explicit = match line {
        Some(l) => {
            let lower = to_lower(l.as_str());
            let lv = chars_of(lower.as_str());
            holds(&lv, "failed to pair") || holds(&lv, "authentication failed") || holds(
                &lv,
                "not available",
            )
        },
        None => false,
    };
    let snap = snapshot_lower(snapshot);
    explicit && !holds(&snap, "pairing successful") && !holds(&snap, "already paired")
}

/// Whether the connect answer and output show the device connected.
pub fn is_connect_confirmed(line: &Option<String>, snapshot: &Vec<String>) -> (b: bool)
    ensures
        b == connect_confirmed(opt_view(*line), str_views(snapshot@)),
{
    let by_line = match line {
        Some(l) => {
            let lower = to_lower(l.as_str());
            let lv = chars_of(lower.as_str());
            holds(&lv, "connection successful") || holds(&lv, "already connected") || holds(
                &lv,
                "connected: yes",
            )
        },
        None => false,
    };
    let snap = snapshot_lower(snapshot);
    by_line || holds(&snap, "connection successful") || holds(&snap, "connected: yes")
}

/// The actions that log and send a command.
pub open spec fn command_actions(cmd: Seq<char>) -> Seq<ActionView> {
    seq![ActionView::Log(LogView::Command(cmd)), ActionView::Send(cmd)]
}

/// The actions that ask for the connection and wait for the answer.
pub open spec fn connect_phase(addr: Seq<char>) -> Seq<ActionView> {
    seq![ActionView::Log(LogView::Connecting(addr))] + command_actions("connect "@ + addr) + seq![
        ActionView::WaitFor(connect_patterns(), 25, true),
    ]
}

/// The log entry for an answer line, if there is one.
pub open spec fn output_actions(line: Option<Seq<char>>) -> Seq<ActionView> {
    match line {
        Some(l) => seq![ActionView::Log(LogView::Output(l))],
        None => seq![],
    }
}

/// The first actions of a session for `addr`: forget an old pairing where the
/// goal asks for it, then start `bluetoothctl`.
pub open spec fn flow_start(addr: Seq<char>, goal: PairGoal) -> (FlowView, Seq<ActionView>) {
    let prelude = if goal == PairGoal::RepairForce {
        seq![
            ActionView::Log(LogView::RemovingOld),
            ActionView::Run(seq!["bluetoothctl"@, "remove"@, addr]),
            ActionView::Run(seq!["sh"@, "-c"@, "rm -rf /var/lib/bluetooth/*/"@ + crate::text::unicode_upper(addr)]),
            ActionView::PauseMs(500),
        ]
    } else {
        seq![]
    };
    (
        FlowView { addr, only_connect: goal == PairGoal::Reconnect, stage: Stage::AwaitSession },
        prelude + seq![ActionView::Log(LogView::StartingBctl), ActionView::StartSession],
    )
}

/// One step of a session: the next state and the actions for it, given what
/// the driver answered. An answer that the state does not wait for changes
/// nothing.
pub open spec fn flow_step(f: FlowView, e: EventView) -> (FlowView, Seq<ActionView>) {
    let addr = f.addr;
    let at = |st: Stage| FlowView { addr: f.addr, only_connect: f.only_connect, stage: st };
    match (f.stage, e) {
        (Stage::AwaitSession, EventView::SessionStarted(false)) => (
            at(Stage::Done),
            seq![ActionView::Log(LogView::BctlFailed), ActionView::Finish(false)],
        ),
        (Stage::AwaitSession, EventView::SessionStarted(true)) => {
            let setup = command_actions("agent on"@) + command_actions("default-agent"@)
                + command_actions("scan on"@) + seq![ActionView::PauseMs(800)];
            if f.only_connect {
                (at(Stage::AwaitConnect), setup + connect_phase(addr))
            } else {
                (
                    at(Stage::AwaitPasskey),
                    setup + seq![
                        ActionView::Log(LogView::Pairing(addr)),
                        ActionView::Log(LogView::AcceptDevice),
                    ] + command_actions("pair "@ + addr) + seq![
                        ActionView::WaitFor(seq!["confirm passkey"@], 30, false),
                    ],
                )
            }
        },
        (Stage::AwaitPasskey, EventView::Waited(line, _)) => (
            at(Stage::AwaitPairResult),
            (if line is Some {
                seq![ActionView::Log(LogView::ConfirmKey), ActionView::Send("yes"@)]
            } else {
                seq![]
            }) + seq![ActionView::WaitFor(pair_patterns(), 30, true)],
        ),
        (Stage::AwaitPairResult, EventView::Waited(line, snap)) => {
            if pair_refused(line, snap) {
                (
                    at(Stage::Done),
                    output_actions(line) + seq![
                        ActionView::Log(LogView::PairFail(line)),
                        ActionView::Quit,
                        ActionView::Finish(false),
                    ],
                )
            } else {
                (
                    at(Stage::AwaitTrust),
                    output_actions(line) + seq![ActionView::Log(LogView::Trusting)]
                        + command_actions("trust "@ + addr) + seq![
                        ActionView::WaitFor(trust_patterns(), 10, false),
                    ],
                )
            }
        },
        (Stage::AwaitTrust, EventView::Waited(line, _)) => (
            at(Stage::AwaitConnect),
            output_actions(line) + seq![ActionView::Log(LogView::Pause), ActionView::PauseMs(2000)]
                + connect_phase(addr),
        ),
        (Stage::AwaitConnect, EventView::Waited(line, snap)) => {
            let ok = connect_confirmed(line, snap);
            (
                at(Stage::Done),
                output_actions(line) + seq![
                    if ok {
                        ActionView::Log(LogView::DoneOk)
                    } else {
                        ActionView::Log(LogView::DoneFail(line))
                    },
                    ActionView::Log(LogView::Command("quit"@)),
                    ActionView::Quit,
                    ActionView::Finish(ok),
                ],
            )
        },
        _ => (f, seq![]),
    }
}

fn string_list2(a: &str, b: &str) -> (r: Vec<String>)
    ensures
        str_views(r@) == seq![a@, b@],
{
    let mut r: Vec<String> = Vec::new();
    r.push(owned(a));
    r.push(owned(b));
    assert(str_views(r@) =~= seq![a@, b@]);
    r
}

fn pair_pattern_list() -> (r: Vec<String>)
    ensures
        str_views(r@) == pair_patterns(),
{
    let mut r: Vec<String> = Vec::new();
    r.push(owned("pairing successful"));
    r.push(owned("failed to pair"));
    r.push(owned("not available"));
    r.push(owned("authentication failed"));
    r.push(owned("already paired"));
    r.push(owned("paired: yes"));
    r.push(owned("request confirmed"));
    r.push(owned("connected"));
    assert(str_views(r@) =~= pair_patterns());
    r
}

fn trust_pattern_list() -> (r: Vec<String>)
    ensures
        str_views(r@) == trust_patterns(),
{
    let mut r: Vec<String> = Vec::new();
    r.push(owned("trusted: yes"));
    r.push(owned("trust succeeded"));
    r.push(owned("changing trusted succeeded"));
    assert(str_views(r@) =~= trust_patterns());
    r
}

fn connect_pattern_list() -> (r: Vec<String>)
    ensures
        str_views(r@) == connect_patterns(),
{
    let mut r: Vec<String> = Vec::new();
    r.push(owned("connection successful"));
    r.push(owned("failed to connect"));
    r.push(owned("not available"));
    r.push(owned("already connected"));
    r.push(owned("connected: yes"));
    r.push(owned("error"));
    assert(str_views(r@) =~= connect_patterns());
    r
}

fn push_action(acts: &mut Vec<PairAction>, a: PairAction)
    ensures
        action_views(final(acts)@) == action_views(old(acts)@).push(a@),
{
    let ghost before = action_views(acts@);
    acts.push(a);
    assert(action_views(acts@) =~= before.push(a@));
}

fn push_command(acts: &mut Vec<PairAction>, cmd: String)
    ensures
        action_views(final(acts)@) == action_views(old(acts)@) + command_actions(cmd@),
{
    let ghost before = action_views(acts@);
    let logged = cmd.clone();
    push_action(acts, PairAction::Log(LogEntry::Command(logged)));
    push_action(acts, PairAction::Send(cmd));
    assert(action_views(acts@) =~= before + command_actions(cmd@));
}

fn push_output(acts: &mut Vec<PairAction>, line: &Option<String>)
    ensures
        action_views(final(acts)@) == action_views(old(acts)@) + output_actions(opt_view(*line)),
{
    let ghost before = action_views(acts@);
    match line {
        Some(l) => {
            push_action(acts, PairAction::Log(LogEntry::Output(l.clone())));
        },
        None => {},
    }
    assert(action_views(acts@) =~= before + output_actions(opt_view(*line)));
}

fn clone_opt(o: &Option<String>) -> (r: Option<String>)
    ensures
        opt_view(r) == opt_view(*o),
{
    match o {
        Some(s) => Some(s.clone()),
        None => None,
    }
}

fn push_connect_phase(acts: &mut Vec<PairAction>, addr: &String)
    ensures
        action_views(final(acts)@) == action_views(old(acts)@) + connect_phase(addr@),
{
    let ghost before = action_views(acts@);
    push_action(acts, PairAction::Log(LogEntry::Connecting(addr.clone())));
    push_command(acts, concat_str("connect ", addr.as_str()));
    push_action(
        acts,
        PairAction::WaitFor { patterns: connect_pattern_list(), timeout_secs: 25, snapshot: true },
    );
    assert(action_views(acts@) =~= before + connect_phase(addr@));
}

impl PairFlow {
    /// A session for the device at `addr` with the given goal, and its first actions.
    pub fn new(addr: &str, goal: PairGoal) -> (r: (PairFlow, Vec<PairAction>))
        ensures
            (r.0@, action_views(r.1@)) == flow_start(addr@, goal),
    {
        let mut acts: Vec<PairAction> = Vec::new();
        if goal == PairGoal::RepairForce {
            push_action(&mut acts, PairAction::Log(LogEntry::RemovingOld));
            let (remove, wipe) = bt_unpair(addr);
            push_action(&mut acts, PairAction::Run(remove));
            push_action(&mut acts, PairAction::Run(wipe));
            push_action(&mut acts, PairAction::PauseMs(500));
        }
        push_action(&mut acts, PairAction::Log(LogEntry::StartingBctl));
        push_action(&mut acts, PairAction::StartSession);
        let flow = PairFlow { addr: owned(addr), only_connect: goal.only_connect(), stage: Stage::AwaitSession };
        assert(action_views(acts@) =~= flow_start(addr@, goal).1);
        (flow, acts)
    }

    /// The step the session waits at.
    pub fn stage(&self) -> (r: Stage)
        ensures
            r == self@.stage,
    {
        self.stage
    }

    /// Whether the session is over.
    pub fn is_done(&self) -> (b: bool)
        ensures
            b == (self@.stage == Stage::Done),
    {
        self.stage == Stage::Done
    }

    /// The device's address.
    pub fn address(&self) -> (r: &String)
        ensures
            r@ == self@.addr,
    {
        &self.addr
    }

    /// Takes what the driver answered and gives the next actions.
    pub fn step(&mut self, e: PairEvent) -> (r: Vec<PairAction>)
        ensures
            (final(self)@, action_views(r@)) == flow_step(old(self)@, e@),
            old(self)@.stage == Stage::AwaitSession && e@ == EventView::SessionStarted(true)
                ==> agent_registered_first(action_views(r@)),
    {
        proof {
            if old(self)@.stage == Stage::AwaitSession {
                lemma_session_start_registers_agent(old(self)@);
            }
        }
        let mut acts: Vec<PairAction> = Vec::new();
        let ghost f = self@;
        let ghost ev = e@;
        match (self.stage, e) {
            (Stage::AwaitSession, PairEvent::SessionStarted(false)) => {
                push_action(&mut acts, PairAction::Log(LogEntry::BctlFailed));
                push_action(&mut acts, PairAction::Finish(false));
                self.stage = Stage::Done;
                assert(action_views(acts@) =~= flow_step(f, ev).1);
            },
            (Stage::AwaitSession, PairEvent::SessionStarted(true)) => {
                push_command(&mut acts, owned("agent on"));
                push_command(&mut acts, owned("default-agent"));
                push_command(&mut acts, owned("scan on"));
                push_action(&mut acts, PairAction::PauseMs(800));
                if self.only_connect {
                    push_connect_phase(&mut acts, &self.addr);
                    self.stage = Stage::AwaitConnect;
                } else {
                    push_action(&mut acts, PairAction::Log(LogEntry::Pairing(self.addr.clone())));
                    push_action(&mut acts, PairAction::Log(LogEntry::AcceptDevice));
                    push_command(&mut acts, concat_str("pair ", self.addr.as_str()));
                    let mut pats: Vec<String> = Vec::new();
                    pats.push(owned("confirm passkey"));
                    assert(str_views(pats@) =~= seq!["confirm passkey"@]);
                    push_action(
                        &mut acts,
                        PairAction::WaitFor { patterns: pats, timeout_secs: 30, snapshot: false },
                    );
                    self.stage = Stage::AwaitPasskey;
                }
                assert(action_views(acts@) =~= flow_step(f, ev).1);
            },
            (Stage::AwaitPasskey, PairEvent::Waited { line, snapshot: _ }) => {
                if line.is_some() {
                    push_action(&mut acts, PairAction::Log(LogEntry::ConfirmKey));
                    push_action(&mut acts, PairAction::Send(owned("yes")));
                }
                push_action(
                    &mut acts,
                    PairAction::WaitFor { patterns: pair_pattern_list(), timeout_secs: 30, snapshot: true },
                );
                self.stage = Stage::AwaitPairResult;
                assert(action_views(acts@) =~= flow_step(f, ev).1);
            },
            (Stage::AwaitPairResult, PairEvent::Waited { line, snapshot }) => {
                let refused = is_pair_refused(&line, &snapshot);
                push_output(&mut acts, &line);
                if refused {
                    push_action(&mut acts, PairAction::Log(LogEntry::PairFail(clone_opt(&line))));
                    push_action(&mut acts, PairAction::Quit);
                    push_action(&mut acts, PairAction::Finish(false));
                    self.stage = Stage::Done;
                } else {
                    push_action(&mut acts, PairAction::Log(LogEntry::Trusting));
                    push_command(&mut acts, concat_str("trust ", self.addr.as_str()));
                    push_action(
                        &mut acts,
                        PairAction::WaitFor { patterns: trust_pattern_list(), timeout_secs: 10, snapshot: false },
                    );
                    self.stage = Stage::AwaitTrust;
                }
                assert(action_views(acts@) =~= flow_step(f, ev).1);
            },
            (Stage::AwaitTrust, PairEvent::Waited { line, snapshot: _ }) => {
                push_output(&mut acts, &line);
                push_action(&mut acts, PairAction::Log(LogEntry::Pause));
                push_action(&mut acts, PairAction::PauseMs(2000));
                push_connect_phase(&mut acts, &self.addr);
                self.stage = Stage::AwaitConnect;
                assert(action_views(acts@) =~= flow_step(f, ev).1);
            },
            (Stage::AwaitConnect, PairEvent::Waited { line, snapshot }) => {
                let ok = is_connect_confirmed(&line, &snapshot);
                push_output(&mut acts, &line);
                if ok {
                    push_action(&mut acts, PairAction::Log(LogEntry::DoneOk));
                } else {
                    push_action(&mut acts, PairAction::Log(LogEntry::DoneFail(clone_opt(&line))));
                }
                push_action(&mut acts, PairAction::Log(LogEntry::Command(owned("quit"))));
                push_action(&mut acts, PairAction::Quit);
                push_action(&mut acts, PairAction::Finish(ok));
                self.stage = Stage::Done;
                assert(action_views(acts@) =~= flow_step(f, ev).1);
            },
            _ => {
                assert(action_views(acts@) =~= flow_step(f, ev).1);
            },
        }
        acts
    }
}

/// An action that waits for the driver's answer, or ends the session.
pub open spec fn is_request(a: ActionView) -> bool {
    a is StartSession || a is WaitFor || a is Finish
}

/// An action that belongs to pairing (as opposed to connecting).
pub open spec fn is_pairing_action(a: ActionView) -> bool {
    a matches ActionView::Log(LogView::Pairing(_)) || a == ActionView::Log(LogView::Trusting)
        || a == ActionView::Log(LogView::ConfirmKey)
}

/// An answer that the state waits for.
pub open spec fn event_fits(st: Stage, e: EventView) -> bool {
    match st {
        Stage::AwaitSession => e is SessionStarted,
        Stage::Done => false,
        _ => e is Waited,
    }
}

/// Steps only go forward: the stages in the order a session passes them.
pub open spec fn stage_rank(st: Stage) -> int {
    match st {
        Stage::AwaitSession => 0,
        Stage::AwaitPasskey => 1,
        Stage::AwaitPairResult => 2,
        Stage::AwaitTrust => 3,
        Stage::AwaitConnect => 4,
        Stage::Done => 5,
    }
}

/// A batch of actions that ends in exactly one request, its last action.
pub open spec fn one_request_last(acts: Seq<ActionView>) -> bool {
    &&& acts.len() > 0
    &&& is_request(acts.last())
    &&& forall|i: int| 0 <= i < acts.len() - 1 ==> !is_request(#[trigger] acts[i])
}

/// A session starts with a batch that ends in starting `bluetoothctl` and
/// waits at that.
pub proof fn lemma_flow_start(addr: Seq<char>, goal: PairGoal)
    ensures
        one_request_last(flow_start(addr, goal).1),
        flow_start(addr, goal).1.last() == ActionView::StartSession,
        flow_start(addr, goal).0.stage == Stage::AwaitSession,
{
    let acts = flow_start(addr, goal).1;
    assert forall|i: int| 0 <= i < acts.len() - 1 implies !is_request(#[trigger] acts[i]) by {
    }
}

/// Every step goes forward: an answer the state waits for moves it to a later
/// stage with one batch ending in one request, which ends the session exactly
/// when the session moves to `Done`; any other answer changes nothing.
pub proof fn lemma_flow_progress(f: FlowView, e: EventView)
    ensures
        event_fits(f.stage, e) ==> {
            let (g, acts) = flow_step(f, e);
            &&& stage_rank(g.stage) > stage_rank(f.stage)
            &&& g.addr == f.addr && g.only_connect == f.only_connect
            &&& one_request_last(acts)
            &&& (acts.last() is Finish <==> g.stage == Stage::Done)
        },
        !event_fits(f.stage, e) ==> flow_step(f, e) == (f, Seq::<ActionView>::empty()),
{
    if event_fits(f.stage, e) {
        let (g, acts) = flow_step(f, e);
        assert forall|i: int| 0 <= i < acts.len() - 1 implies !is_request(#[trigger] acts[i]) by {
        }
    } else {
        match f.stage {
            Stage::AwaitSession => {},
            _ => {},
        }
    }
}

/// The first two lines sent are `agent on` and then `default-agent`, and
/// nothing waits for an answer before them: any `pair` or `connect` command
/// comes after the agent is registered as the default one.
pub open spec fn agent_registered_first(acts: Seq<ActionView>) -> bool {
    exists|i: int, j: int|
        0 <= i < j < acts.len() && #[trigger] acts[i] == ActionView::Send("agent on"@) && #[trigger] acts[j]
            == ActionView::Send("default-agent"@) && forall|k: int|
            0 <= k <= j ==> (k == i || k == j || !(#[trigger] acts[k] is Send)) && !is_request(acts[k])
}

/// Whatever the goal, a started session first registers its agent as the
/// default one, before it sends anything else or waits for anything.
pub proof fn lemma_session_start_registers_agent(f: FlowView)
    requires
        f.stage == Stage::AwaitSession,
    ensures
        agent_registered_first(flow_step(f, EventView::SessionStarted(true)).1),
{
    let acts = flow_step(f, EventView::SessionStarted(true)).1;
    assert(acts[1] == ActionView::Send("agent on"@));
    assert(acts[3] == ActionView::Send("default-agent"@));
    assert forall|k: int| 0 <= k <= 3 implies (k == 1 || k == 3 || !(#[trigger] acts[k] is Send)) && !is_request(
        acts[k],
    ) by {}
}

/// A session ends with success only where the connect answer or the output
/// showed the device connected.
pub proof fn lemma_success_needs_connection(f: FlowView, e: EventView)
    requires
        flow_step(f, e).1.contains(ActionView::Finish(true)),
    ensures
        f.stage == Stage::AwaitConnect,
        e matches EventView::Waited(line, snap) && connect_confirmed(line, snap),
{
    let acts = flow_step(f, e).1;
    let k = choose|k: int| 0 <= k < acts.len() && acts[k] == ActionView::Finish(true);
    match (f.stage, e) {
        (Stage::AwaitConnect, EventView::Waited(line, snap)) => {},
        _ => {
            assert(acts[k] != ActionView::Finish(true));
        },
    }
}

/// A reconnecting session never pairs: it only waits for the session or the
/// connection, or is done, and none of its actions belongs to pairing.
pub proof fn lemma_reconnect_never_pairs(f: FlowView, e: EventView)
    requires
        f.only_connect,
        f.stage == Stage::AwaitSession || f.stage == Stage::AwaitConnect || f.stage == Stage::Done,
    ensures
        ({
            let g = flow_step(f, e).0;
            g.only_connect && (g.stage == Stage::AwaitSession || g.stage == Stage::AwaitConnect
                || g.stage == Stage::Done)
        }),
        forall|i: int|
            0 <= i < flow_step(f, e).1.len() ==> !is_pairing_action(#[trigger] flow_step(f, e).1[i]),
{
    let acts = flow_step(f, e).1;
    assert forall|i: int| 0 <= i < acts.len() implies !is_pairing_action(#[trigger] acts[i]) by {
    }
}

/// A reconnecting session starts without pairing actions.
pub proof fn lemma_reconnect_start(addr: Seq<char>)
    ensures
        flow_start(addr, PairGoal::Reconnect).0.only_connect,
        forall|i: int|
            0 <= i < flow_start(addr, PairGoal::Reconnect).1.len() ==> !is_pairing_action(
                #[trigger] flow_start(addr, PairGoal::Reconnect).1[i],
            ),
{
    let acts = flow_start(addr, PairGoal::Reconnect).1;
    assert forall|i: int| 0 <= i < acts.len() implies !is_pairing_action(#[trigger] acts[i]) by {
    }
}

/// `acts` sends the line `cmd`.
pub open spec fn sends(acts: Seq<ActionView>, cmd: Seq<char>) -> bool {
    acts.contains(ActionView::Send(cmd))
}

/// Every line that `acts` sends is one of `cmds`.
pub open spec fn sends_only(acts: Seq<ActionView>, cmds: Set<Seq<char>>) -> bool {
    forall|i: int| 0 <= i < acts.len() ==> (#[trigger] acts[i] matches ActionView::Send(c) ==> cmds.contains(c))
}

/// What each answer of the session is met with. A fresh session, once started,
/// sends the agent setup, `scan on` and `pair <addr>` and waits for the passkey
/// prompt; a reconnecting one sends the setup and `connect <addr>`, and never
/// `pair`. A session that failed to start ends unsuccessfully. A passkey prompt
/// is answered `yes`; without one nothing is sent. A pairing answer that says
/// it failed (to pair, to authenticate, or not available), where the output
/// says neither that pairing succeeded nor that it was paired already, ends the
/// session unsuccessfully without trusting; any other answer trusts the
/// address. The trust answer, whatever it is, leads to `connect <addr>`. The
/// connect answer ends the session, with success exactly when it says the
/// connection succeeded, was there already or `connected: yes`, or the output
/// says `connection successful` or `connected: yes`.
pub proof fn lemma_flow_answers(f: FlowView, e: EventView)
    ensures
        f.stage == Stage::AwaitSession && e == EventView::SessionStarted(true) ==> {
            let (g, acts) = flow_step(f, e);
            let setup = set!["agent on"@, "default-agent"@, "scan on"@];
            &&& sends(acts, "agent on"@) && sends(acts, "default-agent"@) && sends(acts, "scan on"@)
            &&& !f.only_connect ==> {
                &&& sends(acts, "pair "@ + f.addr)
                &&& sends_only(acts, setup.insert("pair "@ + f.addr))
                &&& g.stage == Stage::AwaitPasskey
                &&& acts.last() == ActionView::WaitFor(seq!["confirm passkey"@], 30, false)
            }
            &&& f.only_connect ==> {
                &&& sends(acts, "connect "@ + f.addr)
                &&& sends_only(acts, setup.insert("connect "@ + f.addr))
                &&& g.stage == Stage::AwaitConnect
            }
        },
        f.stage == Stage::AwaitSession && e == EventView::SessionStarted(false) ==> {
            let (g, acts) = flow_step(f, e);
            &&& g.stage == Stage::Done
            &&& acts.last() == ActionView::Finish(false)
            &&& sends_only(acts, Set::empty())
        },
        f.stage == Stage::AwaitPasskey ==> (e matches EventView::Waited(line, _) ==> {
            let (g, acts) = flow_step(f, e);
            &&& g.stage == Stage::AwaitPairResult
            &&& line is Some ==> sends(acts, "yes"@) && sends_only(acts, set!["yes"@])
            &&& line is None ==> sends_only(acts, Set::empty())
            &&& acts.last() is WaitFor
        }),
        f.stage == Stage::AwaitPairResult ==> (e matches EventView::Waited(line, snap) ==> {
            let (g, acts) = flow_step(f, e);
            let failed = line matches Some(l) && (has_substring(unicode_lower(l), "failed to pair"@)
                || has_substring(unicode_lower(l), "authentication failed"@) || has_substring(
                unicode_lower(l),
                "not available"@,
            ));
            let text = snapshot_text(snap);
            let refused = failed && !has_substring(text, "pairing successful"@) && !has_substring(
                text,
                "already paired"@,
            );
            &&& refused ==> g.stage == Stage::Done && acts.last() == ActionView::Finish(false)
                && sends_only(acts, Set::empty())
            &&& !refused ==> g.stage == Stage::AwaitTrust && sends(acts, "trust "@ + f.addr)
                && sends_only(acts, set!["trust "@ + f.addr])
        }),
        f.stage == Stage::AwaitTrust ==> (e is Waited ==> {
            let (g, acts) = flow_step(f, e);
            &&& g.stage == Stage::AwaitConnect
            &&& sends(acts, "connect "@ + f.addr)
            &&& sends_only(acts, set!["connect "@ + f.addr])
        }),
        f.stage == Stage::AwaitConnect ==> (e matches EventView::Waited(line, snap) ==> {
            let (g, acts) = flow_step(f, e);
            let by_line = line matches Some(l) && (has_substring(unicode_lower(l), "connection successful"@)
                || has_substring(unicode_lower(l), "already connected"@) || has_substring(
                unicode_lower(l),
                "connected: yes"@,
            ));
            let text = snapshot_text(snap);
            let ok = by_line || has_substring(text, "connection successful"@) || has_substring(
                text,
                "connected: yes"@,
            );
            &&& g.stage == Stage::Done
            &&& acts.contains(ActionView::Quit)
            &&& acts.last() == ActionView::Finish(ok)
            &&& sends_only(acts, Set::empty())
        }),
{
    let (g, acts) = flow_step(f, e);
    match (f.stage, e) {
        (Stage::AwaitSession, EventView::SessionStarted(true)) => {
            assert(acts[1] == ActionView::Send("agent on"@));
            assert(acts[3] == ActionView::Send("default-agent"@));
            assert(acts[5] == ActionView::Send("scan on"@));
            if f.only_connect {
                assert(acts[9] == ActionView::Send("connect "@ + f.addr));
            } else {
                assert(acts[10] == ActionView::Send("pair "@ + f.addr));
            }
        },
        (Stage::AwaitPasskey, EventView::Waited(line, _)) => {
            if line is Some {
                assert(acts[1] == ActionView::Send("yes"@));
            }
        },
        (Stage::AwaitPairResult, EventView::Waited(line, snap)) => {
            if !pair_refused(line, snap) {
                let k = acts.len() - 2;
                assert(acts[k] == ActionView::Send("trust "@ + f.addr));
            }
        },
        (Stage::AwaitTrust, EventView::Waited(line, _)) => {
            let k = acts.len() - 2;
            assert(acts[k] == ActionView::Send("connect "@ + f.addr));
        },
        (Stage::AwaitConnect, EventView::Waited(line, snap)) => {
            let k = acts.len() - 2;
            assert(acts[k] == ActionView::Quit);
        },
        _ => {},
    }
}

/// Some pattern of `pats` stands in `l`, both taken in lower case.
pub open spec fn line_matches(l: Seq<char>, pats: Seq<Seq<char>>) -> bool {
    exists|j: int| 0 <= j < pats.len() && has_substring(unicode_lower(l), unicode_lower(#[trigger] pats[j]))
}

/// The first index at or after `i` of a line that matches one of `pats`.
pub open spec fn first_match_from(ls: Seq<Seq<char>>, pats: Seq<Seq<char>>, i: int) -> Option<int>
    decreases ls.len() - i,
{
    if i < 0 || i >= ls.len() {
        None
    } else if line_matches(ls[i], pats) {
        Some(i)
    } else {
        first_match_from(ls, pats, i + 1)
    }
}

pub proof fn lemma_first_match_from(ls: Seq<Seq<char>>, pats: Seq<Seq<char>>, i: int)
    requires
        0 <= i,
    ensures
        first_match_from(ls, pats, i) matches Some(k) ==> i <= k < ls.len() && line_matches(ls[k], pats),
    decreases ls.len() - i,
{
    if i < ls.len() && !line_matches(ls[i], pats) {
        lemma_first_match_from(ls, pats, i + 1);
    }
}

/// The first output line from index `from` on that holds one of the patterns,
/// case aside: what a wait for those patterns gives back from new output.
pub fn first_match(lines: &Vec<String>, from: usize, patterns: &Vec<String>) -> (r: Option<String>)
    requires
        from <= lines@.len(),
    ensures
        r matches Some(l) ==> first_match_from(str_views(lines@), str_views(patterns@), from as int)
            matches Some(k) && l@ == lines@[k]@,
        r is None ==> first_match_from(str_views(lines@), str_views(patterns@), from as int) is None,
{
    let mut lowered: Vec<Vec<char>> = Vec::new();
    let mut j: usize = 0;
    while j < patterns.len()
        invariant
            j <= patterns@.len(),
            lowered@.len() == j,
            forall|k: int| 0 <= k < j ==> (#[trigger] lowered@[k])@ == unicode_lower(patterns@[k]@),
        decreases patterns@.len() - j,
    {
        let lp = to_lower(patterns[j].as_str());
        lowered.push(chars_of(lp.as_str()));
        j = j + 1;
    }
    let mut i: usize = from;
    while i < lines.len()
        invariant
            from <= i <= lines@.len(),
            lowered@.len() == patterns@.len(),
            forall|k: int| 0 <= k < patterns@.len() ==> (#[trigger] lowered@[k])@ == unicode_lower(patterns@[k]@),
            first_match_from(str_views(lines@), str_views(patterns@), from as int)
                == first_match_from(str_views(lines@), str_views(patterns@), i as int),
        decreases lines@.len() - i,
    {
        let ll = to_lower(lines[i].as_str());
        let lv = chars_of(ll.as_str());
        let mut k: usize = 0;
        let mut found = false;
        while k < lowered.len()
            invariant
                k <= lowered@.len(),
                lowered@.len() == patterns@.len(),
                lv@ == unicode_lower(lines@[i as int]@),
                forall|q: int| 0 <= q < patterns@.len() ==> (#[trigger] lowered@[q])@ == unicode_lower(patterns@[q]@),
                found == exists|q: int| 0 <= q < k && has_substring(lv@, unicode_lower(#[trigger] str_views(patterns@)[q])),
            decreases lowered@.len() - k,
        {
            if contains_chars(lv.as_slice(), lowered[k].as_slice()) {
                assert(has_substring(lv@, unicode_lower(str_views(patterns@)[k as int])));
                found = true;
            }
            k = k + 1;
        }
        assert(str_views(lines@)[i as int] == lines@[i as int]@);
        if found {
            return Some(lines[i].clone());
        }
        i = i + 1;
    }
    None
}

} // verus!
