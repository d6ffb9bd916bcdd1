//! The device session, as a state machine.
//!
//! The manager takes one command at a time and carries it out step by step.
//! At each step it asks its driver for one effect: a call on the Bluetooth
//! stack, a pause, a rendering, or the next command. The driver performs the
//! effect and hands the outcome back as the next input, on which the manager
//! tells what to publish and what to do next. An input that does not answer
//! the pending effect changes nothing.

use vstd::prelude::*;
use crate::bitmap::{Bitmap, BitmapView};
use crate::discovery::{find_characteristic, is_printer_name, position_of, printer_name, texts};
use crate::printer::{
    job_for,
    print_image,
    JobView,
    Outcome,
    OutcomeView,
    PrintJob,
    Request,
    RequestView,
};
use crate::text::concat3;
use crate::types::{
    emit,
    event_views,
    log_event,
    error_event,
    AppEvent,
    BleCommand,
    CommandView,
    EventView,
    NOTIFY_CHAR_UUID,
    WRITE_CHAR_UUID,
};

verus! {

/// Time, in milliseconds, after which a scan is given up.
pub const SCAN_DEADLINE_MS: u64 = 10000;

/// Pause, in milliseconds, between creating the Bluetooth manager and asking
/// it for its adapters.
pub const ADAPTER_SETTLE_MS: u64 = 200;

/// A live connection: the characteristic, by its index among those that the
/// peripheral reported, that takes the printer's commands.
#[derive(Debug, Clone, Copy, PartialEq, Eq)]
pub struct Session {
    pub write_characteristic: usize,
}

/// The state of the session as a caller sees it.
#[derive(Debug, Clone, Copy, PartialEq, Eq)]
pub enum SessionState {
    Idle,
    Scanning,
    Connected,
}

/// What the driver hands to the manager.
#[derive(Debug)]
pub enum Input {
    /// The next command, in answer to [`Effect::AwaitCommand`].
    Command(BleCommand),
    /// The effect was carried out.
    Done,
    /// The effect failed, for the reason given.
    Failed(String),
    /// The number of Bluetooth adapters, in answer to [`Effect::ListAdapters`].
    Adapters(usize),
    /// A device was discovered, with the name it advertises, if any;
    /// `elapsed_ms` is the time since the scan began.
    Discovered { name: Option<String>, elapsed_ms: u64 },
    /// The adapter reported something other than a discovery.
    OtherEvent { elapsed_ms: u64 },
    /// The adapter reports nothing more.
    StreamEnded,
    /// Nothing was reported within the time allowed.
    TimedOut,
    /// The address of the device, if it could be had.
    Address(Option<String>),
    /// The UUIDs of the characteristics of the device.
    Characteristics(Vec<String>),
    /// The bitmap that rendering the text gave.
    Rendered(Bitmap),
}

/// Mathematical value of an [`Input`].
pub enum InputView {
    Command(CommandView),
    Done,
    Failed(Seq<char>),
    Adapters(nat),
    Discovered { name: Option<Seq<char>>, elapsed_ms: nat },
    OtherEvent { elapsed_ms: nat },
    StreamEnded,
    TimedOut,
    Address(Option<Seq<char>>),
    Characteristics(Seq<Seq<char>>),
    Rendered(BitmapView),
}

/// The text of an optional string.
pub open spec fn text_of(s: Option<String>) -> Option<Seq<char>> {
    match s {
        Some(s) => Some(s@),
        None => None,
    }
}

impl View for Input {
    type V = InputView;

    open spec fn view(&self) -> InputView {
        match self {
            Input::Command(command) => InputView::Command(command@),
            Input::Done => InputView::Done,
            Input::Failed(reason) => InputView::Failed(reason@),
            Input::Adapters(count) => InputView::Adapters(*count as nat),
            Input::Discovered { name, elapsed_ms } => InputView::Discovered {
                name: text_of(*name),
                elapsed_ms: *elapsed_ms as nat,
            },
            Input::OtherEvent { elapsed_ms } => InputView::OtherEvent {
                elapsed_ms: *elapsed_ms as nat,
            },
            Input::StreamEnded => InputView::StreamEnded,
            Input::TimedOut => InputView::TimedOut,
            Input::Address(address) => InputView::Address(text_of(*address)),
            Input::Characteristics(uuids) => InputView::Characteristics(texts(uuids@)),
            Input::Rendered(img) => InputView::Rendered(img@),
        }
    }
}

/// What the manager asks its driver to do.
#[derive(Debug, PartialEq, Eq)]
pub enum Effect {
    /// Take the next command from the queue.
    AwaitCommand,
    /// Create the Bluetooth manager.
    CreateManager,
    /// Wait this many milliseconds.
    Sleep(u64),
    /// Count the Bluetooth adapters; the first one is used from here on.
    ListAdapters,
    /// Start a scan for devices.
    StartScan,
    /// Open the stream of the adapter's events.
    OpenEvents,
    /// Wait for the next event of the adapter, this long at most.
    NextEvent { timeout_ms: u64 },
    /// Stop the scan.
    StopScan,
    /// Ask the device found for its address.
    QueryAddress,
    /// Connect to the device found.
    Connect,
    /// Discover the services of the device and list its characteristics.
    DiscoverServices,
    /// Subscribe to the notifications of this characteristic.
    Subscribe { characteristic: usize },
    /// Write these bytes to this characteristic and wait for the
    /// acknowledgment.
    Write { characteristic: usize, data: Vec<u8> },
    /// Start listening to the notifications of the device.
    SpawnListener,
    /// Disconnect from the device.
    Disconnect,
    /// Render this text to a bitmap.
    Render { text: String, font_path: String, font_size: u32 },
}

/// Mathematical value of an [`Effect`].
pub enum EffectView {
    AwaitCommand,
    CreateManager,
    Sleep(nat),
    ListAdapters,
    StartScan,
    OpenEvents,
    NextEvent { timeout_ms: nat },
    StopScan,
    QueryAddress,
    Connect,
    DiscoverServices,
    Subscribe { characteristic: nat },
    Write { characteristic: nat, data: Seq<u8> },
    SpawnListener,
    Disconnect,
    Render { text: Seq<char>, font_path: Seq<char>, font_size: nat },
}

impl View for Effect {
    type V = EffectView;

    open spec fn view(&self) -> EffectView {
        match self {
            Effect::AwaitCommand => EffectView::AwaitCommand,
            Effect::CreateManager => EffectView::CreateManager,
            Effect::Sleep(ms) => EffectView::Sleep(*ms as nat),
            Effect::ListAdapters => EffectView::ListAdapters,
            Effect::StartScan => EffectView::StartScan,
            Effect::OpenEvents => EffectView::OpenEvents,
            Effect::NextEvent { timeout_ms } => EffectView::NextEvent {
                timeout_ms: *timeout_ms as nat,
            },
            Effect::StopScan => EffectView::StopScan,
            Effect::QueryAddress => EffectView::QueryAddress,
            Effect::Connect => EffectView::Connect,
            Effect::DiscoverServices => EffectView::DiscoverServices,
            Effect::Subscribe { characteristic } => EffectView::Subscribe {
                characteristic: *characteristic as nat,
            },
            Effect::Write { characteristic, data } => EffectView::Write {
                characteristic: *characteristic as nat,
                data: data@,
            },
            Effect::SpawnListener => EffectView::SpawnListener,
            Effect::Disconnect => EffectView::Disconnect,
            Effect::Render { text, font_path, font_size } => EffectView::Render {
                text: text@,
                font_path: font_path@,
                font_size: *font_size as nat,
            },
        }
    }
}

/// Where the manager stands: the effect it has asked for and waits on.
pub enum PhaseView {
    /// The next command.
    Ready,
    CreatingManager,
    Settling,
    ListingAdapters,
    StartingScan,
    OpeningEvents,
    /// The next event of the adapter, `elapsed_ms` after the scan began.
    Discovering { elapsed_ms: nat },
    /// The end of the scan, in which a printer was `found` or not.
    StoppingScan { found: bool },
    QueryingAddress,
    Connecting,
    DiscoveringServices,
    Subscribing { write: nat, notify: nat },
    /// The write of the status request.
    RequestingStatus { write: nat },
    StartingListener,
    Disconnecting,
    Rendering { text: Seq<char>, font_path: Seq<char>, font_size: nat },
    /// What the print job asks for; `write` is the characteristic written to.
    Printing { job: JobView, write: nat },
}

/// Mathematical value of a [`SessionManager`].
pub struct ManagerView {
    pub phase: PhaseView,
    pub session: Option<Session>,
}

/// The bytes that ask the printer for its status.
pub open spec fn status_request() -> Seq<u8> {
    seq![0x1Eu8, 0x47u8, 0x03u8]
}

/// Whether the manager is busy finding and connecting to a printer.
pub open spec fn is_scan_phase(phase: PhaseView) -> bool {
    !(phase is Ready || phase is Disconnecting || phase is Rendering || phase is Printing
        || phase is StartingListener)
}

/// The manager at rest without a session, and what a failed attempt to
/// connect publishes.
pub open spec fn scan_failed(reason: Seq<char>) -> (ManagerView, Seq<EventView>) {
    (
        ManagerView { phase: PhaseView::Ready, session: None },
        seq![EventView::Log("Scan error: "@ + reason), EventView::Disconnected],
    )
}

/// The text shown for an address that may be missing.
pub open spec fn address_text(address: Option<Seq<char>>) -> Seq<char> {
    match address {
        Some(a) => a,
        None => "unknown"@,
    }
}

impl ManagerView {
    /// The manager before any command: at rest, without a session.
    pub open spec fn idle() -> ManagerView {
        ManagerView { phase: PhaseView::Ready, session: None }
    }

    /// What holds of every manager.
    pub open spec fn wf(self) -> bool {
        &&& is_scan_phase(self.phase) ==> self.session is None
        &&& (self.phase is Disconnecting || self.phase is Rendering || self.phase is Printing
            || self.phase is StartingListener) ==> self.session is Some
        &&& self.phase matches PhaseView::Discovering { elapsed_ms } ==> elapsed_ms
            < SCAN_DEADLINE_MS
        &&& self.phase matches PhaseView::Printing { job, write } ==> {
            &&& job.wf()
            &&& !(job.phase is Finished)
            &&& self.session == Some(Session { write_characteristic: write as usize })
            &&& write <= usize::MAX
        }
        &&& self.phase matches PhaseView::Subscribing { write, notify } ==> write <= usize::MAX
            && notify <= usize::MAX
        &&& self.phase matches PhaseView::RequestingStatus { write } ==> write <= usize::MAX
    }

    /// The state of the session as a caller sees it.
    pub open spec fn state(self) -> SessionState {
        if self.session is Some {
            SessionState::Connected
        } else if self.phase is Ready {
            SessionState::Idle
        } else {
            SessionState::Scanning
        }
    }

    /// The effect that the manager waits on.
    pub open spec fn effect(self) -> EffectView {
        match self.phase {
            PhaseView::Ready => EffectView::AwaitCommand,
            PhaseView::CreatingManager => EffectView::CreateManager,
            PhaseView::Settling => EffectView::Sleep(ADAPTER_SETTLE_MS as nat),
            PhaseView::ListingAdapters => EffectView::ListAdapters,
            PhaseView::StartingScan => EffectView::StartScan,
            PhaseView::OpeningEvents => EffectView::OpenEvents,
            PhaseView::Discovering { elapsed_ms } => EffectView::NextEvent {
                timeout_ms: (SCAN_DEADLINE_MS - elapsed_ms) as nat,
            },
            PhaseView::StoppingScan { found } => EffectView::StopScan,
            PhaseView::QueryingAddress => EffectView::QueryAddress,
            PhaseView::Connecting => EffectView::Connect,
            PhaseView::DiscoveringServices => EffectView::DiscoverServices,
            PhaseView::Subscribing { write, notify } => EffectView::Subscribe {
                characteristic: notify,
            },
            PhaseView::RequestingStatus { write } => EffectView::Write {
                characteristic: write,
                data: status_request(),
            },
            PhaseView::StartingListener => EffectView::SpawnListener,
            PhaseView::Disconnecting => EffectView::Disconnect,
            PhaseView::Rendering { text, font_path, font_size } => EffectView::Render {
                text,
                font_path,
                font_size,
            },
            PhaseView::Printing { job, write } => match job.request() {
                RequestView::Write(data) => EffectView::Write { characteristic: write, data },
                RequestView::Sleep(ms) => EffectView::Sleep(ms),
                RequestView::Nothing => EffectView::AwaitCommand,
            },
        }
    }

    /// The manager unchanged, and nothing to publish.
    pub open spec fn stay(self) -> (ManagerView, Seq<EventView>) {
        (self, seq![])
    }

    /// The manager in another phase, and nothing to publish.
    pub open spec fn go(self, phase: PhaseView) -> (ManagerView, Seq<EventView>) {
        (ManagerView { phase, ..self }, seq![])
    }

    /// The manager at rest, and nothing to publish.
    pub open spec fn rest(self) -> (ManagerView, Seq<EventView>) {
        self.go(PhaseView::Ready)
    }

    /// The start of the print of `img`, on a manager that has a session.
    pub open spec fn begin_print(self, img: BitmapView) -> (ManagerView, Seq<EventView>) {
        match self.session {
            Some(session) => self.go(
                PhaseView::Printing {
                    job: job_for(img),
                    write: session.write_characteristic as nat,
                },
            ),
            None => self.rest(),
        }
    }

    /// What a manager at rest does on a command.
    pub open spec fn on_command(self, command: CommandView) -> (ManagerView, Seq<EventView>) {
        match command {
            CommandView::ScanAndConnect => (
                ManagerView { phase: PhaseView::CreatingManager, session: None },
                seq![
                    EventView::ScanStarted,
                    EventView::Log("Scanning for compatible printers (10s)..."@),
                ],
            ),
            CommandView::Disconnect => if self.session is Some {
                (
                    ManagerView { phase: PhaseView::Disconnecting, ..self },
                    seq![EventView::Log("Disconnecting..."@)],
                )
            } else {
                (self, seq![EventView::Disconnected])
            },
            CommandView::PrintImage(img) => if self.session is Some {
                self.begin_print(img)
            } else {
                (self, seq![EventView::Log("Print aborted: not connected"@)])
            },
            CommandView::PrintText { text, font_path, font_size } => if self.session is Some {
                self.go(PhaseView::Rendering { text, font_path, font_size })
            } else {
                (self, seq![EventView::Log("Print aborted: not connected"@)])
            },
        }
    }

    /// The scan goes on, `elapsed_ms` after it began, unless its time is up.
    pub open spec fn scan_on(self, elapsed_ms: nat) -> (ManagerView, Seq<EventView>) {
        if elapsed_ms >= SCAN_DEADLINE_MS {
            self.go(PhaseView::StoppingScan { found: false })
        } else {
            self.go(PhaseView::Discovering { elapsed_ms })
        }
    }

    /// What a manager that waits for the adapter's next event does.
    pub open spec fn on_discovery(self, input: InputView) -> (ManagerView, Seq<EventView>) {
        match input {
            InputView::Discovered { name, elapsed_ms } => match name {
                Some(name) => if printer_name(name) {
                    (
                        ManagerView { phase: PhaseView::StoppingScan { found: true }, ..self },
                        seq![EventView::Log("Found: "@ + name)],
                    )
                } else {
                    self.scan_on(elapsed_ms)
                },
                None => self.scan_on(elapsed_ms),
            },
            InputView::OtherEvent { elapsed_ms } => self.scan_on(elapsed_ms),
            InputView::StreamEnded => self.go(PhaseView::StoppingScan { found: false }),
            InputView::TimedOut => self.go(PhaseView::StoppingScan { found: false }),
            InputView::Failed(reason) => scan_failed(reason),
            _ => self.stay(),
        }
    }

    /// What a manager does once the scan has stopped.
    pub open spec fn after_scan(self, found: bool) -> (ManagerView, Seq<EventView>) {
        if found {
            self.go(PhaseView::QueryingAddress)
        } else {
            (
                ManagerView { phase: PhaseView::Ready, session: None },
                seq![
                    EventView::Log("No compatible printer found nearby"@),
                    EventView::Disconnected,
                ],
            )
        }
    }

    /// What a manager does with the characteristics of the device: it picks
    /// the two it needs, or fails if one of them is missing.
    pub open spec fn on_characteristics(self, uuids: Seq<Seq<char>>) -> (
        ManagerView,
        Seq<EventView>,
    ) {
        match position_of(uuids, WRITE_CHAR_UUID@) {
            Some(write) => match position_of(uuids, NOTIFY_CHAR_UUID@) {
                Some(notify) => self.go(PhaseView::Subscribing { write, notify }),
                None => scan_failed("Notify characteristic not found"@),
            },
            None => scan_failed("Write characteristic not found"@),
        }
    }

    /// What a manager that is connecting does.
    pub open spec fn on_connecting(self, input: InputView) -> (ManagerView, Seq<EventView>) {
        match self.phase {
            PhaseView::QueryingAddress => match input {
                InputView::Address(address) => (
                    ManagerView { phase: PhaseView::Connecting, ..self },
                    seq![EventView::Log("Connecting to "@ + address_text(address) + "..."@)],
                ),
                InputView::Failed(_) => (
                    ManagerView { phase: PhaseView::Connecting, ..self },
                    seq![EventView::Log("Connecting to "@ + "unknown"@ + "..."@)],
                ),
                _ => self.stay(),
            },
            PhaseView::Connecting => match input {
                InputView::Done => self.go(PhaseView::DiscoveringServices),
                InputView::Failed(reason) => scan_failed(reason),
                _ => self.stay(),
            },
            PhaseView::DiscoveringServices => match input {
                InputView::Characteristics(uuids) => self.on_characteristics(uuids),
                InputView::Failed(reason) => scan_failed(reason),
                _ => self.stay(),
            },
            PhaseView::Subscribing { write, notify } => match input {
                InputView::Done => self.go(PhaseView::RequestingStatus { write }),
                InputView::Failed(reason) => scan_failed(reason),
                _ => self.stay(),
            },
            PhaseView::RequestingStatus { write } => if input is Done || input is Failed {
                (
                    ManagerView {
                        phase: PhaseView::StartingListener,
                        session: Some(Session { write_characteristic: write as usize }),
                    },
                    seq![
                        EventView::Log("Connected (chunk size: 182 bytes)"@),
                        EventView::Connected,
                    ],
                )
            } else {
                self.stay()
            },
            PhaseView::StartingListener => match input {
                InputView::Done => self.rest(),
                _ => self.stay(),
            },
            _ => self.stay(),
        }
    }

    /// What a manager that is setting up a scan does.
    pub open spec fn on_scan_setup(self, input: InputView) -> (ManagerView, Seq<EventView>) {
        match self.phase {
            PhaseView::CreatingManager => match input {
                InputView::Done => self.go(PhaseView::Settling),
                InputView::Failed(reason) => scan_failed(reason),
                _ => self.stay(),
            },
            PhaseView::Settling => match input {
                InputView::Done => self.go(PhaseView::ListingAdapters),
                _ => self.stay(),
            },
            PhaseView::ListingAdapters => match input {
                InputView::Adapters(count) => if count == 0 {
                    scan_failed("No Bluetooth adapter found"@)
                } else {
                    self.go(PhaseView::StartingScan)
                },
                InputView::Failed(reason) => scan_failed(reason),
                _ => self.stay(),
            },
            PhaseView::StartingScan => match input {
                InputView::Done => self.go(PhaseView::OpeningEvents),
                InputView::Failed(reason) => scan_failed(reason),
                _ => self.stay(),
            },
            PhaseView::OpeningEvents => match input {
                InputView::Done => self.go(PhaseView::Discovering { elapsed_ms: 0 }),
                InputView::Failed(reason) => scan_failed(reason),
                _ => self.stay(),
            },
            _ => self.stay(),
        }
    }

    /// What a manager that is printing does on the outcome of what the job
    /// asked for.
    pub open spec fn on_job_outcome(self, job: JobView, write: nat, outcome: OutcomeView) -> (
        ManagerView,
        Seq<EventView>,
    ) {
        let next = job.next(outcome);
        (
            ManagerView {
                phase: if next.phase is Finished {
                    PhaseView::Ready
                } else {
                    PhaseView::Printing { job: next, write }
                },
                ..self
            },
            job.emits(outcome),
        )
    }

    /// What a manager that disconnects, renders or prints does.
    pub open spec fn on_session_work(self, input: InputView) -> (ManagerView, Seq<EventView>) {
        match self.phase {
            PhaseView::Disconnecting => match input {
                InputView::Done => (
                    ManagerView { phase: PhaseView::Ready, session: None },
                    seq![EventView::Log("Disconnected"@), EventView::Disconnected],
                ),
                InputView::Failed(reason) => (
                    ManagerView { phase: PhaseView::Ready, session: None },
                    seq![
                        EventView::Log("Disconnect error: "@ + reason),
                        EventView::Disconnected,
                    ],
                ),
                _ => self.stay(),
            },
            PhaseView::Rendering { text, font_path, font_size } => match input {
                InputView::Rendered(img) => self.begin_print(img),
                InputView::Failed(reason) => (
                    ManagerView { phase: PhaseView::Ready, ..self },
                    seq![EventView::Error("Text render error: "@ + reason)],
                ),
                _ => self.stay(),
            },
            PhaseView::Printing { job, write } => match input {
                InputView::Done => self.on_job_outcome(job, write, OutcomeView::Done),
                InputView::Failed(reason) => self.on_job_outcome(
                    job,
                    write,
                    OutcomeView::Failed(reason),
                ),
                _ => self.stay(),
            },
            _ => self.stay(),
        }
    }

    /// The manager after `input`, and what is published on it.
    pub open spec fn step(self, input: InputView) -> (ManagerView, Seq<EventView>) {
        match self.phase {
            PhaseView::Ready => match input {
                InputView::Command(command) => self.on_command(command),
                _ => self.stay(),
            },
            PhaseView::CreatingManager
            | PhaseView::Settling
            | PhaseView::ListingAdapters
            | PhaseView::StartingScan
            | PhaseView::OpeningEvents => self.on_scan_setup(input),
            PhaseView::Discovering { elapsed_ms } => self.on_discovery(input),
            PhaseView::StoppingScan { found } => if input is Done || input is Failed {
                self.after_scan(found)
            } else {
                self.stay()
            },
            PhaseView::QueryingAddress
            | PhaseView::Connecting
            | PhaseView::DiscoveringServices
            | PhaseView::Subscribing { .. }
            | PhaseView::RequestingStatus { .. }
            | PhaseView::StartingListener => self.on_connecting(input),
            PhaseView::Disconnecting
            | PhaseView::Rendering { .. }
            | PhaseView::Printing { .. } => self.on_session_work(input),
        }
    }
}

/// Where a [`SessionManager`] stands.
#[derive(Debug)]
enum Phase {
    Ready,
    CreatingManager,
    Settling,
    ListingAdapters,
    StartingScan,
    OpeningEvents,
    Discovering { elapsed_ms: u64 },
    StoppingScan { found: bool },
    QueryingAddress,
    Connecting,
    DiscoveringServices,
    Subscribing { write: usize, notify: usize },
    RequestingStatus { write: usize },
    StartingListener,
    Disconnecting,
    Rendering { text: String, font_path: String, font_size: u32 },
    Printing { job: PrintJob, write: usize },
}

impl View for Phase {
    type V = PhaseView;

    closed spec fn view(&self) -> PhaseView {
        match self {
            Phase::Ready => PhaseView::Ready,
            Phase::CreatingManager => PhaseView::CreatingManager,
            Phase::Settling => PhaseView::Settling,
            Phase::ListingAdapters => PhaseView::ListingAdapters,
            Phase::StartingScan => PhaseView::StartingScan,
            Phase::OpeningEvents => PhaseView::OpeningEvents,
            Phase::Discovering { elapsed_ms } => PhaseView::Discovering {
                elapsed_ms: *elapsed_ms as nat,
            },
            Phase::StoppingScan { found } => PhaseView::StoppingScan { found: *found },
            Phase::QueryingAddress => PhaseView::QueryingAddress,
            Phase::Connecting => PhaseView::Connecting,
            Phase::DiscoveringServices => PhaseView::DiscoveringServices,
            Phase::Subscribing { write, notify } => PhaseView::Subscribing {
                write: *write as nat,
                notify: *notify as nat,
            },
            Phase::RequestingStatus { write } => PhaseView::RequestingStatus {
                write: *write as nat,
            },
            Phase::StartingListener => PhaseView::StartingListener,
            Phase::Disconnecting => PhaseView::Disconnecting,
            Phase::Rendering { text, font_path, font_size } => PhaseView::Rendering {
                text: text@,
                font_path: font_path@,
                font_size: *font_size as nat,
            },
            Phase::Printing { job, write } => PhaseView::Printing {
                job: job@,
                write: *write as nat,
            },
        }
    }
}

/// The manager of the device session.
#[derive(Debug)]
pub struct SessionManager {
    phase: Phase,
    session: Option<Session>,
}

impl View for SessionManager {
    type V = ManagerView;

    closed spec fn view(&self) -> ManagerView {
        ManagerView { phase: self.phase@, session: self.session }
    }
}

/// What a step of the manager yields: the events to publish, in order, and
/// then the effect to carry out.
#[derive(Debug)]
pub struct Step {
    pub events: Vec<AppEvent>,
    pub effect: Effect,
}

/// A manager taken apart, and the events of the step that led to it.
struct Turn {
    phase: Phase,
    session: Option<Session>,
    events: Vec<AppEvent>,
}

impl Turn {
    spec fn view(&self) -> (ManagerView, Seq<EventView>) {
        (ManagerView { phase: self.phase@, session: self.session }, event_views(self.events@))
    }
}

fn no_events() -> (events: Vec<AppEvent>)
    ensures
        event_views(events@) == Seq::<EventView>::empty(),
{
    let events: Vec<AppEvent> = Vec::new();
    assert(event_views(events@) =~= Seq::<EventView>::empty());
    events
}

fn one_event(first: AppEvent) -> (events: Vec<AppEvent>)
    ensures
        event_views(events@) == seq![first@],
{
    let mut events = no_events();
    emit(&mut events, first);
    assert(event_views(events@) =~= seq![first@]);
    events
}

fn two_events(first: AppEvent, second: AppEvent) -> (events: Vec<AppEvent>)
    ensures
        event_views(events@) == seq![first@, second@],
{
    let mut events = no_events();
    emit(&mut events, first);
    emit(&mut events, second);
    assert(event_views(events@) =~= seq![first@, second@]);
    events
}

fn log(text: &str) -> (event: AppEvent)
    ensures
        event@ == EventView::Log(text@),
{
    AppEvent::Log(text.to_owned())
}

/// The turn that leaves the manager as it is.
fn stay(phase: Phase, session: Option<Session>) -> (turn: Turn)
    ensures
        turn@ == (ManagerView { phase: phase@, session }).stay(),
        turn.phase == phase,
        turn.session == session,
{
    Turn { phase, session, events: no_events() }
}

/// The turn that changes the phase and publishes nothing.
fn go(phase: Phase, session: Option<Session>) -> (turn: Turn)
    ensures
        turn@ == (ManagerView { phase: phase@, session }, Seq::<EventView>::empty()),
        turn.phase == phase,
        turn.session == session,
{
    Turn { phase, session, events: no_events() }
}

/// The turn of a failed attempt to connect.
fn fail_scan(reason: &str) -> (turn: Turn)
    ensures
        turn@ == scan_failed(reason@),
{
    Turn {
        phase: Phase::Ready,
        session: None,
        events: two_events(log_event("Scan error: ", reason), AppEvent::Disconnected),
    }
}

fn begin_print(session: Option<Session>, img: &Bitmap) -> (turn: Turn)
    ensures
        turn@ == (ManagerView { phase: PhaseView::Ready, session }).begin_print(img@),
        turn@.0.wf(),
{
    match session {
        Some(live) => {
            let job = print_image(img);
            go(Phase::Printing { job, write: live.write_characteristic }, session)
        },
        None => go(Phase::Ready, session),
    }
}

fn on_command(session: Option<Session>, command: BleCommand) -> (turn: Turn)
    ensures
        turn@ == (ManagerView { phase: PhaseView::Ready, session }).on_command(command@),
        turn@.0.wf(),
{
    match command {
        BleCommand::ScanAndConnect => Turn {
            phase: Phase::CreatingManager,
            session: None,
            events: two_events(
                AppEvent::ScanStarted,
                log("Scanning for compatible printers (10s)..."),
            ),
        },
        BleCommand::Disconnect => match session {
            Some(_) => Turn {
                phase: Phase::Disconnecting,
                session,
                events: one_event(log("Disconnecting...")),
            },
            None => Turn {
                phase: Phase::Ready,
                session,
                events: one_event(AppEvent::Disconnected),
            },
        },
        BleCommand::PrintImage(img) => match session {
            Some(_) => begin_print(session, &img),
            None => Turn {
                phase: Phase::Ready,
                session,
                events: one_event(log("Print aborted: not connected")),
            },
        },
        BleCommand::PrintText { text, font_path, font_size } => match session {
            Some(_) => go(Phase::Rendering { text, font_path, font_size }, session),
            None => Turn {
                phase: Phase::Ready,
                session,
                events: one_event(log("Print aborted: not connected")),
            },
        },
    }
}

fn scan_on(elapsed_ms: u64) -> (turn: Turn)
    ensures
        turn@ == ManagerView::idle().scan_on(elapsed_ms as nat),
        turn@.0.wf(),
{
    if elapsed_ms >= SCAN_DEADLINE_MS {
        go(Phase::StoppingScan { found: false }, None)
    } else {
        go(Phase::Discovering { elapsed_ms }, None)
    }
}

fn on_discovery(elapsed: u64, input: Input) -> (turn: Turn)
    requires
        elapsed < SCAN_DEADLINE_MS,
    ensures
        turn@ == (ManagerView {
            phase: PhaseView::Discovering { elapsed_ms: elapsed as nat },
            session: None,
        }).on_discovery(input@),
        turn@.0.wf(),
{
    match input {
        Input::Discovered { name, elapsed_ms } => match name {
            Some(name) => if is_printer_name(name.as_str()) {
                Turn {
                    phase: Phase::StoppingScan { found: true },
                    session: None,
                    events: one_event(log_event("Found: ", name.as_str())),
                }
            } else {
                scan_on(elapsed_ms)
            },
            None => scan_on(elapsed_ms),
        },
        Input::OtherEvent { elapsed_ms } => scan_on(elapsed_ms),
        Input::StreamEnded => go(Phase::StoppingScan { found: false }, None),
        Input::TimedOut => go(Phase::StoppingScan { found: false }, None),
        Input::Failed(reason) => fail_scan(reason.as_str()),
        _ => stay(Phase::Discovering { elapsed_ms: elapsed }, None),
    }
}

fn after_scan(found: bool) -> (turn: Turn)
    ensures
        turn@ == ManagerView::idle().after_scan(found),
        turn@.0.wf(),
{
    if found {
        go(Phase::QueryingAddress, None)
    } else {
        Turn {
            phase: Phase::Ready,
            session: None,
            events: two_events(log("No compatible printer found nearby"), AppEvent::Disconnected),
        }
    }
}

fn on_characteristics(uuids: &Vec<String>) -> (turn: Turn)
    ensures
        turn@ == ManagerView::idle().on_characteristics(texts(uuids@)),
        turn@.0.wf(),
{
    match find_characteristic(uuids, WRITE_CHAR_UUID) {
        Some(write) => match find_characteristic(uuids, NOTIFY_CHAR_UUID) {
            Some(notify) => go(Phase::Subscribing { write, notify }, None),
            None => fail_scan("Notify characteristic not found"),
        },
        None => fail_scan("Write characteristic not found"),
    }
}

fn connecting_to(address: &str) -> (turn: Turn)
    ensures
        turn@ == (
            ManagerView { phase: PhaseView::Connecting, session: None },
            seq![EventView::Log("Connecting to "@ + address@ + "..."@)],
        ),
{
    Turn {
        phase: Phase::Connecting,
        session: None,
        events: one_event(AppEvent::Log(concat3("Connecting to ", address, "..."))),
    }
}

fn on_connecting(phase: Phase, input: Input) -> (turn: Turn)
    requires
        (ManagerView { phase: phase@, session: None }).wf(),
        phase is QueryingAddress || phase is Connecting || phase is DiscoveringServices
            || phase is Subscribing || phase is RequestingStatus,
    ensures
        turn@ == (ManagerView { phase: phase@, session: None }).on_connecting(input@),
        turn@.0.wf(),
{
    match phase {
        Phase::QueryingAddress => match input {
            Input::Address(Some(address)) => connecting_to(address.as_str()),
            Input::Address(None) => connecting_to("unknown"),
            Input::Failed(_) => connecting_to("unknown"),
            _ => stay(phase, None),
        },
        Phase::Connecting => match input {
            Input::Done => go(Phase::DiscoveringServices, None),
            Input::Failed(reason) => fail_scan(reason.as_str()),
            _ => stay(phase, None),
        },
        Phase::DiscoveringServices => match input {
            Input::Characteristics(uuids) => on_characteristics(&uuids),
            Input::Failed(reason) => fail_scan(reason.as_str()),
            _ => stay(phase, None),
        },
        Phase::Subscribing { write, notify } => match input {
            Input::Done => go(Phase::RequestingStatus { write }, None),
            Input::Failed(reason) => fail_scan(reason.as_str()),
            _ => stay(phase, None),
        },
        Phase::RequestingStatus { write } => match input {
            Input::Done | Input::Failed(_) => Turn {
                phase: Phase::StartingListener,
                session: Some(Session { write_characteristic: write }),
                events: two_events(log("Connected (chunk size: 182 bytes)"), AppEvent::Connected),
            },
            _ => stay(phase, None),
        },
        _ => stay(phase, None),
    }
}

fn on_scan_setup(phase: Phase, input: Input) -> (turn: Turn)
    requires
        phase is CreatingManager || phase is Settling || phase is ListingAdapters
            || phase is StartingScan || phase is OpeningEvents,
    ensures
        turn@ == (ManagerView { phase: phase@, session: None }).on_scan_setup(input@),
        turn@.0.wf(),
{
    match phase {
        Phase::CreatingManager => match input {
            Input::Done => go(Phase::Settling, None),
            Input::Failed(reason) => fail_scan(reason.as_str()),
            _ => stay(phase, None),
        },
        Phase::Settling => match input {
            Input::Done => go(Phase::ListingAdapters, None),
            _ => stay(phase, None),
        },
        Phase::ListingAdapters => match input {
            Input::Adapters(count) => if count == 0 {
                fail_scan("No Bluetooth adapter found")
            } else {
                go(Phase::StartingScan, None)
            },
            Input::Failed(reason) => fail_scan(reason.as_str()),
            _ => stay(phase, None),
        },
        Phase::StartingScan => match input {
            Input::Done => go(Phase::OpeningEvents, None),
            Input::Failed(reason) => fail_scan(reason.as_str()),
            _ => stay(phase, None),
        },
        Phase::OpeningEvents => match input {
            Input::Done => go(Phase::Discovering { elapsed_ms: 0 }, None),
            Input::Failed(reason) => fail_scan(reason.as_str()),
            _ => stay(phase, None),
        },
        _ => stay(phase, None),
    }
}

fn on_job_outcome(job: PrintJob, write: usize, session: Option<Session>, outcome: Outcome) -> (turn:
    Turn)
    requires
        job@.wf(),
        !(job@.phase is Finished),
        session == Some(Session { write_characteristic: write }),
    ensures
        turn@ == (ManagerView {
            phase: PhaseView::Printing { job: job@, write: write as nat },
            session,
        }).on_job_outcome(job@, write as nat, outcome@),
        turn@.0.wf(),
{
    let mut job = job;
    let events = job.advance(&outcome);
    let phase = if job.is_finished() {
        Phase::Ready
    } else {
        Phase::Printing { job, write }
    };
    Turn { phase, session, events }
}

fn on_session_work(phase: Phase, session: Option<Session>, input: Input) -> (turn: Turn)
    requires
        (ManagerView { phase: phase@, session }).wf(),
        phase is Disconnecting || phase is Rendering || phase is Printing,
    ensures
        turn@ == (ManagerView { phase: phase@, session }).on_session_work(input@),
        turn@.0.wf(),
{
    match phase {
        Phase::Disconnecting => match input {
            Input::Done => Turn {
                phase: Phase::Ready,
                session: None,
                events: two_events(log("Disconnected"), AppEvent::Disconnected),
            },
            Input::Failed(reason) => Turn {
                phase: Phase::Ready,
                session: None,
                events: two_events(
                    log_event("Disconnect error: ", reason.as_str()),
                    AppEvent::Disconnected,
                ),
            },
            _ => stay(phase, session),
        },
        Phase::Rendering { text, font_path, font_size } => match input {
            Input::Rendered(img) => begin_print(session, &img),
            Input::Failed(reason) => Turn {
                phase: Phase::Ready,
                session,
                events: one_event(error_event("Text render error: ", reason.as_str())),
            },
            _ => stay(Phase::Rendering { text, font_path, font_size }, session),
        },
        Phase::Printing { job, write } => match input {
            Input::Done => on_job_outcome(job, write, session, Outcome::Done),
            Input::Failed(reason) => on_job_outcome(job, write, session, Outcome::Failed(reason)),
            _ => stay(Phase::Printing { job, write }, session),
        },
        _ => stay(phase, session),
    }
}

fn transition(phase: Phase, session: Option<Session>, input: Input) -> (turn: Turn)
    requires
        (ManagerView { phase: phase@, session }).wf(),
    ensures
        turn@ == (ManagerView { phase: phase@, session }).step(input@),
        turn@.0.wf(),
{
    match phase {
        Phase::Ready => match input {
            Input::Command(command) => on_command(session, command),
            _ => stay(phase, session),
        },
        Phase::CreatingManager
        | Phase::Settling
        | Phase::ListingAdapters
        | Phase::StartingScan
        | Phase::OpeningEvents => on_scan_setup(phase, input),
        Phase::Discovering { elapsed_ms } => on_discovery(elapsed_ms, input),
        Phase::StoppingScan { found } => match input {
            Input::Done | Input::Failed(_) => after_scan(found),
            _ => stay(phase, session),
        },
        Phase::QueryingAddress
        | Phase::Connecting
        | Phase::DiscoveringServices
        | Phase::Subscribing { .. }
        | Phase::RequestingStatus { .. } => on_connecting(phase, input),
        Phase::StartingListener => match input {
            Input::Done => go(Phase::Ready, session),
            _ => stay(phase, session),
        },
        Phase::Disconnecting
        | Phase::Rendering { .. }
        | Phase::Printing { .. } => on_session_work(phase, session, input),
    }
}

fn status_request_bytes() -> (bytes: Vec<u8>)
    ensures
        bytes@ == status_request(),
{
    let mut bytes: Vec<u8> = Vec::new();
    bytes.push(0x1E);
    bytes.push(0x47);
    bytes.push(0x03);
    assert(bytes@ =~= status_request());
    bytes
}

impl SessionManager {
    #[verifier::type_invariant]
    closed spec fn well_formed(&self) -> bool {
        self@.wf()
    }

    /// A manager at rest, without a session.
    pub fn new() -> (manager: SessionManager)
        ensures
            manager@ == ManagerView::idle(),
    {
        SessionManager { phase: Phase::Ready, session: None }
    }

    /// The state of the session.
    pub fn state(&self) -> (state: SessionState)
        ensures
            state == self@.state(),
            self@.wf(),
    {
        proof {
            use_type_invariant(self);
        }
        match self.session {
            Some(_) => SessionState::Connected,
            None => match self.phase {
                Phase::Ready => SessionState::Idle,
                _ => SessionState::Scanning,
            },
        }
    }

    /// The session, if there is one.
    pub fn session(&self) -> (session: Option<Session>)
        ensures
            session == self@.session,
    {
        self.session
    }

    /// The effect that the manager waits on.
    pub fn effect(&self) -> (effect: Effect)
        ensures
            effect@ == self@.effect(),
            self@.wf(),
    {
        proof {
            use_type_invariant(self);
        }
        match &self.phase {
            Phase::Ready => Effect::AwaitCommand,
            Phase::CreatingManager => Effect::CreateManager,
            Phase::Settling => Effect::Sleep(ADAPTER_SETTLE_MS),
            Phase::ListingAdapters => Effect::ListAdapters,
            Phase::StartingScan => Effect::StartScan,
            Phase::OpeningEvents => Effect::OpenEvents,
            Phase::Discovering { elapsed_ms } => Effect::NextEvent {
                timeout_ms: SCAN_DEADLINE_MS - *elapsed_ms,
            },
            Phase::StoppingScan { found } => Effect::StopScan,
            Phase::QueryingAddress => Effect::QueryAddress,
            Phase::Connecting => Effect::Connect,
            Phase::DiscoveringServices => Effect::DiscoverServices,
            Phase::Subscribing { write, notify } => Effect::Subscribe { characteristic: *notify },
            Phase::RequestingStatus { write } => Effect::Write {
                characteristic: *write,
                data: status_request_bytes(),
            },
            Phase::StartingListener => Effect::SpawnListener,
            Phase::Disconnecting => Effect::Disconnect,
            Phase::Rendering { text, font_path, font_size } => Effect::Render {
                text: text.clone(),
                font_path: font_path.clone(),
                font_size: *font_size,
            },
            Phase::Printing { job, write } => match job.request() {
                Request::Write(data) => Effect::Write { characteristic: *write, data },
                Request::Sleep(ms) => Effect::Sleep(ms),
                Request::Nothing => Effect::AwaitCommand,
            },
        }
    }

    /// Takes the outcome of the pending effect, or the next command, moves
    /// the manager on and returns what to publish and what to do next.
    pub fn step(&mut self, input: Input) -> (out: Step)
        ensures
            (final(self)@, event_views(out.events@)) == old(self)@.step(input@),
            out.effect@ == final(self)@.effect(),
            old(self)@.wf(),
            final(self)@.wf(),
    {
        proof {
            use_type_invariant(&*self);
        }
        let mut phase = Phase::Ready;
        core::mem::swap(&mut self.phase, &mut phase);
        let turn = transition(phase, self.session, input);
        self.session = turn.session;
        self.phase = turn.phase;
        let effect = self.effect();
        Step { events: turn.events, effect }
    }
}

/// Whether the numbers that `input` holds can be held by the machine: a
/// list of characteristics has a length that can. The value of every
/// [`Input`] is of this kind.
pub open spec fn representable(input: InputView) -> bool {
    match input {
        InputView::Characteristics(uuids) => uuids.len() <= usize::MAX,
        _ => true,
    }
}

/// Everything that the manager publishes from where it stands, as one input
/// after the other comes in, and the manager at the end.
pub open spec fn run(manager: ManagerView, inputs: Seq<InputView>) -> (
    ManagerView,
    Seq<EventView>,
)
    decreases inputs.len(),
{
    if inputs.len() == 0 {
        (manager, seq![])
    } else {
        let (next, first) = manager.step(inputs[0]);
        let (last, rest) = run(next, inputs.drop_first());
        (last, first + rest)
    }
}

/// Whether `event` tells of the end of a print: its completion or an error.
pub open spec fn ends_print(event: EventView) -> bool {
    event is PrintComplete || event is Error
}

/// Whether some event before position `k` tells of the end of a print.
pub open spec fn print_ended_before(events: Seq<EventView>, k: int) -> bool {
    exists|j: int| 0 <= j < k && j < events.len() && ends_print(#[trigger] events[j])
}

/// What holds of every manager holds after every step.
pub proof fn lemma_step_keeps_wf(manager: ManagerView, input: InputView)
    requires
        manager.wf(),
        representable(input),
    ensures
        manager.step(input).0.wf(),
{
    match manager.phase {
        PhaseView::DiscoveringServices => {
            match input {
                InputView::Characteristics(uuids) => {
                    crate::discovery::lemma_position_in_range(uuids, WRITE_CHAR_UUID@);
                    crate::discovery::lemma_position_in_range(uuids, NOTIFY_CHAR_UUID@);
                },
                _ => {},
            }
        },
        PhaseView::Printing { job, write } => {
            match input {
                InputView::Done => {
                    crate::printer::lemma_job_stays_wf(job, OutcomeView::Done);
                },
                InputView::Failed(reason) => {
                    crate::printer::lemma_job_stays_wf(job, OutcomeView::Failed(reason));
                },
                _ => {},
            }
        },
        _ => {},
    }
}

/// Commands are taken one at a time: a command that comes in while the
/// manager is busy changes nothing and publishes nothing, and a manager at
/// rest asks for nothing but the next command.
pub proof fn lemma_commands_wait(manager: ManagerView, command: CommandView)
    requires
        manager.wf(),
    ensures
        !(manager.phase is Ready) ==> manager.step(InputView::Command(command)) == manager.stay(),
        manager.phase is Ready <==> manager.effect() is AwaitCommand,
{
}

/// Disconnecting without a session publishes `Disconnected`, and that
/// alone, leaves the manager as it is and asks nothing of the device.
pub proof fn lemma_disconnect_without_session(manager: ManagerView)
    requires
        manager.phase is Ready,
        manager.session is None,
    ensures
        manager.step(InputView::Command(CommandView::Disconnect)) == (
            manager,
            seq![EventView::Disconnected],
        ),
        manager.effect() is AwaitCommand,
{
}

/// With a session, disconnecting asks the device to disconnect, and whatever
/// comes of that, the session is gone and `Disconnected` is published last.
pub proof fn lemma_disconnect_with_session(manager: ManagerView, outcome: InputView)
    requires
        manager.phase is Ready,
        manager.session is Some,
        outcome is Done || outcome is Failed,
    ensures
        ({
            let asked = manager.step(InputView::Command(CommandView::Disconnect)).0;
            let (after, events) = asked.step(outcome);
            &&& asked.effect() is Disconnect
            &&& after == ManagerView::idle()
            &&& events.len() == 2
            &&& events[1] is Disconnected
        }),
{
}

/// While a print is in progress the manager asks only for writes to the
/// session's characteristic and for pauses.
pub proof fn lemma_printing_only_writes_and_sleeps(manager: ManagerView)
    requires
        manager.wf(),
        manager.phase is Printing,
    ensures
        manager.session is Some,
        match manager.effect() {
            EffectView::Write { characteristic, data } => characteristic
                == manager.session->0.write_characteristic,
            EffectView::Sleep(_) => true,
            _ => false,
        },
{
}

/// A scan waits for an event no longer than what is left of its time, and
/// stops once a report comes in after the time is up.
pub proof fn lemma_scan_is_bounded(manager: ManagerView, input: InputView)
    requires
        manager.wf(),
        manager.phase is Discovering,
    ensures
        manager.effect() matches EffectView::NextEvent { timeout_ms } && 0 < timeout_ms
            <= SCAN_DEADLINE_MS,
        (input matches InputView::OtherEvent { elapsed_ms } && elapsed_ms >= SCAN_DEADLINE_MS)
            ==> manager.step(input).0.phase == (PhaseView::StoppingScan { found: false }),
        (input matches InputView::Discovered { name, elapsed_ms } && elapsed_ms
            >= SCAN_DEADLINE_MS) ==> manager.step(input).0.phase is StoppingScan,
        input is TimedOut || input is StreamEnded ==> manager.step(input).0.phase == (
            PhaseView::StoppingScan { found: false }
        ),
{
}

/// A failed attempt to connect is told by a log line and `Disconnected`,
/// never by an error event, and leaves the manager idle.
pub proof fn lemma_failed_scan_is_no_error(manager: ManagerView, input: InputView)
    requires
        manager.wf(),
        is_scan_phase(manager.phase),
    ensures
        forall|k: int|
            0 <= k < manager.step(input).1.len() ==> !((#[trigger] manager.step(input).1[k])
                is Error),
        manager.step(input).0.phase is Ready ==> {
            &&& manager.step(input).0 == ManagerView::idle()
            &&& manager.step(input).1.len() == 2
            &&& manager.step(input).1[0] is Log
            &&& manager.step(input).1[1] is Disconnected
        },
{
}

proof fn lemma_busy_print_ends_first(manager: ManagerView, inputs: Seq<InputView>)
    requires
        manager.wf(),
        manager.phase is Printing || manager.phase is Rendering,
        forall|i: int| 0 <= i < inputs.len() ==> representable(#[trigger] inputs[i]),
    ensures
        forall|k: int|
            0 <= k < run(manager, inputs).1.len() && (#[trigger] run(manager, inputs).1[k])
                is Disconnected ==> print_ended_before(run(manager, inputs).1, k),
    decreases inputs.len(),
{
    let all = run(manager, inputs).1;
    if inputs.len() > 0 {
        let (next, first) = manager.step(inputs[0]);
        let tail = inputs.drop_first();
        let rest = run(next, tail).1;
        assert(all == first + rest);
        lemma_step_keeps_wf(manager, inputs[0]);
        assert forall|i: int| 0 <= i < tail.len() implies representable(#[trigger] tail[i]) by {
            assert(tail[i] == inputs[i + 1]);
        }
        // The step itself publishes no `Disconnected`.
        assert forall|k: int| 0 <= k < first.len() implies !((#[trigger] first[k])
            is Disconnected) by {}
        if next.phase is Printing || next.phase is Rendering {
            lemma_busy_print_ends_first(next, tail);
            assert forall|k: int| 0 <= k < all.len() && (#[trigger] all[k]) is Disconnected implies
                print_ended_before(all, k) by {
                if k < first.len() {
                    assert(all[k] == first[k]);
                } else {
                    assert(all[k] == rest[k - first.len()]);
                    assert(print_ended_before(rest, k - first.len()));
                    let j = choose|j: int|
                        0 <= j < k - first.len() && j < rest.len() && ends_print(
                            #[trigger] rest[j],
                        );
                    assert(all[j + first.len()] == rest[j]);
                }
            }
        } else {
            // The print ended with this step, which tells so.
            assert(first.len() > 0 && ends_print(first.last())) by {
                match manager.phase {
                    PhaseView::Printing { job, write } => {
                        match inputs[0] {
                            InputView::Done => {
                                crate::printer::lemma_job_end_is_published(job, OutcomeView::Done);
                            },
                            InputView::Failed(reason) => {
                                crate::printer::lemma_job_end_is_published(
                                    job,
                                    OutcomeView::Failed(reason),
                                );
                            },
                            _ => {},
                        }
                    },
                    _ => {},
                }
            }
            assert forall|k: int| 0 <= k < all.len() && (#[trigger] all[k]) is Disconnected implies
                print_ended_before(all, k) by {
                if k < first.len() {
                    assert(all[k] == first[k]);
                } else {
                    assert(all[first.len() - 1] == first.last());
                }
            }
        }
    }
}

/// After a print command is taken, with a session, nothing is published of
/// a disconnect, nor of any command that follows, before the print has told
/// of its end by `PrintComplete` or an error; and as long as the print has
/// not ended the manager takes no command.
pub proof fn lemma_print_ends_before_disconnect(
    manager: ManagerView,
    print: CommandView,
    inputs: Seq<InputView>,
    k: int,
)
    requires
        manager.wf(),
        manager.phase is Ready,
        manager.session is Some,
        print is PrintImage || print is PrintText,
        representable(InputView::Command(print)),
        forall|i: int| 0 <= i < inputs.len() ==> representable(#[trigger] inputs[i]),
        0 <= k < run(manager, seq![InputView::Command(print)] + inputs).1.len(),
        run(manager, seq![InputView::Command(print)] + inputs).1[k] is Disconnected,
    ensures
        print_ended_before(run(manager, seq![InputView::Command(print)] + inputs).1, k),
{
    let all_inputs = seq![InputView::Command(print)] + inputs;
    let (next, first) = manager.step(all_inputs[0]);
    assert(all_inputs.drop_first() =~= inputs);
    assert(first.len() == 0);
    lemma_step_keeps_wf(manager, all_inputs[0]);
    lemma_busy_print_ends_first(next, inputs);
    assert(run(manager, all_inputs).1 =~= run(next, inputs).1);
}

/// Whether some event tells of the end of a print.
pub open spec fn print_ended(events: Seq<EventView>) -> bool {
    exists|j: int| 0 <= j < events.len() && ends_print(#[trigger] events[j])
}

proof fn lemma_busy_until_print_ends(manager: ManagerView, inputs: Seq<InputView>)
    requires
        manager.wf(),
        manager.phase is Printing || manager.phase is Rendering,
        forall|i: int| 0 <= i < inputs.len() ==> representable(#[trigger] inputs[i]),
    ensures
        print_ended(run(manager, inputs).1) || run(manager, inputs).0.phase is Printing || run(
            manager,
            inputs,
        ).0.phase is Rendering,
    decreases inputs.len(),
{
    let all = run(manager, inputs).1;
    if inputs.len() > 0 {
        let (next, first) = manager.step(inputs[0]);
        let tail = inputs.drop_first();
        let rest = run(next, tail).1;
        assert(all == first + rest);
        lemma_step_keeps_wf(manager, inputs[0]);
        assert forall|i: int| 0 <= i < tail.len() implies representable(#[trigger] tail[i]) by {
            assert(tail[i] == inputs[i + 1]);
        }
        if next.phase is Printing || next.phase is Rendering {
            lemma_busy_until_print_ends(next, tail);
            if print_ended(rest) {
                let j = choose|j: int| 0 <= j < rest.len() && ends_print(#[trigger] rest[j]);
                assert(all[j + first.len()] == rest[j]);
            }
        } else {
            assert(first.len() > 0 && ends_print(first.last())) by {
                match manager.phase {
                    PhaseView::Printing { job, write } => {
                        match inputs[0] {
                            InputView::Done => {
                                crate::printer::lemma_job_end_is_published(job, OutcomeView::Done);
                            },
                            InputView::Failed(reason) => {
                                crate::printer::lemma_job_end_is_published(
                                    job,
                                    OutcomeView::Failed(reason),
                                );
                            },
                            _ => {},
                        }
                    },
                    _ => {},
                }
            }
            assert(all[first.len() - 1] == first.last());
        }
    }
}

/// After a print command is taken, with a session, the device is not asked
/// to disconnect, nor is the next command asked for, before the print has
/// told of its end by `PrintComplete` or an error.
pub proof fn lemma_print_ends_before_next_command(
    manager: ManagerView,
    print: CommandView,
    inputs: Seq<InputView>,
)
    requires
        manager.wf(),
        manager.phase is Ready,
        manager.session is Some,
        print is PrintImage || print is PrintText,
        representable(InputView::Command(print)),
        forall|i: int| 0 <= i < inputs.len() ==> representable(#[trigger] inputs[i]),
    ensures
        ({
            let (after, events) = run(manager, seq![InputView::Command(print)] + inputs);
            after.effect() is Disconnect || after.effect() is AwaitCommand ==> print_ended(events)
        }),
{
    let all_inputs = seq![InputView::Command(print)] + inputs;
    let (next, first) = manager.step(all_inputs[0]);
    assert(all_inputs.drop_first() =~= inputs);
    assert(first.len() == 0);
    lemma_step_keeps_wf(manager, all_inputs[0]);
    lemma_busy_until_print_ends(next, inputs);
    lemma_run_keeps_wf(next, inputs);
    assert(run(manager, all_inputs).1 =~= run(next, inputs).1);
}

/// What holds of every manager holds after every run.
pub proof fn lemma_run_keeps_wf(manager: ManagerView, inputs: Seq<InputView>)
    requires
        manager.wf(),
        forall|i: int| 0 <= i < inputs.len() ==> representable(#[trigger] inputs[i]),
    ensures
        run(manager, inputs).0.wf(),
    decreases inputs.len(),
{
    if inputs.len() > 0 {
        let tail = inputs.drop_first();
        lemma_step_keeps_wf(manager, inputs[0]);
        assert forall|i: int| 0 <= i < tail.len() implies representable(#[trigger] tail[i]) by {
            assert(tail[i] == inputs[i + 1]);
        }
        lemma_run_keeps_wf(manager.step(inputs[0]).0, tail);
    }
}

} // verus!
