use ctp500::bitmap::Bitmap;
use ctp500::ble::{Effect, Input, Session, SessionManager, SessionState, Step};
use ctp500::types::{AppEvent, BleCommand, NOTIFY_CHAR_UUID, WRITE_CHAR_UUID};

fn log(text: &str) -> AppEvent {
    AppEvent::Log(text.to_string())
}

fn characteristics() -> Vec<String> {
    vec![
        "49535343-aca3-481c-91ec-d85e28a60318".to_string(),
        NOTIFY_CHAR_UUID.to_string(),
        WRITE_CHAR_UUID.to_string(),
    ]
}

/// Feeds the inputs one after the other; returns all that was published
/// and the effect asked for at the end.
fn feed(manager: &mut SessionManager, inputs: Vec<Input>) -> (Vec<AppEvent>, Effect) {
    let mut events = Vec::new();
    let mut effect = manager.effect();
    for input in inputs {
        let Step { events: published, effect: next } = manager.step(input);
        events.extend(published);
        effect = next;
    }
    (events, effect)
}

fn connected() -> SessionManager {
    let mut manager = SessionManager::new();
    feed(
        &mut manager,
        vec![
            Input::Command(BleCommand::ScanAndConnect),
            Input::Done,
            Input::Done,
            Input::Adapters(1),
            Input::Done,
            Input::Done,
            Input::Discovered { name: Some("S Blue Printer".to_string()), elapsed_ms: 100 },
            Input::Done,
            Input::Address(Some("AA:BB".to_string())),
            Input::Done,
            Input::Characteristics(characteristics()),
            Input::Done,
            Input::Done,
            Input::Done,
        ],
    );
    assert_eq!(manager.state(), SessionState::Connected);
    assert_eq!(manager.effect(), Effect::AwaitCommand);
    manager
}

#[test]
fn a_new_manager_is_idle_and_awaits_a_command() {
    let manager = SessionManager::new();
    assert_eq!(manager.state(), SessionState::Idle);
    assert_eq!(manager.session(), None);
    assert_eq!(manager.effect(), Effect::AwaitCommand);
}

#[test]
fn scan_and_connect_step_by_step() {
    let mut manager = SessionManager::new();

    let step = manager.step(Input::Command(BleCommand::ScanAndConnect));
    assert_eq!(
        step.events,
        vec![AppEvent::ScanStarted, log("Scanning for compatible printers (10s)...")]
    );
    assert_eq!(step.effect, Effect::CreateManager);
    assert_eq!(manager.state(), SessionState::Scanning);

    let step = manager.step(Input::Done);
    assert_eq!((step.events, step.effect), (vec![], Effect::Sleep(200)));
    let step = manager.step(Input::Done);
    assert_eq!((step.events, step.effect), (vec![], Effect::ListAdapters));
    let step = manager.step(Input::Adapters(2));
    assert_eq!((step.events, step.effect), (vec![], Effect::StartScan));
    let step = manager.step(Input::Done);
    assert_eq!((step.events, step.effect), (vec![], Effect::OpenEvents));
    let step = manager.step(Input::Done);
    assert_eq!((step.events, step.effect), (vec![], Effect::NextEvent { timeout_ms: 10000 }));

    let step = manager.step(Input::Discovered { name: None, elapsed_ms: 1200 });
    assert_eq!((step.events, step.effect), (vec![], Effect::NextEvent { timeout_ms: 8800 }));
    let step =
        manager.step(Input::Discovered { name: Some("Random Device".to_string()), elapsed_ms: 2500 });
    assert_eq!((step.events, step.effect), (vec![], Effect::NextEvent { timeout_ms: 7500 }));
    let step = manager.step(Input::OtherEvent { elapsed_ms: 9999 });
    assert_eq!((step.events, step.effect), (vec![], Effect::NextEvent { timeout_ms: 1 }));

    let step = manager
        .step(Input::Discovered { name: Some("s   pink   printer".to_string()), elapsed_ms: 9999 });
    assert_eq!((step.events, step.effect), (vec![log("Found: s   pink   printer")], Effect::StopScan));
    let step = manager.step(Input::Failed("not scanning".to_string()));
    assert_eq!((step.events, step.effect), (vec![], Effect::QueryAddress));
    let step = manager.step(Input::Address(Some("AA:BB:CC:DD:EE:FF".to_string())));
    assert_eq!(
        (step.events, step.effect),
        (vec![log("Connecting to AA:BB:CC:DD:EE:FF...")], Effect::Connect)
    );
    let step = manager.step(Input::Done);
    assert_eq!((step.events, step.effect), (vec![], Effect::DiscoverServices));
    let step = manager.step(Input::Characteristics(characteristics()));
    assert_eq!((step.events, step.effect), (vec![], Effect::Subscribe { characteristic: 1 }));
    assert_eq!(manager.state(), SessionState::Scanning);

    let step = manager.step(Input::Done);
    assert_eq!(
        (step.events, step.effect),
        (vec![], Effect::Write { characteristic: 2, data: vec![0x1e, 0x47, 0x03] })
    );
    let step = manager.step(Input::Failed("write refused".to_string()));
    assert_eq!(
        (step.events, step.effect),
        (vec![log("Connected (chunk size: 182 bytes)"), AppEvent::Connected], Effect::SpawnListener)
    );
    assert_eq!(manager.state(), SessionState::Connected);
    let step = manager.step(Input::Done);
    assert_eq!((step.events, step.effect), (vec![], Effect::AwaitCommand));
    assert_eq!(manager.session(), Some(Session { write_characteristic: 2 }));
}

#[test]
fn an_address_that_cannot_be_had_is_logged_as_unknown() {
    for answer in [Input::Address(None), Input::Failed("gone".to_string())] {
        let mut manager = SessionManager::new();
        feed(
            &mut manager,
            vec![
                Input::Command(BleCommand::ScanAndConnect),
                Input::Done,
                Input::Done,
                Input::Adapters(1),
                Input::Done,
                Input::Done,
                Input::Discovered { name: Some("S Black Printer".to_string()), elapsed_ms: 0 },
                Input::Done,
            ],
        );
        let step = manager.step(answer);
        assert_eq!((step.events, step.effect), (vec![log("Connecting to unknown...")], Effect::Connect));
    }
}

fn scanning() -> SessionManager {
    let mut manager = SessionManager::new();
    let (_, effect) = feed(
        &mut manager,
        vec![
            Input::Command(BleCommand::ScanAndConnect),
            Input::Done,
            Input::Done,
            Input::Adapters(1),
            Input::Done,
            Input::Done,
        ],
    );
    assert_eq!(effect, Effect::NextEvent { timeout_ms: 10000 });
    manager
}

fn assert_gave_up(manager: &SessionManager, events: Vec<AppEvent>, effect: Effect, line: &str) {
    assert_eq!(events, vec![log(line), AppEvent::Disconnected]);
    assert_eq!(effect, Effect::AwaitCommand);
    assert_eq!(manager.state(), SessionState::Idle);
    assert_eq!(manager.session(), None);
}

#[test]
fn without_an_adapter_the_scan_fails() {
    let mut manager = SessionManager::new();
    let (events, effect) = feed(
        &mut manager,
        vec![Input::Command(BleCommand::ScanAndConnect), Input::Done, Input::Done, Input::Adapters(0)],
    );
    assert_eq!(events[0..2], [AppEvent::ScanStarted, log("Scanning for compatible printers (10s)...")]);
    assert_gave_up(&manager, events[2..].to_vec(), effect, "Scan error: No Bluetooth adapter found");
}

#[test]
fn a_failure_while_setting_up_the_scan_is_logged() {
    for good in 0..5 {
        let mut manager = SessionManager::new();
        let mut inputs = vec![Input::Command(BleCommand::ScanAndConnect)];
        let answers =
            [Input::Done, Input::Done, Input::Adapters(3), Input::Done, Input::Done];
        for (i, answer) in answers.into_iter().enumerate() {
            if i == good && i != 1 {
                inputs.push(Input::Failed("no permission".to_string()));
                break;
            }
            inputs.push(answer);
        }
        if good == 1 {
            continue;
        }
        let (events, effect) = feed(&mut manager, inputs);
        assert_gave_up(&manager, events[2..].to_vec(), effect, "Scan error: no permission");
    }
}

#[test]
fn the_scan_gives_up_when_its_time_is_up() {
    for last in [
        Input::TimedOut,
        Input::StreamEnded,
        Input::OtherEvent { elapsed_ms: 10000 },
        Input::Discovered { name: None, elapsed_ms: 10001 },
        Input::Discovered { name: Some("Random Device".to_string()), elapsed_ms: u64::MAX },
    ] {
        let mut manager = scanning();
        let step = manager.step(last);
        assert_eq!((step.events, step.effect), (vec![], Effect::StopScan));
        let step = manager.step(Input::Done);
        assert_gave_up(&manager, step.events, step.effect, "No compatible printer found nearby");
    }
}

#[test]
fn a_printer_found_after_the_time_is_up_is_still_taken() {
    let mut manager = scanning();
    let step =
        manager.step(Input::Discovered { name: Some("S White Printer".to_string()), elapsed_ms: 10500 });
    assert_eq!((step.events, step.effect), (vec![log("Found: S White Printer")], Effect::StopScan));
}

#[test]
fn a_failure_while_discovering_ends_the_attempt() {
    let mut manager = scanning();
    let step = manager.step(Input::Failed("device vanished".to_string()));
    assert_gave_up(&manager, step.events, step.effect, "Scan error: device vanished");
}

fn found() -> SessionManager {
    let mut manager = scanning();
    feed(
        &mut manager,
        vec![
            Input::Discovered { name: Some("S Blue Printer".to_string()), elapsed_ms: 5 },
            Input::Done,
            Input::Address(None),
        ],
    );
    assert_eq!(manager.effect(), Effect::Connect);
    manager
}

#[test]
fn a_failure_while_connecting_ends_the_attempt() {
    let mut manager = found();
    let step = manager.step(Input::Failed("refused".to_string()));
    assert_gave_up(&manager, step.events, step.effect, "Scan error: refused");

    let mut manager = found();
    manager.step(Input::Done);
    let step = manager.step(Input::Failed("no services".to_string()));
    assert_gave_up(&manager, step.events, step.effect, "Scan error: no services");

    let mut manager = found();
    manager.step(Input::Done);
    manager.step(Input::Characteristics(characteristics()));
    let step = manager.step(Input::Failed("not permitted".to_string()));
    assert_gave_up(&manager, step.events, step.effect, "Scan error: not permitted");
}

#[test]
fn a_missing_characteristic_ends_the_attempt() {
    let mut manager = found();
    manager.step(Input::Done);
    let step = manager.step(Input::Characteristics(vec![NOTIFY_CHAR_UUID.to_string()]));
    assert_gave_up(&manager, step.events, step.effect, "Scan error: Write characteristic not found");

    let mut manager = found();
    manager.step(Input::Done);
    let step = manager.step(Input::Characteristics(vec![WRITE_CHAR_UUID.to_string()]));
    assert_gave_up(&manager, step.events, step.effect, "Scan error: Notify characteristic not found");

    let mut manager = found();
    manager.step(Input::Done);
    let step = manager.step(Input::Characteristics(vec![]));
    assert_gave_up(&manager, step.events, step.effect, "Scan error: Write characteristic not found");
}

#[test]
fn disconnect_without_a_session_only_tells_so() {
    let mut manager = SessionManager::new();
    for _ in 0..3 {
        let step = manager.step(Input::Command(BleCommand::Disconnect));
        assert_eq!((step.events, step.effect), (vec![AppEvent::Disconnected], Effect::AwaitCommand));
        assert_eq!(manager.state(), SessionState::Idle);
    }
}

#[test]
fn disconnect_with_a_session_asks_the_device_and_clears_the_session() {
    let mut manager = connected();
    let step = manager.step(Input::Command(BleCommand::Disconnect));
    assert_eq!((step.events, step.effect), (vec![log("Disconnecting...")], Effect::Disconnect));
    assert_eq!(manager.state(), SessionState::Connected);
    let step = manager.step(Input::Done);
    assert_eq!(
        (step.events, step.effect),
        (vec![log("Disconnected"), AppEvent::Disconnected], Effect::AwaitCommand)
    );
    assert_eq!(manager.state(), SessionState::Idle);

    let mut manager = connected();
    manager.step(Input::Command(BleCommand::Disconnect));
    let step = manager.step(Input::Failed("not connected".to_string()));
    assert_eq!(
        (step.events, step.effect),
        (
            vec![log("Disconnect error: not connected"), AppEvent::Disconnected],
            Effect::AwaitCommand
        )
    );
    assert_eq!(manager.session(), None);
}

fn image() -> Bitmap {
    Bitmap::from_pixel(384, 2, (0, 0, 0)).unwrap()
}

#[test]
fn printing_without_a_session_is_only_logged() {
    let mut manager = SessionManager::new();
    let step = manager.step(Input::Command(BleCommand::PrintImage(image())));
    assert_eq!(
        (step.events, step.effect),
        (vec![log("Print aborted: not connected")], Effect::AwaitCommand)
    );
    let step = manager.step(Input::Command(BleCommand::PrintText {
        text: "hello".to_string(),
        font_path: "font.ttf".to_string(),
        font_size: 28,
    }));
    assert_eq!(
        (step.events, step.effect),
        (vec![log("Print aborted: not connected")], Effect::AwaitCommand)
    );
    assert_eq!(manager.state(), SessionState::Idle);
}

#[test]
fn printing_an_image_runs_the_job_on_the_write_characteristic() {
    let mut manager = connected();
    let step = manager.step(Input::Command(BleCommand::PrintImage(image())));
    assert_eq!(step.events, vec![]);
    let mut effect = step.effect;
    let mut effects = Vec::new();
    let mut events = Vec::new();
    while effect != Effect::AwaitCommand {
        effects.push(effect);
        let step = manager.step(Input::Done);
        events.extend(step.events);
        effect = step.effect;
    }
    let mut raster = vec![0x1d, 0x76, 0x30, 0x00, 48, 0, 2, 0];
    raster.extend(vec![0xffu8; 96]);
    assert_eq!(
        effects,
        vec![
            Effect::Write { characteristic: 2, data: vec![0x1b, 0x40] },
            Effect::Sleep(500),
            Effect::Write { characteristic: 2, data: vec![0x1d, 0x49, 0xf0, 0x19] },
            Effect::Sleep(500),
            Effect::Write { characteristic: 2, data: raster },
            Effect::Sleep(500),
            Effect::Write { characteristic: 2, data: vec![0x0a, 0x0a, 0x0a, 0x9a] },
            Effect::Sleep(1000),
        ]
    );
    assert_eq!(
        events,
        vec![
            log("Sent: initialize printer (ESC @)"),
            log("Sent: start print sequence"),
            log("Sent: image data (104 bytes, 384x2px)"),
            log("Sent: end print sequence"),
            log("Print complete"),
            AppEvent::PrintComplete,
        ]
    );
    assert_eq!(manager.state(), SessionState::Connected);
}

#[test]
fn a_failed_write_ends_the_print_and_keeps_the_session() {
    let mut manager = connected();
    manager.step(Input::Command(BleCommand::PrintImage(image())));
    manager.step(Input::Done);
    manager.step(Input::Done);
    let step = manager.step(Input::Failed("link lost".to_string()));
    assert_eq!(
        (step.events, step.effect),
        (vec![AppEvent::Error("Print error: link lost".to_string())], Effect::AwaitCommand)
    );
    assert_eq!(manager.state(), SessionState::Connected);
}

#[test]
fn a_text_is_rendered_and_then_printed() {
    let mut manager = connected();
    let step = manager.step(Input::Command(BleCommand::PrintText {
        text: "hello".to_string(),
        font_path: "/fonts/mono.ttf".to_string(),
        font_size: 28,
    }));
    assert_eq!(step.events, vec![]);
    assert_eq!(
        step.effect,
        Effect::Render {
            text: "hello".to_string(),
            font_path: "/fonts/mono.ttf".to_string(),
            font_size: 28
        }
    );
    let step = manager.step(Input::Rendered(image()));
    assert_eq!(
        (step.events, step.effect),
        (vec![], Effect::Write { characteristic: 2, data: vec![0x1b, 0x40] })
    );
}

#[test]
fn a_text_that_cannot_be_rendered_is_an_error() {
    let mut manager = connected();
    manager.step(Input::Command(BleCommand::PrintText {
        text: "hello".to_string(),
        font_path: "/nowhere".to_string(),
        font_size: 28,
    }));
    let step = manager.step(Input::Failed("Failed to read font".to_string()));
    assert_eq!(
        (step.events, step.effect),
        (
            vec![AppEvent::Error("Text render error: Failed to read font".to_string())],
            Effect::AwaitCommand
        )
    );
    assert_eq!(manager.state(), SessionState::Connected);
}

#[test]
fn a_disconnect_handed_in_during_a_print_waits_for_its_end() {
    let mut manager = connected();
    let mut events = Vec::new();
    let step = manager.step(Input::Command(BleCommand::PrintImage(image())));
    let mut effect = step.effect;
    while effect != Effect::AwaitCommand {
        let early = manager.step(Input::Command(BleCommand::Disconnect));
        assert_eq!(early.events, vec![]);
        assert_eq!(early.effect, effect);
        let step = manager.step(Input::Done);
        events.extend(step.events);
        effect = step.effect;
    }
    let step = manager.step(Input::Command(BleCommand::Disconnect));
    events.extend(step.events);
    events.extend(manager.step(Input::Done).events);
    let complete = events.iter().position(|e| *e == AppEvent::PrintComplete).unwrap();
    let disconnected = events.iter().position(|e| *e == AppEvent::Disconnected).unwrap();
    assert!(complete < disconnected);
    assert_eq!(events.iter().filter(|e| **e == AppEvent::Disconnected).count(), 1);
}

#[test]
fn an_input_that_answers_nothing_is_ignored() {
    let mut manager = SessionManager::new();
    for input in [
        Input::Done,
        Input::Failed("x".to_string()),
        Input::Adapters(1),
        Input::TimedOut,
        Input::StreamEnded,
        Input::Rendered(image()),
        Input::Characteristics(characteristics()),
        Input::Address(None),
    ] {
        let step = manager.step(input);
        assert_eq!((step.events, step.effect), (vec![], Effect::AwaitCommand));
    }
    let mut manager = scanning();
    for input in
        [Input::Done, Input::Adapters(1), Input::Command(BleCommand::Disconnect), Input::Address(None)]
    {
        let step = manager.step(input);
        assert_eq!((step.events, step.effect), (vec![], Effect::NextEvent { timeout_ms: 10000 }));
    }
}

#[test]
fn scanning_again_gives_up_the_session() {
    let mut manager = connected();
    let step = manager.step(Input::Command(BleCommand::ScanAndConnect));
    assert_eq!(step.effect, Effect::CreateManager);
    assert_eq!(manager.session(), None);
    assert_eq!(manager.state(), SessionState::Scanning);
    let step = manager.step(Input::Failed("busy".to_string()));
    assert_gave_up(&manager, step.events, step.effect, "Scan error: busy");
}
