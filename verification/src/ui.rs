//! What a front end shows of the core: the state that follows from the
//! events published, and the rules by which controls are enabled.

use vstd::prelude::*;
use crate::text::{chars_of, concat, concat3, is_space, is_space_char, trim, trim_end, trim_start};
use crate::types::{AppEvent, EventView};

verus! {

/// Number of log entries above which the oldest are dropped.
pub const LOG_LIMIT: usize = 200;

/// Number of log entries dropped when the log has grown beyond its limit.
pub const LOG_DROP: usize = 50;

/// The state that a front end shows.
#[derive(Debug)]
pub struct UiState {
    pub connected: bool,
    pub scanning: bool,
    pub battery: Option<u8>,
    pub printing: bool,
    /// Bytes sent and bytes in all, of the print in progress.
    pub progress: Option<(usize, usize)>,
    pub last_error: Option<String>,
    /// The activity log, oldest entry first.
    pub log: Vec<String>,
}

/// Mathematical value of a [`UiState`].
pub struct UiView {
    pub connected: bool,
    pub scanning: bool,
    pub battery: Option<u8>,
    pub printing: bool,
    pub progress: Option<(nat, nat)>,
    pub last_error: Option<Seq<char>>,
    pub log: Seq<Seq<char>>,
}

impl View for UiState {
    type V = UiView;

    open spec fn view(&self) -> UiView {
        UiView {
            connected: self.connected,
            scanning: self.scanning,
            battery: self.battery,
            printing: self.printing,
            progress: match self.progress {
                Some((sent, total)) => Some((sent as nat, total as nat)),
                None => None,
            },
            last_error: match self.last_error {
                Some(text) => Some(text@),
                None => None,
            },
            log: self.log@.map_values(|line: String| line@),
        }
    }
}

/// A log entry: the time of day in brackets, and the text.
pub open spec fn stamped(stamp: Seq<char>, text: Seq<char>) -> Seq<char> {
    "["@ + stamp + "] "@ + text
}

/// The log without its oldest entries, if it has grown beyond its limit.
pub open spec fn capped(log: Seq<Seq<char>>) -> Seq<Seq<char>> {
    if log.len() > LOG_LIMIT {
        log.skip(LOG_DROP as int)
    } else {
        log
    }
}

/// How the battery level is colored: green above a half, orange above a
/// fifth, red below.
pub open spec fn level_color(percent: u8) -> Seq<char> {
    if percent > 50 {
        "#00aa00"@
    } else if percent > 20 {
        "#cc7700"@
    } else {
        "#cc0000"@
    }
}

impl UiView {
    /// The state before anything was published.
    pub open spec fn initial() -> UiView {
        UiView {
            connected: false,
            scanning: false,
            battery: None,
            printing: false,
            progress: None,
            last_error: None,
            log: seq![],
        }
    }

    /// The state after `event`, published at the time of day `stamp`.
    pub open spec fn apply(self, event: EventView, stamp: Seq<char>) -> UiView {
        match event {
            EventView::Log(text) => UiView {
                log: capped(self.log.push(stamped(stamp, text))),
                ..self
            },
            EventView::Connected => UiView {
                connected: true,
                scanning: false,
                log: self.log.push(stamped(stamp, "Connected"@)),
                ..self
            },
            EventView::Disconnected => UiView {
                connected: false,
                scanning: false,
                battery: None,
                printing: false,
                progress: None,
                ..self
            },
            EventView::BatteryLevel(percent) => UiView { battery: Some(percent), ..self },
            EventView::ScanStarted => UiView { scanning: true, ..self },
            EventView::PrintProgress { sent, total } => UiView {
                progress: Some((sent, total)),
                printing: true,
                ..self
            },
            EventView::PrintComplete => UiView {
                printing: false,
                progress: None,
                log: self.log.push(stamped(stamp, "Print complete"@)),
                ..self
            },
            EventView::Error(text) => UiView {
                last_error: Some(text),
                printing: false,
                scanning: false,
                log: self.log.push(stamped(stamp, "Error: "@ + text)),
                ..self
            },
        }
    }

    /// The state once the user has asked for a scan.
    pub open spec fn scan_requested(self) -> UiView {
        UiView { scanning: true, last_error: None, ..self }
    }

    /// The state once the user has asked for a print.
    pub open spec fn print_requested(self) -> UiView {
        UiView { printing: true, last_error: None, ..self }
    }

    /// The line that tells the state of the connection.
    pub open spec fn status_text(self) -> Seq<char> {
        if self.scanning {
            "\u{27f3} Scanning..."@
        } else if self.connected {
            "\u{25cf} Connected"@
        } else {
            "\u{25cf} Disconnected"@
        }
    }

    /// The color of that line.
    pub open spec fn status_color(self) -> Seq<char> {
        if self.scanning {
            "#0066cc"@
        } else if self.connected {
            "#00aa00"@
        } else {
            "#cc0000"@
        }
    }

    /// Whether `text` can be sent to print: there is a connection, no print
    /// is in progress, and the text is not blank.
    pub open spec fn can_print_text(self, text: Seq<char>) -> bool {
        self.connected && !self.printing && trim(text).len() > 0
    }

    /// Whether an image can be sent to print: there is a connection, no
    /// print is in progress, and an image is loaded.
    pub open spec fn can_print_image(self, loaded: bool) -> bool {
        self.connected && !self.printing && loaded
    }
}

/// A text is blank exactly if it holds nothing but whitespace.
proof fn lemma_trim_start_blank(s: Seq<char>)
    ensures
        trim_start(s).len() <= s.len(),
        (forall|k: int| 0 <= k < s.len() ==> is_space(#[trigger] s[k])) ==> trim_start(s).len()
            == 0,
        trim_start(s).len() > 0 ==> !is_space(trim_start(s)[0]),
    decreases s.len(),
{
    if s.len() > 0 && is_space(s[0]) {
        let rest = s.drop_first();
        lemma_trim_start_blank(rest);
        if forall|k: int| 0 <= k < s.len() ==> is_space(#[trigger] s[k]) {
            assert forall|k: int| 0 <= k < rest.len() implies is_space(#[trigger] rest[k]) by {
                assert(rest[k] == s[k + 1]);
            }
        }
    }
}

proof fn lemma_trim_start_keeps(s: Seq<char>, at: int)
    requires
        0 <= at < s.len(),
        !is_space(s[at]),
    ensures
        trim_start(s).len() > 0,
    decreases s.len(),
{
    if is_space(s[0]) {
        let rest = s.drop_first();
        assert(rest[at - 1] == s[at]);
        lemma_trim_start_keeps(rest, at - 1);
    }
}

proof fn lemma_trim_end_keeps(s: Seq<char>)
    requires
        s.len() > 0,
        !is_space(s[0]),
    ensures
        trim_end(s).len() > 0,
    decreases s.len(),
{
    if is_space(s.last()) {
        let rest = s.drop_last();
        assert(rest.len() > 0);
        lemma_trim_end_keeps(rest);
    }
}

/// Whether `text` holds nothing but whitespace.
pub fn is_blank(text: &str) -> (blank: bool)
    ensures
        blank == (trim(text@).len() == 0),
{
    let chars = chars_of(text);
    let n = chars.len();
    let mut k: usize = 0;
    while k < n
        invariant
            k <= n,
            n == chars.len(),
            chars@ == text@,
            forall|j: int| 0 <= j < k ==> is_space(#[trigger] chars@[j]),
        decreases n - k,
    {
        if !is_space_char(chars[k]) {
            proof {
                lemma_trim_start_keeps(text@, k as int);
                lemma_trim_start_blank(text@);
                lemma_trim_end_keeps(trim_start(text@));
            }
            return false;
        }
        k += 1;
    }
    proof {
        lemma_trim_start_blank(text@);
    }
    true
}

/// The color in which a battery level is shown.
pub fn battery_color(percent: u8) -> (color: &'static str)
    ensures
        color@ == level_color(percent),
{
    if percent > 50 {
        "#00aa00"
    } else if percent > 20 {
        "#cc7700"
    } else {
        "#cc0000"
    }
}

fn push_line(log: &mut Vec<String>, line: String)
    ensures
        final(log)@.map_values(|l: String| l@) == old(log)@.map_values(|l: String| l@).push(
            line@,
        ),
{
    log.push(line);
    assert(log@.map_values(|l: String| l@) =~= old(log)@.map_values(|l: String| l@).push(line@));
}

fn cap(log: &mut Vec<String>)
    ensures
        final(log)@.map_values(|l: String| l@) == capped(old(log)@.map_values(|l: String| l@)),
{
    if log.len() > LOG_LIMIT {
        let kept = log.split_off(LOG_DROP);
        *log = kept;
        assert(log@.map_values(|l: String| l@) =~= old(log)@.map_values(|l: String| l@).skip(
            LOG_DROP as int,
        ));
    }
}

impl UiState {
    /// The state before anything was published.
    pub fn new() -> (state: UiState)
        ensures
            state@ == UiView::initial(),
    {
        let state = UiState {
            connected: false,
            scanning: false,
            battery: None,
            printing: false,
            progress: None,
            last_error: None,
            log: Vec::new(),
        };
        assert(state@.log =~= Seq::<Seq<char>>::empty());
        state
    }

    /// Takes in `event`, published at the time of day `stamp`.
    pub fn apply(&mut self, event: &AppEvent, stamp: &str)
        ensures
            final(self)@ == old(self)@.apply(event@, stamp@),
    {
        match event {
            AppEvent::Log(text) => {
                let entry = concat3("[", stamp, "] ");
                push_line(&mut self.log, concat(entry.as_str(), text.as_str()));
                cap(&mut self.log);
            },
            AppEvent::Connected => {
                self.connected = true;
                self.scanning = false;
                let entry = concat3("[", stamp, "] ");
                push_line(&mut self.log, concat(entry.as_str(), "Connected"));
            },
            AppEvent::Disconnected => {
                self.connected = false;
                self.scanning = false;
                self.battery = None;
                self.printing = false;
                self.progress = None;
            },
            AppEvent::BatteryLevel(percent) => {
                self.battery = Some(*percent);
            },
            AppEvent::ScanStarted => {
                self.scanning = true;
            },
            AppEvent::PrintProgress { sent, total } => {
                self.progress = Some((*sent, *total));
                self.printing = true;
            },
            AppEvent::PrintComplete => {
                self.printing = false;
                self.progress = None;
                let entry = concat3("[", stamp, "] ");
                push_line(&mut self.log, concat(entry.as_str(), "Print complete"));
            },
            AppEvent::Error(text) => {
                self.last_error = Some(text.clone());
                self.printing = false;
                self.scanning = false;
                let entry = concat3("[", stamp, "] ");
                push_line(&mut self.log, concat3(entry.as_str(), "Error: ", text.as_str()));
                assert(("["@ + stamp@ + "] "@) + "Error: "@ + text@ =~= stamped(
                    stamp@,
                    "Error: "@ + text@,
                ));
            },
        }
    }

    /// Notes that the user has asked for a scan.
    pub fn scan_requested(&mut self)
        ensures
            final(self)@ == old(self)@.scan_requested(),
    {
        self.scanning = true;
        self.last_error = None;
    }

    /// Notes that the user has asked for a print.
    pub fn print_requested(&mut self)
        ensures
            final(self)@ == old(self)@.print_requested(),
    {
        self.printing = true;
        self.last_error = None;
    }

    /// The line that tells the state of the connection.
    pub fn status_text(&self) -> (text: &'static str)
        ensures
            text@ == self@.status_text(),
    {
        if self.scanning {
            "\u{27f3} Scanning..."
        } else if self.connected {
            "\u{25cf} Connected"
        } else {
            "\u{25cf} Disconnected"
        }
    }

    /// The color of that line.
    pub fn status_color(&self) -> (color: &'static str)
        ensures
            color@ == self@.status_color(),
    {
        if self.scanning {
            "#0066cc"
        } else if self.connected {
            "#00aa00"
        } else {
            "#cc0000"
        }
    }

    /// Whether `text` can be sent to print.
    pub fn can_print_text(&self, text: &str) -> (allowed: bool)
        ensures
            allowed == self@.can_print_text(text@),
    {
        self.connected && !self.printing && !is_blank(text)
    }

    /// Whether an image can be sent to print.
    pub fn can_print_image(&self, loaded: bool) -> (allowed: bool)
        ensures
            allowed == self@.can_print_image(loaded),
    {
        self.connected && !self.printing && loaded
    }
}

/// The log never holds more than its limit after a log line came in, if it
/// did not before.
pub proof fn lemma_log_stays_capped(state: UiView, text: Seq<char>, stamp: Seq<char>)
    requires
        state.log.len() <= LOG_LIMIT,
    ensures
        state.apply(EventView::Log(text), stamp).log.len() <= LOG_LIMIT,
        state.apply(EventView::Log(text), stamp).log.last() == stamped(stamp, text),
{
}

} // verus!
