//! Constants of the printer protocol and the events that the core reports.

use vstd::prelude::*;
use crate::bitmap::{Bitmap, BitmapView};

verus! {

/// GATT characteristic that takes the printer's commands.
pub const WRITE_CHAR_UUID: &'static str = "49535343-8841-43f4-a8d4-ecbe34729bb3";

/// GATT characteristic on which the printer notifies its status.
pub const NOTIFY_CHAR_UUID: &'static str = "49535343-1e4d-4bd9-ba61-23c647249616";

/// Width of the print head, in dots.
pub const PRINTER_WIDTH: u32 = 384;

/// Number of bytes sent in one acknowledged write.
pub const CHUNK_SIZE: usize = 182;

/// Battery voltage, in millivolts, that counts as empty.
pub const BATT_MIN_MV: u32 = 3300;

/// Battery voltage, in millivolts, that counts as full.
pub const BATT_MAX_MV: u32 = 4200;

/// A monospace font that can be offered for text printing.
#[derive(Debug, Clone, Copy)]
pub struct FontChoice {
    /// Label shown in a selector.
    pub label: &'static str,
    /// Path of the font file.
    pub path: &'static str,
    /// Font family name under which a front end registers the file.
    pub css_family: &'static str,
}

/// What a caller asks of the core.
#[derive(Debug)]
pub enum BleCommand {
    /// Look for a printer and connect to the first one found.
    ScanAndConnect,
    /// Give up the connection, if there is one.
    Disconnect,
    /// Print a bitmap.
    PrintImage(Bitmap),
    /// Print a text, set in the font of the file at `font_path` at
    /// `font_size` pixels.
    PrintText { text: String, font_path: String, font_size: u32 },
}

/// Mathematical value of a [`BleCommand`].
pub enum CommandView {
    ScanAndConnect,
    Disconnect,
    PrintImage(BitmapView),
    PrintText { text: Seq<char>, font_path: Seq<char>, font_size: nat },
}

impl View for BleCommand {
    type V = CommandView;

    open spec fn view(&self) -> CommandView {
        match self {
            BleCommand::ScanAndConnect => CommandView::ScanAndConnect,
            BleCommand::Disconnect => CommandView::Disconnect,
            BleCommand::PrintImage(img) => CommandView::PrintImage(img@),
            BleCommand::PrintText { text, font_path, font_size } => CommandView::PrintText {
                text: text@,
                font_path: font_path@,
                font_size: *font_size as nat,
            },
        }
    }
}

/// What the core reports to its observers.
#[derive(Debug, PartialEq, Eq)]
pub enum AppEvent {
    Log(String),
    Connected,
    Disconnected,
    BatteryLevel(u8),
    PrintProgress { sent: usize, total: usize },
    Error(String),
    ScanStarted,
    PrintComplete,
}

/// Mathematical value of an [`AppEvent`].
pub enum EventView {
    Log(Seq<char>),
    Connected,
    Disconnected,
    BatteryLevel(u8),
    PrintProgress { sent: nat, total: nat },
    Error(Seq<char>),
    ScanStarted,
    PrintComplete,
}

impl View for AppEvent {
    type V = EventView;

    open spec fn view(&self) -> EventView {
        match self {
            AppEvent::Log(text) => EventView::Log(text@),
            AppEvent::Connected => EventView::Connected,
            AppEvent::Disconnected => EventView::Disconnected,
            AppEvent::BatteryLevel(percent) => EventView::BatteryLevel(*percent),
            AppEvent::PrintProgress { sent, total } => EventView::PrintProgress {
                sent: *sent as nat,
                total: *total as nat,
            },
            AppEvent::Error(text) => EventView::Error(text@),
            AppEvent::ScanStarted => EventView::ScanStarted,
            AppEvent::PrintComplete => EventView::PrintComplete,
        }
    }
}

impl Clone for AppEvent {
    fn clone(&self) -> (copy: AppEvent)
        ensures
            copy@ == self@,
    {
        match self {
            AppEvent::Log(text) => AppEvent::Log(text.clone()),
            AppEvent::Connected => AppEvent::Connected,
            AppEvent::Disconnected => AppEvent::Disconnected,
            AppEvent::BatteryLevel(percent) => AppEvent::BatteryLevel(*percent),
            AppEvent::PrintProgress { sent, total } => AppEvent::PrintProgress {
                sent: *sent,
                total: *total,
            },
            AppEvent::Error(text) => AppEvent::Error(text.clone()),
            AppEvent::ScanStarted => AppEvent::ScanStarted,
            AppEvent::PrintComplete => AppEvent::PrintComplete,
        }
    }
}

/// The values of a list of events, in order.
pub open spec fn event_views(events: Seq<AppEvent>) -> Seq<EventView> {
    events.map_values(|e: AppEvent| e@)
}

/// Appends `event` to `events`.
pub(crate) fn emit(events: &mut Vec<AppEvent>, event: AppEvent)
    ensures
        event_views(final(events)@) == event_views(old(events)@).push(event@),
{
    events.push(event);
    assert(event_views(events@) =~= event_views(old(events)@).push(event@));
}

/// A log event whose text is `head` followed by `tail`.
pub(crate) fn log_event(head: &str, tail: &str) -> (event: AppEvent)
    ensures
        event@ == EventView::Log(head@ + tail@),
{
    AppEvent::Log(crate::text::concat(head, tail))
}

/// An error event whose text is `head` followed by `tail`.
pub(crate) fn error_event(head: &str, tail: &str) -> (event: AppEvent)
    ensures
        event@ == EventView::Error(head@ + tail@),
{
    AppEvent::Error(crate::text::concat(head, tail))
}

} // verus!
