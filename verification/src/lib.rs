//! Control core for a BLE thermal photo printer: the raster codec, the status
//! decoder, the chunked transfer sequence and the device-session state machine.
//!
//! The library performs no I/O. The session and the print job are explicit
//! state machines: a driver performs the effect that the machine asks for and
//! hands the outcome back.
//!
//! - [`bitmap`]: grids of RGB samples, and what the `image` crate does to them.
//! - [`escpos`]: from a bitmap to the printer's raster command.
//! - [`status`]: from a status notification to a log line and a battery level.
//! - [`discovery`]: which device is a printer, and which characteristics it
//!   is spoken to through.
//! - [`printer`]: the sequence of writes and pauses of one print.
//! - [`ble`]: the session, from scan to disconnect, one command at a time.
//! - [`ui`]: what a front end shows of all this.
//! - [`types`], [`text`]: the constants, commands and events, and helpers for
//!   text.

pub mod bitmap;
pub mod ble;
pub mod discovery;
pub mod escpos;
pub mod printer;
pub mod status;
pub mod text;
pub mod types;
pub mod ui;
