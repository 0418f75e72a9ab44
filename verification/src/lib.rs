//! The engine of a personal mail reader.
//!
//! The reader shows the inbox of a mailbox as a list of the most recent
//! messages, opens a message as text, and lets its user answer, write and
//! delete messages.  This crate holds what the reader decides and computes:
//!
//! - `headers`: the fields of a raw header block, and the bare address of a
//!   sender;
//! - `content`: the one text that is shown for a message of many parts;
//! - `inbox`: which messages the inbox shows, and in which order;
//! - `session`: what is asked of the mailbox, and what is read out of its
//!   answers;
//! - `display`: the lines and texts that are shown;
//! - `ui`: the screens of the reader and what each key does on them;
//! - `text`: the operations on characters that the others share.
//!
//! Connections, the terminal and the environment are not held here.  A
//! program around this crate makes the round trips and hands their plain
//! results in.

pub mod config;
pub mod content;
pub mod display;
pub mod error;
pub mod headers;
pub mod inbox;
pub mod session;
pub mod text;
pub mod ui;

pub use config::Config;
pub use content::{find_html, find_plain, resolve_body, MimePart};
pub use display::MailDetail;
pub use error::MailError;
pub use inbox::{MailSummary, ReceivedAt};
pub use ui::{Action, App, ComposeField, Key, Mode};
