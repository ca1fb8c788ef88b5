//! Fastmail command-line client: the verified core.
//!
//! The library holds everything the client computes: the vCard and
//! iCalendar codecs, the WebDAV multistatus readers, recurrence expansion,
//! the decisions taken after each server answer, command input handling and
//! the confirmation gate of the assistant interface. Network, files and the
//! command line live in the application crate under `app/`.
use vstd::prelude::*;

pub mod error;
pub mod text;
pub mod folding;
pub mod carddav;
pub mod caldav;
pub mod commands;
pub mod models;
pub mod mcp;
pub mod xml;

verus! {
}
