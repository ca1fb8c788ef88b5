//! Errors reported by the library and its clients.
use vstd::prelude::*;
use crate::text::{extend_chars, extend_str, string_of};

verus! {

/// Every failure the Fastmail clients report.
#[derive(Debug)]
pub enum Error {
    /// Bad local configuration or user input.
    Config(String),
    /// The server answered with something unusable.
    Server(String),
    /// No credentials are configured.
    NotAuthenticated,
    /// The API token was rejected.
    InvalidToken(String),
    /// The server asked the client to slow down.
    RateLimited,
    CalendarNotFound(String),
    EventNotFound(String),
    ContactNotFound(String),
    GroupNotFound(String),
    EmailNotFound(String),
    /// A calendar write was refused because its ETag is stale.
    CalendarConflict { id: String, sent_etag: String, server_etag: Option<String> },
    /// An event write was refused because its ETag is stale.
    EventConflict { id: String, sent_etag: String, server_etag: Option<String> },
    /// A contact write was refused because its ETag is stale.
    ContactConflict { id: String, sent_etag: String, server_etag: Option<String> },
    /// A group write was refused because its ETag is stale.
    GroupConflict { id: String, sent_etag: String, server_etag: Option<String> },
}

/// `text` followed by the characters of `detail`.
pub open spec fn labelled(label: Seq<char>, detail: Seq<char>) -> Seq<char> {
    label + detail
}

/// The human-readable text of an error.
pub open spec fn error_message(e: Error) -> Seq<char> {
    match e {
        Error::Config(m) => labelled("Config error: "@, m@),
        Error::Server(m) => labelled("Server error: "@, m@),
        Error::NotAuthenticated => "Not authenticated: no API token configured"@,
        Error::InvalidToken(m) => labelled("Invalid API token: "@, m@),
        Error::RateLimited => "Rate limited by server"@,
        Error::CalendarNotFound(id) => labelled("Calendar not found: "@, id@),
        Error::EventNotFound(id) => labelled("Event not found: "@, id@),
        Error::ContactNotFound(id) => labelled("Contact not found: "@, id@),
        Error::GroupNotFound(id) => labelled("Group not found: "@, id@),
        Error::EmailNotFound(id) => labelled("Email not found: "@, id@),
        Error::CalendarConflict { id, .. } => labelled("Calendar was modified on the server: "@, id@),
        Error::EventConflict { id, .. } => labelled("Event was modified on the server: "@, id@),
        Error::ContactConflict { id, .. } => labelled("Contact was modified on the server: "@, id@),
        Error::GroupConflict { id, .. } => labelled("Group was modified on the server: "@, id@),
    }
}

fn label_with(label: &str, detail: &String) -> (r: String)
    ensures
        r@ == labelled(label@, detail@),
{
    let mut v: Vec<char> = Vec::new();
    extend_str(&mut v, label);
    let d = crate::text::chars_of(detail.as_str());
    extend_chars(&mut v, &d);
    string_of(&v)
}

impl Error {
    /// The human-readable text of the error.
    pub fn message(&self) -> (r: String)
        ensures
            r@ == error_message(*self),
    {
        match self {
            Error::Config(m) => label_with("Config error: ", m),
            Error::Server(m) => label_with("Server error: ", m),
            Error::NotAuthenticated => "Not authenticated: no API token configured".to_string(),
            Error::InvalidToken(m) => label_with("Invalid API token: ", m),
            Error::RateLimited => "Rate limited by server".to_string(),
            Error::CalendarNotFound(id) => label_with("Calendar not found: ", id),
            Error::EventNotFound(id) => label_with("Event not found: ", id),
            Error::ContactNotFound(id) => label_with("Contact not found: ", id),
            Error::GroupNotFound(id) => label_with("Group not found: ", id),
            Error::EmailNotFound(id) => label_with("Email not found: ", id),
            Error::CalendarConflict { id, .. } => label_with("Calendar was modified on the server: ", id),
            Error::EventConflict { id, .. } => label_with("Event was modified on the server: ", id),
            Error::ContactConflict { id, .. } => label_with("Contact was modified on the server: ", id),
            Error::GroupConflict { id, .. } => label_with("Group was modified on the server: ", id),
        }
    }
}

} // verus!
