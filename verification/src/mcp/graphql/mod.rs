//! Types of the GraphQL schema that wraps the JMAP, CardDAV and CalDAV
//! clients, its confirmation tokens and its mutation decisions.
pub mod types;
pub mod token;
pub mod decisions;
