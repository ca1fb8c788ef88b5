//! The MCP server's data: its request type and the GraphQL layer's types,
//! confirmation tokens and mutation decisions.
use vstd::prelude::*;

pub mod graphql;

verus! {

/// Arguments of the `graphql` MCP tool.
#[derive(Debug, Clone)]
pub struct GraphqlRequest {
    /// The GraphQL query or mutation string.
    pub query: String,
    /// Optional JSON-encoded variables for the query.
    pub variables: Option<String>,
}

} // verus!
