//! Request and response shapes of the remote server API.

use vstd::prelude::*;

verus! {

/// Visibility of a knowledge base.
#[derive(Debug, Clone, Copy, PartialEq, Eq, Structural)]
pub enum Visibility {
    /// Anyone may read.
    Public,
    /// Restricted to its members.
    Private,
}

impl Default for Visibility {
    fn default() -> (r: Visibility)
        ensures
            r == Visibility::Public,
    {
        Visibility::Public
    }
}

/// A knowledge base as the server describes it.
#[derive(Debug, Clone)]
pub struct KnowledgeBase {
    /// Server-side identifier.
    pub id: String,
    /// URL-safe short name.
    pub slug: String,
    /// Display name.
    pub name: String,
    /// Free-form description.
    pub description: String,
    /// Owning account.
    pub owner_id: String,
    /// Visibility label.
    pub visibility: String,
    /// Creation time, as the server formats it.
    pub created_at: String,
}

/// Response to listing knowledge bases.
#[derive(Debug, Clone)]
pub struct KbListResponse {
    /// The knowledge bases.
    pub knowledge_bases: Vec<KnowledgeBase>,
    /// Total count.
    pub total: usize,
}

/// Request to create a knowledge base.
#[derive(Debug, Clone)]
pub struct CreateKbRequest {
    /// URL-safe short name.
    pub slug: String,
    /// Display name.
    pub name: String,
    /// Free-form description.
    pub description: Option<String>,
    /// Visibility label.
    pub visibility: Option<String>,
}

/// Request to create a fact.
#[derive(Debug, Clone)]
pub struct CreateFactRequest {
    /// Path of the new fact.
    pub path: String,
    /// Short label.
    pub title: String,
    /// Body.
    pub content: String,
    /// Tags, if any.
    pub tags: Option<Vec<String>>,
}

/// A search request.
#[derive(Debug, Clone)]
pub struct SearchRequest {
    /// Query text.
    pub query: String,
    /// Result cap.
    pub limit: Option<usize>,
    /// Path prefix filter.
    pub path_filter: Option<String>,
}

/// One node of a browse tree.
#[derive(Debug, Clone)]
pub struct BrowseNode {
    /// Full path of the node.
    pub path: String,
    /// Last segment.
    pub name: String,
    /// Whether children exist below it.
    pub has_children: bool,
    /// Facts under this node.
    pub fact_count: usize,
}

/// Response to a browse request.
#[derive(Debug, Clone)]
pub struct BrowseResponse {
    /// The nodes at this level.
    pub nodes: Vec<BrowseNode>,
    /// Cursor for the next page, if any.
    pub cursor: Option<String>,
}

/// Response to a health check.
#[derive(Debug, Clone)]
pub struct HealthResponse {
    /// Server status label.
    pub status: String,
    /// Server version.
    pub version: String,
}

/// An error as the server reports it.
#[derive(Debug, Clone)]
pub struct ApiErrorResponse {
    /// Short error label.
    pub error: String,
    /// Further detail, if any.
    pub details: Option<String>,
}

} // verus!
