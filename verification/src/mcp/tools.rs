//! Argument structs for the merged agent tools, with their documented
//! defaults. The dispatcher that decodes and routes them lives in the
//! surrounding application.

use vstd::prelude::*;

verus! {

/// Unified read tool: search, get, browse, or federated search.
#[derive(Debug)]
pub struct MehFactsTool {
    /// Which action to perform.
    pub action: String,
    /// Search query.
    pub query: Option<String>,
    /// Path prefix filter for searches.
    pub path_filter: Option<String>,
    /// Result cap.
    pub limit: i64,
    /// Fact id or path, for lookups.
    pub id_or_path: Option<String>,
    /// Include the supersession chain.
    pub include_history: bool,
    /// Path to browse.
    pub path: Option<String>,
    /// Browse mode.
    pub mode: Option<String>,
    /// Tree depth for browsing.
    pub depth: Option<i32>,
    /// Pagination cursor.
    pub cursor: Option<String>,
    /// Knowledge bases for federated search.
    pub kbs: Vec<String>,
    /// Per-knowledge-base cap for federated search.
    pub limit_per_kb: Option<i64>,
}

/// Unified write tool: add, correct, extend, deprecate, or bulk vote.
#[derive(Debug)]
pub struct MehWriteTool {
    /// Which action to perform.
    pub action: String,
    /// Path for a new fact.
    pub path: Option<String>,
    /// Content for a new fact.
    pub content: Option<String>,
    /// Tags for a new fact.
    pub tags: Vec<String>,
    /// Target fact id.
    pub fact_id: Option<String>,
    /// Replacement content for a correction.
    pub new_content: Option<String>,
    /// Additional content for an extension.
    pub extension: Option<String>,
    /// Reason for a correction or deprecation.
    pub reason: Option<String>,
    /// Votes to record in bulk.
    pub votes: Vec<VoteInput>,
}

/// Unified notification tool: get, acknowledge, or subscribe.
#[derive(Debug)]
pub struct MehNotifyTool {
    /// Which action to perform.
    pub action: String,
    /// Minimum priority filter.
    pub priority_min: Option<String>,
    /// Result cap.
    pub limit: i64,
    /// Notification ids to acknowledge.
    pub notification_ids: Vec<String>,
    /// Categories to subscribe to.
    pub categories: Vec<String>,
    /// Path prefixes to subscribe to.
    pub path_prefixes: Vec<String>,
    /// Show the current subscription.
    pub show: bool,
}

/// Unified context tool: list, switch, or show knowledge bases.
#[derive(Debug)]
pub struct MehContextTool {
    /// Which action to perform.
    pub action: String,
    /// Show detailed info when listing.
    pub detailed: bool,
    /// Knowledge base to switch to.
    pub kb_name: Option<String>,
    /// Session context to switch to.
    pub context: Option<String>,
}

/// Search the knowledge base.
#[derive(Debug)]
pub struct MehSearchTool {
    /// Natural-language or keyword query.
    pub query: String,
    /// Path prefix filter.
    pub path_filter: Option<String>,
    /// Result cap.
    pub limit: i64,
}

/// Default result cap for searches.
pub fn default_limit() -> (r: i64)
    ensures
        r == 20,
{
    20
}

/// Fetch a single fact.
#[derive(Debug)]
pub struct MehGetFactTool {
    /// Fact id or path.
    pub id_or_path: String,
    /// Include the supersession chain.
    pub include_history: bool,
}

/// Browse the path structure.
#[derive(Debug)]
pub struct MehBrowseTool {
    /// Path prefix to browse.
    pub path: String,
    /// Flat list or tree.
    pub mode: String,
    /// Maximum tree depth.
    pub depth: i32,
    /// Result cap.
    pub limit: i64,
    /// Pagination cursor: the path to start after.
    pub cursor: Option<String>,
}

/// Default browse root.
pub fn default_path() -> (r: String)
    ensures
        r@ == "@"@,
{
    String::from_str("@")
}

/// Default browse mode.
pub fn default_mode() -> (r: String)
    ensures
        r@ == "ls"@,
{
    String::from_str("ls")
}

/// Default tree depth.
pub fn default_depth() -> (r: i32)
    ensures
        r == 3,
{
    3
}

/// Default browse result cap.
pub fn default_browse_limit() -> (r: i64)
    ensures
        r == 100,
{
    100
}

/// Add a new fact.
#[derive(Debug)]
pub struct MehAddTool {
    /// Path of the new fact.
    pub path: String,
    /// Body of the new fact.
    pub content: String,
    /// Tags for categorisation.
    pub tags: Vec<String>,
}

/// Correct an existing fact.
#[derive(Debug)]
pub struct MehCorrectTool {
    /// Id of the fact to correct.
    pub fact_id: String,
    /// Corrected body.
    pub new_content: String,
    /// Reason for the correction.
    pub reason: Option<String>,
}

/// Extend an existing fact.
#[derive(Debug)]
pub struct MehExtendTool {
    /// Id of the fact to extend.
    pub fact_id: String,
    /// Additional content.
    pub extension: String,
}

/// Deprecate a fact.
#[derive(Debug)]
pub struct MehDeprecateTool {
    /// Id of the fact to deprecate.
    pub fact_id: String,
    /// Reason for the deprecation.
    pub reason: Option<String>,
}

/// Fetch pending notifications.
#[derive(Debug)]
pub struct MehGetNotificationsTool {
    /// Minimum priority filter.
    pub priority_min: Option<String>,
    /// Result cap.
    pub limit: i64,
}

/// Default notification result cap.
pub fn default_notif_limit() -> (r: i64)
    ensures
        r == 10,
{
    10
}

/// Acknowledge notifications.
#[derive(Debug)]
pub struct MehAckNotificationsTool {
    /// Ids to acknowledge.
    pub notification_ids: Vec<String>,
}

/// One vote on a fact.
#[derive(Debug)]
pub struct VoteInput {
    /// Target fact id.
    pub fact_id: String,
    /// Vote value.
    pub vote: String,
    /// Reason or comment.
    pub reason: Option<String>,
}

/// Record several votes at once.
#[derive(Debug)]
pub struct MehBulkVoteTool {
    /// The votes to record.
    pub votes: Vec<VoteInput>,
}

/// List the configured knowledge bases.
#[derive(Debug)]
pub struct MehListKbsTool {
    /// Show detailed info.
    pub detailed: bool,
}

/// Switch the session to a different knowledge base.
#[derive(Debug)]
pub struct MehSwitchKbTool {
    /// The knowledge base to switch to.
    pub kb_name: String,
}

/// Switch the session context.
#[derive(Debug)]
pub struct MehSwitchContextTool {
    /// The context to switch to.
    pub context: String,
}

/// Show the current session context.
#[derive(Debug)]
pub struct MehShowContextTool {
}

/// Search several knowledge bases at once.
#[derive(Debug)]
pub struct MehFederatedSearchTool {
    /// Search query.
    pub query: String,
    /// Knowledge bases to search; empty means the configured order.
    pub kbs: Vec<String>,
    /// Per-knowledge-base result cap.
    pub limit_per_kb: i64,
}

/// Default per-knowledge-base result cap.
pub fn default_federated_limit() -> (r: i64)
    ensures
        r == 10,
{
    10
}

} // verus!
