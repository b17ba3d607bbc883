//! Configuration value types and their documented defaults.
//!
//! Loading and saving configuration files is the surrounding application's
//! job; the shapes and defaults live here.

use vstd::prelude::*;

verus! {

/// User identity settings.
#[derive(Debug, Clone)]
pub struct UserConfig {
    /// Display name recorded as the author of writes.
    pub name: String,
    /// Stable agent identifier.
    pub agent_id: String,
}

/// Default user name.
pub fn default_user_name() -> (r: String)
    ensures
        r@ == "AI"@,
{
    String::from_str("AI")
}

impl Default for UserConfig {
    fn default() -> (r: UserConfig)
        ensures
            r.name@ == "AI"@,
            r.agent_id@.len() == 0,
    {
        UserConfig { name: default_user_name(), agent_id: String::new() }
    }
}

/// Core store settings.
#[derive(Debug, Clone)]
pub struct CoreConfig {
    /// Default source label for new facts.
    pub default_source: String,
    /// Directory for cached remote data, if any.
    pub cache_dir: Option<String>,
    /// Cache size cap, in megabytes.
    pub cache_max_mb: usize,
    /// Retention period for deprecated or superseded facts, in days.
    pub gc_retention_days: u32,
    /// Run collection automatically on server start.
    pub gc_auto: bool,
}

/// Default source label.
pub fn default_source() -> (r: String)
    ensures
        r@ == "local"@,
{
    String::from_str("local")
}

/// Default cache size cap, in megabytes.
pub fn default_cache_max_mb() -> (r: usize)
    ensures
        r == 100,
{
    100
}

/// Default retention period, in days.
pub fn default_gc_retention_days() -> (r: u32)
    ensures
        r == 30,
{
    30
}

/// Whether collection runs automatically by default.
pub fn default_gc_auto() -> (r: bool)
    ensures
        r,
{
    true
}

impl Default for CoreConfig {
    fn default() -> (r: CoreConfig)
        ensures
            r.default_source@ == "local"@,
            r.cache_dir is None,
            r.cache_max_mb == 100,
            r.gc_retention_days == 30,
            r.gc_auto,
    {
        CoreConfig {
            default_source: default_source(),
            cache_dir: None,
            cache_max_mb: default_cache_max_mb(),
            gc_retention_days: default_gc_retention_days(),
            gc_auto: default_gc_auto(),
        }
    }
}

/// Search settings.
#[derive(Debug, Clone)]
pub struct SearchConfig {
    /// Default result cap.
    pub default_limit: usize,
    /// Default token budget for AI context.
    pub token_budget: usize,
    /// Timeout for federated searches, in seconds.
    pub federated_timeout_secs: u64,
}

/// Default result cap.
pub fn default_limit() -> (r: usize)
    ensures
        r == 20,
{
    20
}

/// Default token budget.
pub fn default_token_budget() -> (r: usize)
    ensures
        r == 3000,
{
    3000
}

/// Default federated-search timeout, in seconds.
pub fn default_timeout_secs() -> (r: u64)
    ensures
        r == 5,
{
    5
}

impl Default for SearchConfig {
    fn default() -> (r: SearchConfig)
        ensures
            r.default_limit == 20,
            r.token_budget == 3000,
            r.federated_timeout_secs == 5,
    {
        SearchConfig {
            default_limit: default_limit(),
            token_budget: default_token_budget(),
            federated_timeout_secs: default_timeout_secs(),
        }
    }
}

/// A remote server with its credentials.
#[derive(Debug, Clone)]
pub struct ServerEntry {
    /// Name other entries refer to.
    pub name: String,
    /// Base URL of the server.
    pub url: String,
    /// API key, if authentication is configured.
    pub api_key: Option<String>,
    /// Connection timeout, in seconds.
    pub timeout_secs: u64,
}

/// Default server timeout, in seconds.
pub fn default_server_timeout() -> (r: u64)
    ensures
        r == 30,
{
    30
}

/// The set of configured knowledge bases.
#[derive(Debug, Clone)]
pub struct KnowledgeBasesConfig {
    /// The knowledge base used when none is named.
    pub primary: String,
    /// Order for federated search.
    pub search_order: Vec<String>,
    /// Individual knowledge-base entries.
    pub kb: Vec<KbConfig>,
}

/// Default primary knowledge-base name.
pub fn default_primary_kb() -> (r: String)
    ensures
        r@ == "local"@,
{
    String::from_str("local")
}

impl Default for KnowledgeBasesConfig {
    fn default() -> (r: KnowledgeBasesConfig)
        ensures
            r.primary@ == "local"@,
            r.search_order@.len() == 0,
            r.kb@.len() == 0,
    {
        KnowledgeBasesConfig {
            primary: default_primary_kb(),
            search_order: Vec::new(),
            kb: Vec::new(),
        }
    }
}

/// One knowledge base's configuration.
#[derive(Debug, Clone)]
pub struct KbConfig {
    /// Name this entry is referred to by.
    pub name: String,
    /// Backend kind.
    pub kb_type: String,
    /// Path of the backing file, for a local store.
    pub path: Option<String>,
    /// Server entry name, for a remote store.
    pub server: Option<String>,
    /// Slug on the remote server.
    pub slug: Option<String>,
    /// Who may write, and how.
    pub write: WritePolicy,
}

/// Default backend kind.
pub fn default_kb_type() -> (r: String)
    ensures
        r@ == "sqlite"@,
{
    String::from_str("sqlite")
}

/// Write policy for a knowledge base.
#[derive(Debug, Clone, Copy, PartialEq, Eq, Structural)]
pub enum WritePolicy {
    /// Writes land directly.
    Allow,
    /// Writes are refused.
    Deny,
    /// Writes wait for human approval.
    Ask,
}

/// Default write policy.
pub fn default_write_policy() -> (r: WritePolicy)
    ensures
        r == WritePolicy::Allow,
{
    WritePolicy::Allow
}

impl Default for WritePolicy {
    fn default() -> (r: WritePolicy)
        ensures
            r == WritePolicy::Allow,
    {
        WritePolicy::Allow
    }
}

} // verus!
