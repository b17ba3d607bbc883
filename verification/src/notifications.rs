//! Notification values and subscriptions.
//!
//! A notification reports a change in the store; a subscription filters
//! notifications by category, path prefix and minimum priority. The durable
//! queue and its per-session cursors belong to the persistence layer; the
//! value types and the matching rule live here.

use vstd::prelude::*;

use crate::text::{fold_eq, is_str_prefix, lower_code};

verus! {

/// Notification priority level.
#[derive(Debug, Clone, Copy, PartialEq, Eq, PartialOrd, Ord)]
pub enum Priority {
    Normal,
    High,
    Critical,
}

/// The strength of a priority, for comparisons.
pub open spec fn prio_rank(p: Priority) -> int {
    match p {
        Priority::Normal => 0,
        Priority::High => 1,
        Priority::Critical => 2,
    }
}

/// The canonical name of a priority.
pub open spec fn spec_priority_name(p: Priority) -> Seq<char> {
    match p {
        Priority::Normal => "normal"@,
        Priority::High => "high"@,
        Priority::Critical => "critical"@,
    }
}

impl Priority {
    /// The strength of this priority, for comparisons.
    pub fn rank(&self) -> (r: u8)
        ensures
            r as int == prio_rank(*self),
    {
        match self {
            Priority::Normal => 0,
            Priority::High => 1,
            Priority::Critical => 2,
        }
    }

    /// The canonical lowercase name.
    pub fn as_str(&self) -> (r: &'static str)
        ensures
            r@ == spec_priority_name(*self),
    {
        match self {
            Priority::Normal => "normal",
            Priority::High => "high",
            Priority::Critical => "critical",
        }
    }

    /// Parse a priority name, ignoring ASCII case.
    pub fn parse_str(s: &str) -> (r: Option<Priority>)
        ensures
            match r {
                Some(p) => fold_eq(s@, spec_priority_name(p)),
                None => !fold_eq(s@, "normal"@) && !fold_eq(s@, "high"@) && !fold_eq(
                    s@,
                    "critical"@,
                ),
            },
    {
        if crate::text::str_eq_fold(s, "normal") {
            Some(Priority::Normal)
        } else if crate::text::str_eq_fold(s, "high") {
            Some(Priority::High)
        } else if crate::text::str_eq_fold(s, "critical") {
            Some(Priority::Critical)
        } else {
            None
        }
    }
}

/// What topic a notification is about.
#[derive(Debug, Clone, PartialEq, Eq)]
pub enum Category {
    /// Fact changes.
    Facts,
    /// Continuous-integration events.
    Ci,
    /// Security alerts.
    Security,
    /// Documentation updates.
    Docs,
    /// System alerts.
    System,
    /// A custom category.
    Custom(String),
}

/// The name of a category.
pub open spec fn spec_category_name(c: Category) -> Seq<char> {
    match c {
        Category::Facts => "facts"@,
        Category::Ci => "ci"@,
        Category::Security => "security"@,
        Category::Docs => "docs"@,
        Category::System => "system"@,
        Category::Custom(s) => s@,
    }
}

impl Category {
    /// The name of this category.
    pub fn as_str(&self) -> (r: &str)
        ensures
            r@ == spec_category_name(*self),
    {
        match self {
            Category::Facts => "facts",
            Category::Ci => "ci",
            Category::Security => "security",
            Category::Docs => "docs",
            Category::System => "system",
            Category::Custom(s) => s.as_str(),
        }
    }

    /// Parse a category name, ignoring ASCII case; an unknown name becomes a
    /// custom category carrying the folded input.
    pub fn parse_str(s: &str) -> (r: Category)
        ensures
            match r {
                Category::Custom(t) => !fold_eq(s@, "facts"@) && !fold_eq(s@, "ci"@) && !fold_eq(
                    s@,
                    "security"@,
                ) && !fold_eq(s@, "docs"@) && !fold_eq(s@, "system"@) && (crate::text::is_ascii_seq(
                    s@,
                ) ==> t@.len() == s@.len() && forall|i: int|
                    0 <= i < s@.len() ==> (#[trigger] t@[i]) as u32 == lower_code(s@[i] as u32)),
                _ => fold_eq(s@, spec_category_name(r)),
            },
    {
        if crate::text::str_eq_fold(s, "facts") {
            Category::Facts
        } else if crate::text::str_eq_fold(s, "ci") {
            Category::Ci
        } else if crate::text::str_eq_fold(s, "security") {
            Category::Security
        } else if crate::text::str_eq_fold(s, "docs") {
            Category::Docs
        } else if crate::text::str_eq_fold(s, "system") {
            Category::System
        } else {
            Category::Custom(crate::text::ascii_lower(s))
        }
    }
}

/// What happened.
#[derive(Debug, Clone, PartialEq, Eq)]
pub enum NotificationType {
    /// A new fact was added.
    NewFact,
    /// An existing fact was corrected.
    Correction,
    /// A fact was deprecated.
    Deprecation,
    /// A fact was extended.
    Extension,
    /// An external alert.
    Alert,
    /// A subscription match.
    Match,
}

/// The name of a notification type.
pub open spec fn spec_ntype_name(t: NotificationType) -> Seq<char> {
    match t {
        NotificationType::NewFact => "new_fact"@,
        NotificationType::Correction => "correction"@,
        NotificationType::Deprecation => "deprecation"@,
        NotificationType::Extension => "extension"@,
        NotificationType::Alert => "alert"@,
        NotificationType::Match => "match"@,
    }
}

impl NotificationType {
    /// The canonical lowercase name.
    pub fn as_str(&self) -> (r: &'static str)
        ensures
            r@ == spec_ntype_name(*self),
    {
        match self {
            NotificationType::NewFact => "new_fact",
            NotificationType::Correction => "correction",
            NotificationType::Deprecation => "deprecation",
            NotificationType::Extension => "extension",
            NotificationType::Alert => "alert",
            NotificationType::Match => "match",
        }
    }

    /// Parse a notification-type name, ignoring ASCII case.
    pub fn parse_str(s: &str) -> (r: Option<NotificationType>)
        ensures
            match r {
                Some(t) => fold_eq(s@, spec_ntype_name(t)),
                None => !fold_eq(s@, "new_fact"@) && !fold_eq(s@, "correction"@) && !fold_eq(
                    s@,
                    "deprecation"@,
                ) && !fold_eq(s@, "extension"@) && !fold_eq(s@, "alert"@) && !fold_eq(
                    s@,
                    "match"@,
                ),
            },
    {
        if crate::text::str_eq_fold(s, "new_fact") {
            Some(NotificationType::NewFact)
        } else if crate::text::str_eq_fold(s, "correction") {
            Some(NotificationType::Correction)
        } else if crate::text::str_eq_fold(s, "deprecation") {
            Some(NotificationType::Deprecation)
        } else if crate::text::str_eq_fold(s, "extension") {
            Some(NotificationType::Extension)
        } else if crate::text::str_eq_fold(s, "alert") {
            Some(NotificationType::Alert)
        } else if crate::text::str_eq_fold(s, "match") {
            Some(NotificationType::Match)
        } else {
            None
        }
    }
}

/// A notification about a knowledge-base change.
#[derive(Debug, Clone)]
pub struct Notification {
    /// Unique identifier.
    pub id: u128,
    /// Topic of the notification.
    pub category: Category,
    /// Priority level.
    pub priority: Priority,
    /// Which store or service emitted it.
    pub source: String,
    /// What happened.
    pub notification_type: NotificationType,
    /// The fact concerned, if any.
    pub fact_id: Option<u128>,
    /// The path concerned, if any.
    pub path: Option<String>,
    /// Short headline.
    pub title: String,
    /// One-line description.
    pub summary: String,
    /// Creation time, milliseconds since the Unix epoch.
    pub created_at: i64,
}

impl Notification {
    /// A fresh notification with the given fields and no fact attached.
    pub fn new(
        category: Category,
        priority: Priority,
        source: &str,
        notification_type: NotificationType,
        title: &str,
        summary: &str,
    ) -> (r: Notification)
        ensures
            r.category == category,
            r.priority == priority,
            r.source@ == source@,
            r.notification_type == notification_type,
            r.fact_id is None,
            r.path is None,
            r.title@ == title@,
            r.summary@ == summary@,
    {
        Notification {
            id: crate::ids::fresh_id(),
            category,
            priority,
            source: source.to_owned(),
            notification_type,
            fact_id: None,
            path: None,
            title: title.to_owned(),
            summary: summary.to_owned(),
            created_at: crate::clock::now_millis(),
        }
    }

    /// Attach the concerned fact and path.
    pub fn with_fact(self, fact_id: u128, path: &str) -> (r: Notification)
        ensures
            r.fact_id == Some(fact_id),
            match r.path {
                Some(p) => p@ == path@,
                None => false,
            },
            r.category == self.category,
            r.priority == self.priority,
            r.title@ == self.title@,
            r.summary@ == self.summary@,
            r.notification_type == self.notification_type,
    {
        Notification { fact_id: Some(fact_id), path: Some(path.to_owned()), ..self }
    }

    /// A normal-priority notice that a fact was added.
    pub fn for_new_fact(fact_id: u128, path: &str, title: &str, source: &str) -> (r: Notification)
        ensures
            r.category == Category::Facts,
            r.priority == Priority::Normal,
            r.notification_type == NotificationType::NewFact,
            r.fact_id == Some(fact_id),
            match r.path {
                Some(p) => p@ == path@,
                None => false,
            },
            r.title@ == "New: "@ + title@,
    {
        let mut t = String::from_str("New: ");
        t.append(title);
        let mut s = String::from_str("New fact added at ");
        s.append(path);
        Notification::new(
            Category::Facts,
            Priority::Normal,
            source,
            NotificationType::NewFact,
            t.as_str(),
            s.as_str(),
        ).with_fact(fact_id, path)
    }

    /// A high-priority notice that a fact was corrected.
    pub fn for_correction(fact_id: u128, path: &str, source: &str) -> (r: Notification)
        ensures
            r.category == Category::Facts,
            r.priority == Priority::High,
            r.notification_type == NotificationType::Correction,
            r.fact_id == Some(fact_id),
            match r.path {
                Some(p) => p@ == path@,
                None => false,
            },
    {
        let mut t = String::from_str("Corrected: ");
        t.append(path);
        Notification::new(
            Category::Facts,
            Priority::High,
            source,
            NotificationType::Correction,
            t.as_str(),
            "A fact was corrected",
        ).with_fact(fact_id, path)
    }

    /// A high-priority notice that a fact was deprecated.
    pub fn for_deprecation(fact_id: u128, path: &str, reason: &str, source: &str) -> (r:
        Notification)
        ensures
            r.category == Category::Facts,
            r.priority == Priority::High,
            r.notification_type == NotificationType::Deprecation,
            r.fact_id == Some(fact_id),
            r.summary@ == reason@,
    {
        let mut t = String::from_str("Deprecated: ");
        t.append(path);
        Notification::new(
            Category::Facts,
            Priority::High,
            source,
            NotificationType::Deprecation,
            t.as_str(),
            reason,
        ).with_fact(fact_id, path)
    }

    /// An alert from continuous integration.
    pub fn for_ci(title: &str, summary: &str, priority: Priority) -> (r: Notification)
        ensures
            r.category == Category::Ci,
            r.priority == priority,
            r.notification_type == NotificationType::Alert,
            r.title@ == title@,
            r.summary@ == summary@,
    {
        Notification::new(Category::Ci, priority, "ci", NotificationType::Alert, title, summary)
    }

    /// A critical security alert.
    pub fn for_security(title: &str, summary: &str) -> (r: Notification)
        ensures
            r.category == Category::Security,
            r.priority == Priority::Critical,
            r.notification_type == NotificationType::Alert,
            r.title@ == title@,
            r.summary@ == summary@,
    {
        Notification::new(
            Category::Security,
            Priority::Critical,
            "security",
            NotificationType::Alert,
            title,
            summary,
        )
    }
}

/// What a session wants to hear about: categories, path prefixes and a
/// minimum priority; an empty filter admits everything.
#[derive(Debug, Clone)]
pub struct Subscription {
    /// Categories to subscribe to; empty means all.
    pub categories: Vec<Category>,
    /// Path prefixes to subscribe to; empty means all.
    pub path_prefixes: Vec<String>,
    /// Minimum priority; `None` means all.
    pub priority_min: Option<Priority>,
}

impl Default for Subscription {
    /// The subscription that admits everything.
    fn default() -> (r: Subscription)
        ensures
            r.categories@.len() == 0,
            r.path_prefixes@.len() == 0,
            r.priority_min is None,
    {
        Subscription { categories: Vec::new(), path_prefixes: Vec::new(), priority_min: None }
    }
}

/// Whether a notification passes a subscription's filters: its priority
/// reaches the minimum, its category name is among those subscribed (or none
/// are named), and its path extends a subscribed prefix (or none are named).
pub open spec fn spec_sub_matches(sub: Subscription, n: Notification) -> bool {
    &&& match sub.priority_min {
        Some(m) => prio_rank(n.priority) >= prio_rank(m),
        None => true,
    }
    &&& (sub.categories@.len() == 0 || exists|i: int|
        0 <= i < sub.categories@.len() && spec_category_name(#[trigger] sub.categories@[i])
            == spec_category_name(n.category))
    &&& (sub.path_prefixes@.len() == 0 || match n.path {
        Some(p) => exists|i: int|
            0 <= i < sub.path_prefixes@.len() && is_str_prefix((#[trigger] sub.path_prefixes@[i])@, p@),
        None => false,
    })
}

impl Subscription {
    /// Subscribe to these categories.
    pub fn categories(self, cats: Vec<Category>) -> (r: Subscription)
        ensures
            r.categories@ == cats@,
            r.path_prefixes@ == self.path_prefixes@,
            r.priority_min == self.priority_min,
    {
        Subscription { categories: cats, ..self }
    }

    /// Subscribe to these path prefixes.
    pub fn paths(self, paths: Vec<String>) -> (r: Subscription)
        ensures
            r.path_prefixes@ == paths@,
            r.categories@ == self.categories@,
            r.priority_min == self.priority_min,
    {
        Subscription { path_prefixes: paths, ..self }
    }

    /// Require at least this priority.
    pub fn priority_min(self, priority: Priority) -> (r: Subscription)
        ensures
            r.priority_min == Some(priority),
            r.categories@ == self.categories@,
            r.path_prefixes@ == self.path_prefixes@,
    {
        Subscription { priority_min: Some(priority), ..self }
    }

    /// Whether a notification passes this subscription's filters.
    #[verifier::loop_isolation(false)]
    pub fn matches(&self, notif: &Notification) -> (r: bool)
        ensures
            r == spec_sub_matches(*self, *notif),
    {
        match &self.priority_min {
            Some(m) => {
                if notif.priority.rank() < m.rank() {
                    return false;
                }
            },
            None => {},
        }
        if self.categories.len() > 0 {
            let n = self.categories.len();
            let mut found = false;
            let mut i: usize = 0;
            while i < n && !found
                invariant
                    0 <= i <= n,
                    n == self.categories@.len(),
                    !found ==> forall|k: int|
                        0 <= k < i ==> spec_category_name(#[trigger] self.categories@[k])
                            != spec_category_name(notif.category),
                    found ==> exists|k: int|
                        0 <= k < n && spec_category_name(#[trigger] self.categories@[k])
                            == spec_category_name(notif.category),
                decreases n - i,
            {
                let cn = self.categories[i].as_str();
                if crate::text::str_eq(cn, notif.category.as_str()) {
                    found = true;
                }
                i = i + 1;
            }
            if !found {
                return false;
            }
        }
        if self.path_prefixes.len() > 0 {
            match &notif.path {
                Some(p) => {
                    let n = self.path_prefixes.len();
                    let mut found = false;
                    let mut i: usize = 0;
                    while i < n && !found
                        invariant
                            0 <= i <= n,
                            n == self.path_prefixes@.len(),
                            !found ==> forall|k: int|
                                0 <= k < i ==> !is_str_prefix(
                                    (#[trigger] self.path_prefixes@[k])@,
                                    p@,
                                ),
                            found ==> exists|k: int|
                                0 <= k < n && is_str_prefix(
                                    (#[trigger] self.path_prefixes@[k])@,
                                    p@,
                                ),
                        decreases n - i,
                    {
                        let pref: &String = &self.path_prefixes[i];
                        if crate::text::str_starts_with(p.as_str(), pref.as_str()) {
                            found = true;
                        }
                        i = i + 1;
                    }
                    if !found {
                        return false;
                    }
                },
                None => {
                    return false;
                },
            }
        }
        true
    }
}

} // verus!
