//! Fact: the unit of knowledge, and its closed classifier enums.
//!
//! A fact is created once and inserted once; afterwards only its status and
//! update timestamp may change. Identifiers are 128-bit time-ordered values;
//! timestamps are milliseconds since the Unix epoch; trust scores are in
//! thousandths of a unit.

use vstd::prelude::*;

use crate::text::{fold_eq, is_ws_char, lower_code, trim};
use crate::trust::{
    spec_effective_trust, spec_initial_trust, TrustCalculator, TrustConfig,
};
use crate::StoreError;

verus! {

/// Where a fact came from.
#[derive(Debug, Clone, Copy, PartialEq, Eq, Structural)]
pub enum Source {
    /// Local storage on this machine.
    Local,
    /// Company-wide server.
    Company,
    /// Global public source.
    Global,
    /// Third-party packages.
    Npm,
}

impl Default for Source {
    fn default() -> (r: Self)
        ensures
            r == Source::Local,
    {
        Source::Local
    }
}

/// The canonical name of a status.
pub open spec fn spec_status_name(s: Status) -> Seq<char> {
    match s {
        Status::Active => "active"@,
        Status::Superseded => "superseded"@,
        Status::Deprecated => "deprecated"@,
        Status::Archived => "archived"@,
        Status::PendingReview => "pending_review"@,
    }
}

impl Status {
    /// The canonical lowercase name of this status.
    pub fn as_str(&self) -> (r: &'static str)
        ensures
            r@ == spec_status_name(*self),
    {
        match self {
            Status::Active => "active",
            Status::Superseded => "superseded",
            Status::Deprecated => "deprecated",
            Status::Archived => "archived",
            Status::PendingReview => "pending_review",
        }
    }

    /// Parse a status name; an unknown name reads as active, as stored rows
    /// are decoded leniently.
    pub fn parse_str(s: &str) -> (r: Status)
        ensures
            r == (if fold_eq(s@, "superseded"@) {
                Status::Superseded
            } else if fold_eq(s@, "deprecated"@) {
                Status::Deprecated
            } else if fold_eq(s@, "archived"@) {
                Status::Archived
            } else if fold_eq(s@, "pending_review"@) {
                Status::PendingReview
            } else {
                Status::Active
            }),
    {
        if crate::text::str_eq_fold(s, "superseded") {
            Status::Superseded
        } else if crate::text::str_eq_fold(s, "deprecated") {
            Status::Deprecated
        } else if crate::text::str_eq_fold(s, "archived") {
            Status::Archived
        } else if crate::text::str_eq_fold(s, "pending_review") {
            Status::PendingReview
        } else {
            Status::Active
        }
    }
}

/// The canonical name of a fact type.
pub open spec fn spec_fact_type_name(t: FactType) -> Seq<char> {
    match t {
        FactType::Fact => "fact"@,
        FactType::Correction => "correction"@,
        FactType::Extension => "extension"@,
        FactType::Warning => "warning"@,
        FactType::Deprecation => "deprecation"@,
    }
}

impl FactType {
    /// The canonical lowercase name of this fact type.
    pub fn as_str(&self) -> (r: &'static str)
        ensures
            r@ == spec_fact_type_name(*self),
    {
        match self {
            FactType::Fact => "fact",
            FactType::Correction => "correction",
            FactType::Extension => "extension",
            FactType::Warning => "warning",
            FactType::Deprecation => "deprecation",
        }
    }

    /// Parse a fact-type name; an unknown name reads as a plain fact, as
    /// stored rows are decoded leniently.
    pub fn parse_str(s: &str) -> (r: FactType)
        ensures
            r == (if fold_eq(s@, "correction"@) {
                FactType::Correction
            } else if fold_eq(s@, "extension"@) {
                FactType::Extension
            } else if fold_eq(s@, "warning"@) {
                FactType::Warning
            } else if fold_eq(s@, "deprecation"@) {
                FactType::Deprecation
            } else {
                FactType::Fact
            }),
    {
        if crate::text::str_eq_fold(s, "correction") {
            FactType::Correction
        } else if crate::text::str_eq_fold(s, "extension") {
            FactType::Extension
        } else if crate::text::str_eq_fold(s, "warning") {
            FactType::Warning
        } else if crate::text::str_eq_fold(s, "deprecation") {
            FactType::Deprecation
        } else {
            FactType::Fact
        }
    }
}

/// The canonical name of an author type.
pub open spec fn spec_author_type_name(a: AuthorType) -> Seq<char> {
    match a {
        AuthorType::Human => "human"@,
        AuthorType::Ai => "ai"@,
        AuthorType::System => "system"@,
    }
}

impl AuthorType {
    /// The canonical lowercase name of this author type.
    pub fn as_str(&self) -> (r: &'static str)
        ensures
            r@ == spec_author_type_name(*self),
    {
        match self {
            AuthorType::Human => "human",
            AuthorType::Ai => "ai",
            AuthorType::System => "system",
        }
    }

    /// Parse an author-type name; an unknown name reads as an AI author, as
    /// stored rows are decoded leniently.
    pub fn parse_str(s: &str) -> (r: AuthorType)
        ensures
            r == (if fold_eq(s@, "human"@) {
                AuthorType::Human
            } else if fold_eq(s@, "system"@) {
                AuthorType::System
            } else {
                AuthorType::Ai
            }),
    {
        if crate::text::str_eq_fold(s, "human") {
            AuthorType::Human
        } else if crate::text::str_eq_fold(s, "system") {
            AuthorType::System
        } else {
            AuthorType::Ai
        }
    }
}

/// Which source a name denotes, up to ASCII case; `None` for unknown names.
pub open spec fn spec_parse_source(s: Seq<char>) -> Option<Source> {
    if fold_eq(s, "local"@) {
        Some(Source::Local)
    } else if fold_eq(s, "company"@) {
        Some(Source::Company)
    } else if fold_eq(s, "global"@) {
        Some(Source::Global)
    } else if fold_eq(s, "npm"@) {
        Some(Source::Npm)
    } else {
        None
    }
}

impl Source {
    /// The canonical lowercase name of this source.
    pub fn as_str(&self) -> (r: &'static str)
        ensures
            r@ == spec_source_name(*self),
    {
        match self {
            Source::Local => "local",
            Source::Company => "company",
            Source::Global => "global",
            Source::Npm => "npm",
        }
    }

    /// Parse a source name, ignoring ASCII case.
    pub fn parse_source(s: &str) -> (r: Result<Source, StoreError>)
        ensures
            match r {
                Ok(src) => spec_parse_source(s@) == Some(src),
                Err(e) => e == StoreError::SerializationError && spec_parse_source(s@) is None,
            },
    {
        if crate::text::str_eq_fold(s, "local") {
            Ok(Source::Local)
        } else if crate::text::str_eq_fold(s, "company") {
            Ok(Source::Company)
        } else if crate::text::str_eq_fold(s, "global") {
            Ok(Source::Global)
        } else if crate::text::str_eq_fold(s, "npm") {
            Ok(Source::Npm)
        } else {
            Err(StoreError::SerializationError)
        }
    }
}

/// The canonical name of a source.
pub open spec fn spec_source_name(s: Source) -> Seq<char> {
    match s {
        Source::Local => "local"@,
        Source::Company => "company"@,
        Source::Global => "global"@,
        Source::Npm => "npm"@,
    }
}

impl core::str::FromStr for Source {
    type Err = StoreError;

    /// Parse a source name, as `Source::parse_source` does.
    fn from_str(s: &str) -> Result<Source, StoreError> {
        Source::parse_source(s)
    }
}

/// Lifecycle status of a fact; the only mutable field besides `updated_at`.
#[derive(Debug, Clone, Copy, PartialEq, Eq, Structural)]
pub enum Status {
    /// Active and current.
    Active,
    /// Replaced by a correction.
    Superseded,
    /// Marked as no longer valid.
    Deprecated,
    /// Old but kept.
    Archived,
    /// Awaiting human review.
    PendingReview,
}

impl Default for Status {
    fn default() -> (r: Self)
        ensures
            r == Status::Active,
    {
        Status::Active
    }
}

/// Kind of author that wrote a fact.
#[derive(Debug, Clone, Copy, PartialEq, Eq, Structural)]
pub enum AuthorType {
    Human,
    Ai,
    System,
}

impl Default for AuthorType {
    fn default() -> (r: Self)
        ensures
            r == AuthorType::Ai,
    {
        AuthorType::Ai
    }
}

/// Role a fact plays in the append-only model.
#[derive(Debug, Clone, Copy, PartialEq, Eq, Structural)]
pub enum FactType {
    /// Original fact.
    Fact,
    /// Correction of another fact.
    Correction,
    /// Extension of another fact.
    Extension,
    /// Warning or caveat.
    Warning,
    /// Deprecation notice.
    Deprecation,
}

impl Default for FactType {
    fn default() -> (r: Self)
        ensures
            r == FactType::Fact,
    {
        FactType::Fact
    }
}

/// Sentence terminators recognised when deriving a summary.
pub open spec fn is_sentence_end(c: char) -> bool {
    c == '.' || c == '!' || c == '?'
}

/// Index of the last space in `s`, if any.
pub open spec fn last_space(s: Seq<char>) -> Option<int>
    decreases s.len(),
{
    if s.len() == 0 {
        None
    } else if s.last() == ' ' {
        Some(s.len() - 1)
    } else {
        last_space(s.drop_last())
    }
}

proof fn lemma_last_space_at(s: Seq<char>, k: int)
    requires
        0 <= k < s.len(),
        s[k] == ' ',
        forall|j: int| k < j < s.len() ==> #[trigger] s[j] != ' ',
    ensures
        last_space(s) == Some(k),
    decreases s.len(),
{
    if k == s.len() - 1 {
    } else {
        assert(s.last() != ' ');
        assert(s.drop_last() =~= s.take(s.len() - 1));
        lemma_last_space_at(s.take(s.len() - 1), k);
    }
}

proof fn lemma_last_space_none(s: Seq<char>)
    requires
        forall|j: int| 0 <= j < s.len() ==> #[trigger] s[j] != ' ',
    ensures
        last_space(s) is None,
    decreases s.len(),
{
    if s.len() > 0 {
        assert(s.last() != ' ');
        assert(s.drop_last() =~= s.take(s.len() - 1));
        lemma_last_space_none(s.take(s.len() - 1));
    }
}

/// The derived summary of a body under a character budget: the first
/// sentence when it ends inside the budget; the whole trimmed body when it
/// fits; otherwise a truncation at the last word boundary, marked with an
/// ellipsis.
pub open spec fn spec_summary(content: Seq<char>, max: nat) -> Seq<char> {
    let t = trim(content, |c: char| is_ws_char(c));
    let p = crate::text::first_such(t, |c: char| is_sentence_end(c));
    if p < t.len() && p < max {
        t.take(p as int + 1)
    } else if t.len() <= max {
        t
    } else {
        let cut = t.take(max as int);
        match last_space(cut) {
            Some(k) => cut.take(k) + seq!['.', '.', '.'],
            None => cut + seq!['.', '.', '.'],
        }
    }
}

/// Executable test for sentence terminators.
fn is_sent_end(c: char) -> (r: bool)
    ensures
        r == is_sentence_end(c),
{
    c == '.' || c == '!' || c == '?'
}

/// Compute the summary of `s` under a budget of `max_chars` characters.
#[verifier::loop_isolation(false)]
#[verifier::rlimit(80)]
fn summarize(s: &str, max_chars: usize) -> (r: String)
    ensures
        r@ == spec_summary(s@, max_chars as nat),
{
    let ghost wsp = |c: char| is_ws_char(c);
    let ghost sep = |c: char| is_sentence_end(c);
    let n = s.unicode_len();
    let mut start: usize = 0;
    while start < n && is_ws_exec(s.get_char(start))
        invariant
            0 <= start <= n,
            forall|j: int| 0 <= j < start ==> is_ws_char(#[trigger] s@[j]),
        decreases n - start,
    {
        start = start + 1;
    }
    let mut end: usize = n;
    while end > start && is_ws_exec(s.get_char(end - 1))
        invariant
            start <= end <= n,
            forall|j: int| end <= j < n ==> is_ws_char(#[trigger] s@[j]),
        decreases end,
    {
        end = end - 1;
    }
    proof {
        crate::text::lemma_ltrim_range(s@, wsp, start as int);
        crate::text::lemma_rtrim_range(s@.skip(start as int), wsp, end - start);
        assert(trim(s@, wsp) =~= s@.subrange(start as int, end as int));
    }
    let ghost t = s@.subrange(start as int, end as int);

    let mut p: usize = start;
    while p < end && !is_sent_end(s.get_char(p))
        invariant
            start <= p <= end,
            forall|j: int| start <= j < p ==> !is_sentence_end(#[trigger] s@[j]),
        decreases end - p,
    {
        p = p + 1;
    }
    proof {
        assert(forall|j: int| 0 <= j < p - start ==> #[trigger] t[j] == s@[j + start]);
        crate::text::lemma_first_such_at(t, sep, p - start);
    }
    if p < end && p - start < max_chars {
        let piece = s.substring_char(start, p + 1);
        let r = piece.to_owned();
        proof {
            assert(r@ =~= t.take(p - start + 1));
        }
        return r;
    }
    if end - start <= max_chars {
        let r = s.substring_char(start, end).to_owned();
        proof {
            assert(r@ =~= t);
        }
        return r;
    }
    let cutend: usize = start + max_chars;
    let ghost cut = t.take(max_chars as int);
    proof {
        assert(forall|j: int| 0 <= j < max_chars ==> #[trigger] cut[j] == s@[j + start]);
    }
    let mut k: usize = cutend;
    while k > start && s.get_char(k - 1) != ' '
        invariant
            start <= k <= cutend,
            forall|j: int| k <= j < cutend ==> #[trigger] s@[j] != ' ',
        decreases k,
    {
        k = k - 1;
    }
    if k > start {
        let mut out = s.substring_char(start, k - 1).to_owned();
        out.append("...");
        proof {
            lemma_last_space_at(cut, k - 1 - start);
            reveal_strlit("...");
            assert("..."@ =~= seq!['.', '.', '.']);
            assert(out@ =~= cut.take(k - 1 - start) + seq!['.', '.', '.']);
        }
        return out;
    }
    let mut out = s.substring_char(start, cutend).to_owned();
    out.append("...");
    proof {
        lemma_last_space_none(cut);
        reveal_strlit("...");
        assert("..."@ =~= seq!['.', '.', '.']);
        assert(out@ =~= cut + seq!['.', '.', '.']);
    }
    out
}

/// Executable test for whitespace.
fn is_ws_exec(c: char) -> (r: bool)
    ensures
        r == is_ws_char(c),
{
    c == ' ' || c == '\t' || c == '\n' || c == '\r'
}

/// The mathematical value of a fact: every field as a plain value.
pub ghost struct FactModel {
    pub id: u128,
    pub path: Seq<char>,
    pub title: Seq<char>,
    pub content: Seq<char>,
    pub summary: Option<Seq<char>>,
    pub tags: Seq<Seq<char>>,
    pub source: Source,
    pub namespace: Seq<char>,
    pub trust_score: u32,
    pub status: Status,
    pub fact_type: FactType,
    pub supersedes: Option<u128>,
    pub extends: Seq<u128>,
    pub author_type: AuthorType,
    pub author_id: Seq<char>,
    pub created_at: i64,
    pub updated_at: i64,
    pub accessed_at: Option<i64>,
}

/// A fact: the fundamental unit of knowledge.
#[derive(Debug)]
pub struct Fact {
    /// Unique, time-ordered identifier.
    pub id: u128,
    /// Hierarchical path this fact lives at.
    pub path: String,
    /// Short label.
    pub title: String,
    /// Full body.
    pub content: String,
    /// Derived short text, computed once.
    pub summary: Option<String>,
    /// Free-form labels.
    pub tags: Vec<String>,
    /// Provenance class.
    pub source: Source,
    /// Namespace for multi-tenant setups.
    pub namespace: String,
    /// Reliability estimate, in thousandths of a unit.
    pub trust_score: u32,
    /// Lifecycle status; mutable after insert.
    pub status: Status,
    /// Role in the append-only model.
    pub fact_type: FactType,
    /// The fact this one corrects, if any.
    pub supersedes: Option<u128>,
    /// The facts this one extends.
    pub extends: Vec<u128>,
    /// Kind of author.
    pub author_type: AuthorType,
    /// Author identifier.
    pub author_id: String,
    /// Creation time, milliseconds since the Unix epoch.
    pub created_at: i64,
    /// Last update time; moves only on status changes.
    pub updated_at: i64,
    /// Last access time, if tracked.
    pub accessed_at: Option<i64>,
}

impl View for Fact {
    type V = FactModel;

    open spec fn view(&self) -> FactModel {
        FactModel {
            id: self.id,
            path: self.path@,
            title: self.title@,
            content: self.content@,
            summary: match self.summary {
                Some(s) => Some(s@),
                None => None,
            },
            tags: self.tags@.map_values(|t: String| t@),
            source: self.source,
            namespace: self.namespace@,
            trust_score: self.trust_score,
            status: self.status,
            fact_type: self.fact_type,
            supersedes: self.supersedes,
            extends: self.extends@,
            author_type: self.author_type,
            author_id: self.author_id@,
            created_at: self.created_at,
            updated_at: self.updated_at,
            accessed_at: self.accessed_at,
        }
    }
}

impl Clone for Fact {
    /// A clone carries the same mathematical value.
    fn clone(&self) -> (r: Self)
        ensures
            r@ == self@,
    {
        let summary: Option<String> = match &self.summary {
            Some(s) => Some(s.clone()),
            None => None,
        };
        let tags = self.tags.clone();
        let extends = self.extends.clone();
        proof {
            assert(tags@.map_values(|t: String| t@) =~= self.tags@.map_values(|t: String| t@));
            assert(extends@ =~= self.extends@);
        }
        Fact {
            id: self.id,
            path: self.path.clone(),
            title: self.title.clone(),
            content: self.content.clone(),
            summary,
            tags,
            source: self.source,
            namespace: self.namespace.clone(),
            trust_score: self.trust_score,
            status: self.status,
            fact_type: self.fact_type,
            supersedes: self.supersedes,
            extends,
            author_type: self.author_type,
            author_id: self.author_id.clone(),
            created_at: self.created_at,
            updated_at: self.updated_at,
            accessed_at: self.accessed_at,
        }
    }
}

impl Fact {
    /// A brand-new active fact at `path`, authored by the default AI author
    /// from the local source, with trust from the default configuration.
    pub fn new(path: &str, title: &str, content: &str) -> (r: Fact)
        ensures
            r@.path == path@,
            r@.title == title@,
            r@.content == content@,
            r@.summary is None,
            r@.tags == Seq::<Seq<char>>::empty(),
            r@.source == Source::Local,
            r@.namespace == Seq::<char>::empty(),
            r@.trust_score as int == spec_initial_trust(
                TrustConfig::spec_default(),
                AuthorType::Ai,
                Source::Local,
            ),
            r@.trust_score <= 1000,
            r@.status == Status::Active,
            r@.fact_type == FactType::Fact,
            r@.supersedes is None,
            r@.extends == Seq::<u128>::empty(),
            r@.author_type == AuthorType::Ai,
            r@.author_id == Seq::<char>::empty(),
            r@.created_at == r@.updated_at,
            r@.accessed_at is None,
    {
        let r = Fact::new_with_author(path, title, content, AuthorType::Ai, "");
        proof {
            reveal_strlit("");
            assert(""@ =~= Seq::<char>::empty());
        }
        r
    }

    /// A brand-new active fact with an explicit author; trust follows the
    /// author type under the default configuration.
    pub fn new_with_author(
        path: &str,
        title: &str,
        content: &str,
        author_type: AuthorType,
        author_id: &str,
    ) -> (r: Fact)
        ensures
            r@.path == path@,
            r@.title == title@,
            r@.content == content@,
            r@.summary is None,
            r@.tags == Seq::<Seq<char>>::empty(),
            r@.source == Source::Local,
            r@.namespace == Seq::<char>::empty(),
            r@.trust_score as int == spec_initial_trust(
                TrustConfig::spec_default(),
                author_type,
                Source::Local,
            ),
            r@.trust_score <= 1000,
            r@.status == Status::Active,
            r@.fact_type == FactType::Fact,
            r@.supersedes is None,
            r@.extends == Seq::<u128>::empty(),
            r@.author_type == author_type,
            r@.author_id == author_id@,
            r@.created_at == r@.updated_at,
            r@.accessed_at is None,
    {
        let now = crate::clock::now_millis();
        let calc = TrustCalculator::new();
        let trust = calc.initial_trust(author_type, Source::Local);
        let r = Fact {
            id: crate::ids::fresh_id(),
            path: path.to_owned(),
            title: title.to_owned(),
            content: content.to_owned(),
            summary: None,
            tags: Vec::new(),
            source: Source::Local,
            namespace: String::new(),
            trust_score: trust,
            status: Status::Active,
            fact_type: FactType::Fact,
            supersedes: None,
            extends: Vec::new(),
            author_type,
            author_id: author_id.to_owned(),
            created_at: now,
            updated_at: now,
            accessed_at: None,
        };
        proof {
            assert(r@.tags =~= Seq::<Seq<char>>::empty());
            assert(r@.extends =~= Seq::<u128>::empty());
        }
        r
    }

    /// A correction of `original`: same path and tags, new content, the
    /// title prefixed as a correction, and `supersedes` pointing at the
    /// original.
    pub fn correction(original: &Fact, new_content: &str) -> (r: Fact)
        ensures
            r@.supersedes == Some(original@.id),
            r@.fact_type == FactType::Correction,
            r@.path == original@.path,
            r@.title == "Correction: "@ + original@.title,
            r@.content == new_content@,
            r@.tags == original@.tags,
            r@.status == Status::Active,
            r@.summary is None,
            r@.extends == Seq::<u128>::empty(),
            r@.created_at == r@.updated_at,
            r@.source == Source::Local,
            r@.author_type == AuthorType::Ai,
            r@.trust_score as int == spec_initial_trust(
                TrustConfig::spec_default(),
                AuthorType::Ai,
                Source::Local,
            ),
    {
        let mut title = String::from_str("Correction: ");
        title.append(original.title.as_str());
        let mut fact = Fact::new(original.path.as_str(), title.as_str(), new_content);
        fact.supersedes = Some(original.id);
        fact.fact_type = FactType::Correction;
        let tags = original.tags.clone();
        proof {
            assert(tags@.map_values(|t: String| t@) =~= original.tags@.map_values(
                |t: String| t@,
            ));
        }
        fact.tags = tags;
        fact
    }

    /// An extension of `original`: same path, a marked title, new content,
    /// and `extends` holding exactly the original's id.
    pub fn extension(original: &Fact, additional_content: &str) -> (r: Fact)
        ensures
            r@.extends == seq![original@.id],
            r@.fact_type == FactType::Extension,
            r@.path == original@.path,
            r@.title == original@.title + " (extension)"@,
            r@.content == additional_content@,
            r@.status == Status::Active,
            r@.supersedes is None,
            r@.created_at == r@.updated_at,
            r@.tags == Seq::<Seq<char>>::empty(),
            r@.source == Source::Local,
            r@.author_type == AuthorType::Ai,
            r@.trust_score as int == spec_initial_trust(
                TrustConfig::spec_default(),
                AuthorType::Ai,
                Source::Local,
            ),
    {
        let mut title = original.title.clone();
        title.append(" (extension)");
        let mut fact = Fact::new(original.path.as_str(), title.as_str(), additional_content);
        fact.fact_type = FactType::Extension;
        let mut extends: Vec<u128> = Vec::new();
        extends.push(original.id);
        proof {
            assert(extends@ =~= seq![original.id]);
        }
        fact.extends = extends;
        fact
    }

    /// Replace the tags.
    pub fn with_tags(self, tags: Vec<String>) -> (r: Fact)
        ensures
            r@ == (FactModel { tags: tags@.map_values(|t: String| t@), ..self@ }),
    {
        Fact { tags, ..self }
    }

    /// Replace the source.
    pub fn with_source(self, source: Source) -> (r: Fact)
        ensures
            r@ == (FactModel { source, ..self@ }),
    {
        Fact { source, ..self }
    }

    /// Replace the author.
    pub fn with_author(self, author_type: AuthorType, author_id: &str) -> (r: Fact)
        ensures
            r@ == (FactModel { author_type, author_id: author_id@, ..self@ }),
    {
        Fact { author_type, author_id: author_id.to_owned(), ..self }
    }

    /// Derive and store the summary from the content, once, under a
    /// character budget. No other field changes.
    pub fn generate_summary(&mut self, max_chars: usize)
        ensures
            final(self)@ == (FactModel {
                summary: Some(spec_summary(old(self)@.content, max_chars as nat)),
                ..old(self)@
            }),
    {
        let sum = summarize(self.content.as_str(), max_chars);
        self.summary = Some(sum);
    }

    /// The first eight characters of the identifier's canonical text, in
    /// lowercase.
    pub fn short_id(&self) -> (r: String)
        ensures
            r@.len() == 8,
            forall|i: int|
                0 <= i < 8 ==> (#[trigger] r@[i]) as u32 == lower_code(
                    crate::ids::ulid_text_of(self@.id)[i] as u32,
                ),
    {
        let full = crate::ids::id_text(self.id);
        let first8 = full.as_str().substring_char(0, 8);
        proof {
            assert(crate::text::is_ascii_seq(first8@));
        }
        let lower = crate::text::ascii_lower(first8);
        proof {
            assert(forall|i: int|
                0 <= i < 8 ==> #[trigger] first8@[i] == crate::ids::ulid_text_of(self@.id)[i]);
        }
        lower
    }

    /// The identifier in its user-facing form: `meh-` plus the short id.
    pub fn meh_id(&self) -> (r: String)
        ensures
            r@.len() == 12,
            r@.subrange(0, 4) == "meh-"@,
            forall|i: int|
                4 <= i < 12 ==> (#[trigger] r@[i]) as u32 == lower_code(
                    crate::ids::ulid_text_of(self@.id)[i - 4] as u32,
                ),
    {
        let short = self.short_id();
        let mut r = String::from_str("meh-");
        r.append(short.as_str());
        proof {
            reveal_strlit("meh-");
            assert(r@.subrange(0, 4) =~= "meh-"@);
        }
        r
    }

    /// A one-line rendering: the user-facing id, the path and the title.
    pub fn display_string(&self) -> (r: String)
        ensures
            exists|mid: Seq<char>|
                mid.len() == 12 && #[trigger] mid.subrange(0, 4) == "meh-"@ && r@ == "["@ + mid
                    + "] "@ + self@.path + ": "@ + self@.title,
    {
        let mid = self.meh_id();
        let mut r = String::from_str("[");
        r.append(mid.as_str());
        r.append("] ");
        r.append(self.path.as_str());
        r.append(": ");
        r.append(self.title.as_str());
        proof {
            assert(mid@.subrange(0, 4) == "meh-"@);
            assert(r@ == "["@ + mid@ + "] "@ + self@.path + ": "@ + self@.title);
        }
        r
    }

    /// Recompute the trust score from the fact's current state against the
    /// clock. Every other field is untouched, and the new score is in
    /// `[0, 1000]` for every clock reading.
    pub fn recalculate_trust(&mut self, confirmation_count: u32)
        ensures
            final(self)@ == (FactModel { trust_score: final(self)@.trust_score, ..old(self)@ }),
            final(self)@.trust_score <= 1000,
            exists|now: i64|
                final(self)@.trust_score as int == #[trigger] spec_effective_trust(
                    TrustConfig::spec_default(),
                    spec_initial_trust(
                        TrustConfig::spec_default(),
                        old(self)@.author_type,
                        old(self)@.source,
                    ) as u32,
                    old(self)@.created_at,
                    now,
                    old(self)@.status,
                    old(self)@.fact_type,
                    confirmation_count as nat,
                ),
    {
        let calc = TrustCalculator::new();
        let base = calc.initial_trust(self.author_type, self.source);
        let nowv = crate::clock::now_millis();
        let t = calc.effective_trust_at(
            base,
            self.created_at,
            nowv,
            self.status,
            self.fact_type,
            confirmation_count,
        );
        self.trust_score = t;
        proof {
            let cfg = TrustConfig::spec_default();
            assert(base == spec_initial_trust(cfg, old(self)@.author_type, old(self)@.source)
                as u32);
            assert(self.trust_score as int == spec_effective_trust(
                cfg,
                spec_initial_trust(cfg, old(self)@.author_type, old(self)@.source) as u32,
                old(self)@.created_at,
                nowv,
                old(self)@.status,
                old(self)@.fact_type,
                confirmation_count as nat,
            ));
        }
    }
}

} // verus!
