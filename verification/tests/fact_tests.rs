//! Fact construction, derivation and identifiers.

use meh::fact::{AuthorType, Fact, FactType, Source, Status};
use std::time::{SystemTime, UNIX_EPOCH};

fn now_ms() -> i64 {
    SystemTime::now().duration_since(UNIX_EPOCH).unwrap().as_millis() as i64
}

#[test]
fn test_new_fact() {
    let fact = Fact::new(
        "@products/alpha/api/timeout",
        "API Timeout",
        "API timeout is 30 seconds.",
    );

    assert!(!fact.short_id().is_empty());
    assert_eq!(fact.path, "@products/alpha/api/timeout");
    assert_eq!(fact.title, "API Timeout");
    assert!(((fact.trust_score as f64) / 1000.0 - 0.5).abs() < f64::EPSILON);
    assert_eq!(fact.status, Status::Active);
}

#[test]
fn test_correction() {
    let original = Fact::new(
        "@products/alpha/api/timeout",
        "API Timeout",
        "API timeout is 30 seconds.",
    );

    let correction = Fact::correction(&original, "API timeout is 60 seconds.");

    assert_eq!(correction.supersedes, Some(original.id));
    assert_eq!(correction.fact_type, FactType::Correction);
    assert_eq!(correction.path, original.path);
    assert_eq!(correction.title, "Correction: API Timeout");
}

#[test]
fn test_generate_summary() {
    let mut fact = Fact::new("@test", "Test", "This is the first sentence. This is the second.");
    fact.generate_summary(100);
    assert_eq!(fact.summary, Some("This is the first sentence.".to_string()));
}

#[test]
fn test_meh_id() {
    let fact = Fact::new("@test", "Test", "Content");
    let meh_id = fact.meh_id();
    assert!(meh_id.starts_with("meh-"));
    assert_eq!(meh_id.len(), 12);
}

#[test]
fn test_extension() {
    let original = Fact::new("@test/path", "Original", "Original content");
    let extension = Fact::extension(&original, "Additional info");

    assert_eq!(extension.extends, vec![original.id]);
    assert_eq!(extension.fact_type, FactType::Extension);
    assert!(extension.title.contains("extension"));
}

#[test]
fn test_with_tags() {
    let fact =
        Fact::new("@test", "Test", "Content").with_tags(vec!["bug".to_string(), "critical".to_string()]);

    assert_eq!(fact.tags.len(), 2);
    assert!(fact.tags.contains(&"bug".to_string()));
}

#[test]
fn test_with_source() {
    let fact = Fact::new("@test", "Test", "Content").with_source(Source::Company);

    assert_eq!(fact.source, Source::Company);
}

#[test]
fn test_with_author() {
    let fact = Fact::new("@test", "Test", "Content").with_author(AuthorType::Human, "user123");

    assert_eq!(fact.author_type, AuthorType::Human);
    assert_eq!(fact.author_id, "user123");
}

#[test]
fn test_new_with_author_trust() {
    let ai_fact = Fact::new_with_author("@test", "AI Fact", "Content", AuthorType::Ai, "gpt-4");
    assert!(((ai_fact.trust_score as f64) / 1000.0 - 0.5).abs() < f64::EPSILON);

    let human_fact =
        Fact::new_with_author("@test", "Human Fact", "Content", AuthorType::Human, "john");
    assert!(((human_fact.trust_score as f64) / 1000.0 - 0.8).abs() < f64::EPSILON);
}

#[test]
fn test_source_from_str() {
    assert_eq!("local".parse::<Source>().unwrap(), Source::Local);
    assert_eq!("company".parse::<Source>().unwrap(), Source::Company);
    assert_eq!("global".parse::<Source>().unwrap(), Source::Global);
    assert_eq!("npm".parse::<Source>().unwrap(), Source::Npm);
    assert!("unknown".parse::<Source>().is_err());
}

#[test]
fn test_source_display() {
    assert_eq!(Source::Local.as_str(), "local");
    assert_eq!(Source::Company.as_str(), "company");
}

#[test]
fn test_generate_summary_long_content() {
    let long_content = "This is a very long piece of content that exceeds the maximum character limit and should be truncated at a word boundary to avoid cutting words in the middle";
    let mut fact = Fact::new("@test", "Test", long_content);
    fact.generate_summary(50);

    let summary = fact.summary.unwrap();
    assert!(summary.len() <= 53);
    assert!(summary.ends_with("..."));
}

#[test]
fn test_generate_summary_short_content() {
    let mut fact = Fact::new("@test", "Test", "Short.");
    fact.generate_summary(100);
    assert_eq!(fact.summary, Some("Short.".to_string()));
}

#[test]
fn test_short_id() {
    let fact = Fact::new("@test", "Test", "Content");
    let short = fact.short_id();
    assert_eq!(short.len(), 8);
    assert_eq!(short, short.to_lowercase());
}

#[test]
fn fact_test_display() {
    let fact = Fact::new("@test/path", "My Title", "Content");
    let display = fact.display_string();
    assert!(display.contains("meh-"));
    assert!(display.contains("@test/path"));
    assert!(display.contains("My Title"));
}

#[test]
fn test_status_default() {
    let fact = Fact::new("@test", "Test", "Content");
    assert_eq!(fact.status, Status::Active);
}

#[test]
fn test_fact_type_default() {
    let fact = Fact::new("@test", "Test", "Content");
    assert_eq!(fact.fact_type, FactType::Fact);
}

#[test]
fn test_timestamps() {
    let before = now_ms();
    let fact = Fact::new("@test", "Test", "Content");
    let after = now_ms();

    assert!(fact.created_at >= before);
    assert!(fact.created_at <= after);
    assert_eq!(fact.created_at, fact.updated_at);
    assert!(fact.accessed_at.is_none());
}

#[test]
fn test_correction_preserves_tags() {
    let original = Fact::new("@test", "Test", "Content").with_tags(vec!["important".to_string()]);

    let correction = Fact::correction(&original, "New content");
    assert_eq!(correction.tags, vec!["important".to_string()]);
}

#[test]
fn test_unique_ids() {
    let fact1 = Fact::new("@test", "Test1", "Content1");
    let fact2 = Fact::new("@test", "Test2", "Content2");
    assert_ne!(fact1.id, fact2.id);
}

#[test]
fn test_summary_no_word_boundary() {
    let mut fact = Fact::new("@test", "Test", "abcdefghijklmnopqrstuvwxyz");
    fact.generate_summary(10);
    assert_eq!(fact.summary, Some("abcdefghij...".to_string()));
}

#[test]
fn test_recalculate_trust_in_range() {
    let mut fact = Fact::new("@test", "Test", "Content").with_author(AuthorType::Human, "a");
    fact.status = Status::Deprecated;
    fact.recalculate_trust(50);
    assert!(fact.trust_score <= 1000);
}

#[test]
fn test_unknown_source_is_serialization_error() {
    assert_eq!("weird".parse::<Source>(), Err(meh::StoreError::SerializationError));
}

#[test]
fn test_status_names_round_trip() {
    for status in [
        Status::Active,
        Status::Superseded,
        Status::Deprecated,
        Status::Archived,
        Status::PendingReview,
    ] {
        assert_eq!(Status::parse_str(status.as_str()), status);
    }
    assert_eq!(Status::parse_str("garbage"), Status::Active);
}
