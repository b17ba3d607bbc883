//! The fact store: insert, lookup, search, listing, transitions and
//! garbage collection.

use meh::fact::{Fact, Status};
use meh::storage::{GcReason, Storage};
use meh::StoreError;
use std::time::{SystemTime, UNIX_EPOCH};

fn now_ms() -> i64 {
    SystemTime::now().duration_since(UNIX_EPOCH).unwrap().as_millis() as i64
}

const DAY_MS: i64 = 86_400_000;

#[test]
fn test_create_and_query() -> Result<(), StoreError> {
    let mut storage = Storage::open_memory()?;

    let fact = Fact::new(
        "@products/alpha/api/timeout",
        "API Timeout",
        "API timeout is 30 seconds.",
    );

    storage.insert(&fact)?;

    let retrieved = storage.get_by_id(fact.id)?;
    assert!(retrieved.is_some());
    assert_eq!(retrieved.unwrap().title, "API Timeout");

    Ok(())
}

#[test]
fn test_search() -> Result<(), StoreError> {
    let mut storage = Storage::open_memory()?;

    storage.insert(&Fact::new(
        "@products/alpha/api/timeout",
        "API Timeout",
        "API timeout is 30 seconds.",
    ))?;

    storage.insert(&Fact::new(
        "@products/beta/api/timeout",
        "Beta API Timeout",
        "Beta API timeout is 60 seconds.",
    ))?;

    let results = storage.search("timeout", 10)?;
    assert_eq!(results.len(), 2);

    Ok(())
}

#[test]
fn test_path_prefix() -> Result<(), StoreError> {
    let mut storage = Storage::open_memory()?;

    storage.insert(&Fact::new("@products/alpha/api/timeout", "T1", "C1"))?;
    storage.insert(&Fact::new("@products/alpha/api/rate", "T2", "C2"))?;
    storage.insert(&Fact::new("@products/beta/api/timeout", "T3", "C3"))?;

    let alpha_facts = storage.get_by_path_prefix("@products/alpha")?;
    assert_eq!(alpha_facts.len(), 2);

    Ok(())
}

#[test]
fn test_garbage_collect_deprecated() -> Result<(), StoreError> {
    let mut storage = Storage::open_memory()?;

    // a deprecated fact with an old timestamp
    let mut fact = Fact::new("@test/deprecated", "Old fact", "This is deprecated");
    fact.status = Status::Deprecated;
    fact.updated_at = now_ms() - 60 * DAY_MS;
    storage.insert(&fact)?;

    // an active fact
    storage.insert(&Fact::new("@test/active", "Active", "Keep this"))?;

    // a dry run finds the deprecated fact and deletes nothing
    let dry_result = storage.garbage_collect(30, true)?;
    assert_eq!(dry_result.candidates.len(), 1);
    assert_eq!(dry_result.deleted_count, 0);

    // the real pass deletes it
    let result = storage.garbage_collect(30, false)?;
    assert_eq!(result.deleted_count, 1);

    // the active fact survives
    let stats = storage.stats()?;
    assert_eq!(stats.total_facts, 1);

    Ok(())
}

#[test]
fn test_garbage_collect_respects_retention() -> Result<(), StoreError> {
    let mut storage = Storage::open_memory()?;

    // recently deprecated: must not be collected
    let mut recent = Fact::new("@test/recent", "Recent", "Recently deprecated");
    recent.status = Status::Deprecated;
    recent.updated_at = now_ms() - 5 * DAY_MS;
    storage.insert(&recent)?;

    // deprecated long ago: must be collected
    let mut old = Fact::new("@test/old", "Old", "Long ago deprecated");
    old.status = Status::Deprecated;
    old.updated_at = now_ms() - 60 * DAY_MS;
    storage.insert(&old)?;

    let result = storage.garbage_collect(30, false)?;
    assert_eq!(result.deleted_count, 1);

    let remaining = storage.get_by_id(recent.id)?;
    assert!(remaining.is_some());

    let deleted = storage.get_by_id(old.id)?;
    assert!(deleted.is_none());

    Ok(())
}

#[test]
fn test_garbage_collect_empty_db() -> Result<(), StoreError> {
    let mut storage = Storage::open_memory()?;

    let result = storage.garbage_collect(30, false)?;
    assert_eq!(result.deleted_count, 0);
    assert!(result.candidates.is_empty());

    Ok(())
}

#[test]
fn test_insert_duplicate_id_fails() -> Result<(), StoreError> {
    let mut storage = Storage::open_memory()?;
    let fact = Fact::new("@test", "Test", "Content");
    storage.insert(&fact)?;
    assert_eq!(storage.insert(&fact), Err(StoreError::BackendError));
    assert_eq!(storage.stats()?.total_facts, 1);
    Ok(())
}

#[test]
fn test_fields_unchanged_after_reread() -> Result<(), StoreError> {
    let mut storage = Storage::open_memory()?;
    let fact = Fact::new("@test/p", "Title", "Body").with_tags(vec!["t1".to_string()]);
    storage.insert(&fact)?;
    storage.mark_superseded(fact.id)?;
    let back = storage.get_by_id(fact.id)?.unwrap();
    assert_eq!(back.id, fact.id);
    assert_eq!(back.path, fact.path);
    assert_eq!(back.title, fact.title);
    assert_eq!(back.content, fact.content);
    assert_eq!(back.tags, fact.tags);
    assert_eq!(back.created_at, fact.created_at);
    assert_eq!(back.status, Status::Superseded);
    Ok(())
}

#[test]
fn test_approve_and_reject() -> Result<(), StoreError> {
    let mut storage = Storage::open_memory()?;

    let mut pending = Fact::new("@review/a", "Pending A", "Awaiting approval");
    pending.status = Status::PendingReview;
    storage.insert(&pending)?;

    let mut rejected = Fact::new("@review/b", "Pending B", "To be rejected");
    rejected.status = Status::PendingReview;
    storage.insert(&rejected)?;

    assert_eq!(storage.get_pending_review()?.len(), 2);

    storage.approve_fact(pending.id)?;
    let approved = storage.get_by_id(pending.id)?.unwrap();
    assert_eq!(approved.status, Status::Active);

    storage.reject_fact(rejected.id)?;
    assert!(storage.get_by_id(rejected.id)?.is_none());

    // neither is pending any more
    assert!(storage.get_pending_review()?.is_empty());
    assert_eq!(storage.approve_fact(rejected.id), Err(StoreError::NotFound));
    Ok(())
}

#[test]
fn test_get_by_path_active_only() -> Result<(), StoreError> {
    let mut storage = Storage::open_memory()?;
    let a = Fact::new("@svc/x", "A", "First");
    storage.insert(&a)?;
    let b = Fact::new("@svc/x", "B", "Second");
    storage.insert(&b)?;
    storage.mark_deprecated(a.id)?;
    let found = storage.get_by_path("@svc/x")?;
    assert_eq!(found.len(), 1);
    assert_eq!(found[0].title, "B");
    Ok(())
}

#[test]
fn test_list_children_groups_and_counts() -> Result<(), StoreError> {
    let mut storage = Storage::open_memory()?;
    storage.insert(&Fact::new("@products/alpha/api", "1", "a"))?;
    storage.insert(&Fact::new("@products/alpha/db", "2", "b"))?;
    storage.insert(&Fact::new("@products/beta", "3", "c"))?;
    storage.insert(&Fact::new("@users/kasia", "4", "d"))?;

    let (groups, has_more) = storage.list_children("@products", 10, None)?;
    assert!(!has_more);
    assert_eq!(groups.len(), 2);
    assert_eq!(groups[0].path, "@products/alpha");
    assert_eq!(groups[0].fact_count, 2);
    assert_eq!(groups[1].path, "@products/beta");
    assert_eq!(groups[1].fact_count, 1);

    let (roots, _) = storage.list_children("@", 10, None)?;
    assert_eq!(roots.len(), 2);
    assert_eq!(roots[0].path, "@products");
    assert_eq!(roots[1].path, "@users");
    Ok(())
}

#[test]
fn test_pagination_concatenates_to_full_listing() -> Result<(), StoreError> {
    let mut storage = Storage::open_memory()?;
    for seg in ["a", "b", "c", "d", "e"] {
        let path = format!("@top/{}/leaf", seg);
        storage.insert(&Fact::new(&path, "t", "c"))?;
    }

    let full = storage.list_children_all("@top")?;
    assert_eq!(full.len(), 5);

    let mut collected = Vec::new();
    let mut cursor: Option<String> = None;
    loop {
        let (page, has_more) = storage.list_children("@top", 2, cursor.as_deref())?;
        assert!(page.len() <= 2);
        collected.extend(page);
        if !has_more {
            break;
        }
        cursor = Some(collected.last().unwrap().path.clone());
    }

    assert_eq!(collected.len(), full.len());
    for (a, b) in collected.iter().zip(full.iter()) {
        assert_eq!(a.path, b.path);
        assert_eq!(a.fact_count, b.fact_count);
    }
    // lexicographic, no duplicates
    for w in collected.windows(2) {
        assert!(w[0].path < w[1].path);
    }
    Ok(())
}

#[test]
fn test_history_chain_scenario() -> Result<(), StoreError> {
    // the end-to-end correction flow
    let mut storage = Storage::open_memory()?;
    let a = Fact::new("@svc/timeout", "Timeout", "Timeout is 30s.");
    storage.insert(&a)?;

    let found = storage.search("timeout", 10)?;
    assert_eq!(found.len(), 1);
    assert_eq!(found[0].id, a.id);

    let b = Fact::correction(&a, "Timeout is 60s.");
    assert_eq!(b.supersedes, Some(a.id));
    storage.insert(&b)?;

    storage.mark_superseded(a.id)?;

    let at_path = storage.get_by_path("@svc/timeout")?;
    assert_eq!(at_path.len(), 1);
    assert_eq!(at_path[0].id, b.id);

    let chain = storage.get_history_chain(b.id)?;
    assert_eq!(chain.len(), 2);
    assert_eq!(chain[0].id, a.id);
    assert_eq!(chain[1].id, b.id);

    let forward = storage.get_superseding_facts(a.id)?;
    assert_eq!(forward.len(), 1);
    assert_eq!(forward[0].id, b.id);
    Ok(())
}

#[test]
fn test_gc_dry_run_then_delete_scenario() -> Result<(), StoreError> {
    let mut storage = Storage::open_memory()?;

    let mut doomed = Fact::new("@old/one", "Doomed", "Deprecated long ago");
    doomed.status = Status::Deprecated;
    doomed.updated_at = now_ms() - 60 * DAY_MS;
    storage.insert(&doomed)?;

    let keep = Fact::new("@fresh/one", "Keep", "Still active");
    storage.insert(&keep)?;

    let dry = storage.garbage_collect(30, true)?;
    assert_eq!(dry.deleted_count, 0);
    assert_eq!(dry.candidates.len(), 1);
    assert_eq!(dry.candidates[0].id, doomed.id);
    assert!(matches!(dry.candidates[0].reason, GcReason::Deprecated));
    assert!(storage.get_by_id(doomed.id)?.is_some());

    let real = storage.garbage_collect(30, false)?;
    assert_eq!(real.deleted_count, 1);
    assert!(storage.get_by_id(doomed.id)?.is_none());
    assert!(storage.get_by_id(keep.id)?.is_some());
    Ok(())
}

#[test]
fn test_gc_never_removes_active_or_pending() -> Result<(), StoreError> {
    let mut storage = Storage::open_memory()?;

    // an active fact that is referenced by a correction but never marked
    let a = Fact::new("@svc/value", "Original", "Old value");
    storage.insert(&a)?;
    let b = Fact::correction(&a, "New value");
    storage.insert(&b)?;

    let mut pending = Fact::new("@svc/pending", "Pending", "Awaiting review");
    pending.status = Status::PendingReview;
    pending.updated_at = now_ms() - 400 * DAY_MS;
    storage.insert(&pending)?;

    let result = storage.garbage_collect(0, false)?;
    assert_eq!(result.deleted_count, 0);
    assert!(storage.get_by_id(a.id)?.is_some());
    assert!(storage.get_by_id(pending.id)?.is_some());
    Ok(())
}

#[test]
fn test_search_ranks_title_over_content() -> Result<(), StoreError> {
    let mut storage = Storage::open_memory()?;
    let in_content = Fact::new("@notes/one", "Other", "All about widget internals");
    storage.insert(&in_content)?;
    let in_title = Fact::new("@notes/two", "Widget", "Something else entirely");
    storage.insert(&in_title)?;

    let results = storage.search("widget", 10)?;
    assert_eq!(results.len(), 2);
    assert_eq!(results[0].id, in_title.id);
    Ok(())
}

#[test]
fn test_search_case_insensitive_and_delimited() -> Result<(), StoreError> {
    let mut storage = Storage::open_memory()?;
    storage.insert(&Fact::new("@svc/timeout", "Timeout", "Timeout is 30s."))?;
    storage.insert(&Fact::new("@svc/other", "Other", "timeouts are different words"))?;

    let results = storage.search("TIMEOUT", 10)?;
    assert_eq!(results.len(), 1);

    let none = storage.search("", 10)?;
    assert!(none.is_empty());
    Ok(())
}

#[test]
fn test_stats_counts_by_status() -> Result<(), StoreError> {
    let mut storage = Storage::open_memory()?;
    storage.insert(&Fact::new("@a", "A", "x"))?;
    let mut d = Fact::new("@b", "B", "y");
    d.status = Status::Deprecated;
    storage.insert(&d)?;
    let mut p = Fact::new("@c", "C", "z");
    p.status = Status::PendingReview;
    storage.insert(&p)?;

    let stats = storage.stats()?;
    assert_eq!(stats.total_facts, 3);
    assert_eq!(stats.active_facts, 1);
    assert_eq!(stats.deprecated_facts, 1);
    assert_eq!(stats.pending_review_facts, 1);
    Ok(())
}
