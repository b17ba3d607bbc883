//! Query filtering and token budgets over the store's ranked search.

use meh::fact::Fact;
use meh::search::{search, truncate_to_budget, SearchQuery, SearchResult};
use meh::storage::Storage;
use meh::StoreError;

#[test]
fn test_estimate_tokens() -> Result<(), StoreError> {
    let mut storage = Storage::open_memory()?;
    let mut fact = Fact::new("@test", "Title", "This is content.");
    fact.generate_summary(100);
    storage.insert(&fact)?;

    let results = search(&storage, &SearchQuery::new("content"))?;
    assert_eq!(results.len(), 1);
    assert!(results[0].token_count > 0);
    Ok(())
}

#[test]
fn test_truncate_to_budget() {
    let results = vec![
        SearchResult {
            fact: Fact::new("@a", "A", "Content A"),
            relevance: 1000,
            token_count: 100,
        },
        SearchResult {
            fact: Fact::new("@b", "B", "Content B"),
            relevance: 900,
            token_count: 100,
        },
        SearchResult {
            fact: Fact::new("@c", "C", "Content C"),
            relevance: 800,
            token_count: 100,
        },
    ];

    let truncated = truncate_to_budget(results, 250);
    assert_eq!(truncated.len(), 2);
}

#[test]
fn test_search_filters_by_path_and_trust() -> Result<(), StoreError> {
    let mut storage = Storage::open_memory()?;
    storage.insert(&Fact::new("@products/alpha/note", "Widget", "widget facts"))?;
    storage.insert(&Fact::new("@users/kasia/note", "Widget", "widget facts"))?;

    let q = SearchQuery::new("widget").with_path("@products/");
    let results = search(&storage, &q)?;
    assert_eq!(results.len(), 1);
    assert!(results[0].fact.path.starts_with("@products"));

    let strict = SearchQuery::new("widget").with_min_trust(900);
    let none = search(&storage, &strict)?;
    assert!(none.is_empty());
    Ok(())
}

#[test]
fn test_search_filters_by_tags() -> Result<(), StoreError> {
    let mut storage = Storage::open_memory()?;
    storage.insert(
        &Fact::new("@a/one", "Widget", "tagged widget").with_tags(vec!["api".to_string()]),
    )?;
    storage.insert(&Fact::new("@a/two", "Widget", "untagged widget"))?;

    let q = SearchQuery::new("widget").with_tags(vec!["api".to_string()]);
    let results = search(&storage, &q)?;
    assert_eq!(results.len(), 1);
    assert_eq!(results[0].fact.path, "@a/one");
    Ok(())
}
