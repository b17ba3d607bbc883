//! Path parsing, navigation and wildcard matching.

use meh::path::Path;

#[test]
fn test_parse_simple() {
    let path = Path::parse("@products/alpha/api/timeout").unwrap();
    assert_eq!(path.segments().len(), 4);
    assert_eq!(path.segments()[0], "@products");
    assert_eq!(path.segments()[3], "timeout");
}

#[test]
fn test_parse_with_slashes() {
    let path1 = Path::parse("/products/alpha/").unwrap();
    let path2 = Path::parse("products/alpha").unwrap();
    assert_eq!(path1.segments(), path2.segments());
}

#[test]
fn test_root() {
    let path = Path::parse("/").unwrap();
    assert!(path.is_root());
    assert_eq!(path.depth(), 0);
}

#[test]
fn test_parent() {
    let path = Path::parse("@products/alpha/api").unwrap();
    let parent = path.parent().unwrap();
    assert_eq!(parent.to_string(), "@products/alpha");
}

#[test]
fn test_starts_with() {
    let path = Path::parse("@products/alpha/api/timeout").unwrap();
    let prefix = Path::parse("@products/alpha").unwrap();
    assert!(path.starts_with(&prefix));
}

#[test]
fn test_join() {
    let path = Path::parse("@products/alpha").unwrap();
    let joined = path.join("api/timeout").unwrap();
    assert_eq!(joined.to_string(), "@products/alpha/api/timeout");
}

#[test]
fn test_wildcard_single() {
    let path = Path::parse("@products/alpha/api/timeout").unwrap();
    assert!(path.matches_pattern("@products/*/api/timeout"));
    assert!(!path.matches_pattern("@products/*/database/timeout"));
}

#[test]
fn test_wildcard_double() {
    let path = Path::parse("@products/alpha/api/v2/timeout").unwrap();
    assert!(path.matches_pattern("@products/**/timeout"));
    assert!(path.matches_pattern("@products/alpha/**/timeout"));
}

#[test]
fn test_deep_path() {
    let path =
        Path::parse("@products/alpha/api/v2/commands/users/create/validation/email/format")
            .unwrap();
    assert_eq!(path.depth(), 10);
}

#[test]
fn test_empty_path_error() {
    assert!(Path::parse("").is_err());
    assert!(Path::parse("   ").is_err());
}

#[test]
fn test_invalid_characters() {
    assert!(Path::parse("@products/my path").is_err());
    assert!(Path::parse("@products/path!name").is_err());
    assert!(Path::parse("@products/path#name").is_err());
}

#[test]
fn test_valid_characters() {
    assert!(Path::parse("@my_product/api-v2").is_ok());
    assert!(Path::parse("@meh/todo").is_ok());
}

#[test]
fn test_name() {
    let path = Path::parse("@products/alpha/timeout").unwrap();
    assert_eq!(path.name(), Some("timeout"));

    let root = Path::parse("/").unwrap();
    assert_eq!(root.name(), None);
}

#[test]
fn test_parent_chain() {
    let path = Path::parse("@a/b/c/d").unwrap();
    let p1 = path.parent().unwrap();
    assert_eq!(p1.to_string(), "@a/b/c");
    let p2 = p1.parent().unwrap();
    assert_eq!(p2.to_string(), "@a/b");
    let p3 = p2.parent().unwrap();
    assert_eq!(p3.to_string(), "@a");
    let p4 = p3.parent().unwrap();
    assert!(p4.is_root());
    assert!(p4.parent().is_none());
}

#[test]
fn test_starts_with_self() {
    let path = Path::parse("@products/alpha").unwrap();
    assert!(path.starts_with(&path));
}

#[test]
fn test_starts_with_longer_prefix() {
    let path = Path::parse("@products").unwrap();
    let longer = Path::parse("@products/alpha/beta").unwrap();
    assert!(!path.starts_with(&longer));
}

#[test]
fn test_wildcard_at_start() {
    let path = Path::parse("@products/alpha/api").unwrap();
    assert!(path.matches_pattern("*/alpha/api"));
    assert!(path.matches_pattern("**/api"));
}

#[test]
fn test_wildcard_double_zero_segments() {
    let path = Path::parse("@products/timeout").unwrap();
    assert!(path.matches_pattern("@products/**/timeout"));
}

#[test]
fn path_test_display() {
    let path = Path::parse("@meh/todo/item").unwrap();
    assert_eq!(path.to_string(), "@meh/todo/item");

    let root = Path::parse("/").unwrap();
    assert_eq!(root.to_string(), "/");
}

#[test]
fn test_try_from_str() {
    let path: Path = "@test/path".try_into().unwrap();
    assert_eq!(path.depth(), 2);
}

#[test]
fn test_try_from_string() {
    let path: Path = String::from("@test/path").try_into().unwrap();
    assert_eq!(path.depth(), 2);
}

#[test]
fn test_reserved_prefix() {
    let reserved = Path::parse("@products/alpha").unwrap();
    assert!(reserved.is_reserved_prefix());

    let not_reserved = Path::parse("@meh/todo").unwrap();
    assert!(!not_reserved.is_reserved_prefix());

    let custom = Path::parse("@custom/path").unwrap();
    assert!(!custom.is_reserved_prefix());
}

#[test]
fn test_join_empty() {
    let path = Path::parse("@products").unwrap();
    let joined = path.join("").unwrap();
    assert_eq!(joined.to_string(), "@products");
}

#[test]
fn test_multiple_consecutive_slashes() {
    let path = Path::parse("@products//alpha///beta").unwrap();
    assert_eq!(path.segments().len(), 3);
    assert_eq!(path.segments(), &["@products", "alpha", "beta"]);
}

#[test]
fn test_wildcard_examples() {
    let abc = Path::parse("@a/b/c").unwrap();
    assert!(abc.matches_pattern("@a/*/c"));
    assert!(!abc.matches_pattern("@a/*/d"));
    let abcd = Path::parse("@a/b/c/d").unwrap();
    assert!(abcd.matches_pattern("@a/**/d"));
    let ad = Path::parse("@a/d").unwrap();
    assert!(ad.matches_pattern("@a/**/d"));
}

#[test]
fn test_roundtrip_reparse() {
    for p in ["@a", "@a/b", "@products/alpha/api", "/"] {
        let parsed = Path::parse(p).unwrap();
        let text = parsed.to_string();
        let reparsed = Path::parse(&text).unwrap();
        assert_eq!(reparsed.to_string(), text);
        assert_eq!(reparsed.segments(), parsed.segments());
    }
}

#[test]
fn test_join_invalid() {
    let path = Path::parse("@products").unwrap();
    assert!(path.join("bad segment").is_err());
}
