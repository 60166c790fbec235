//! Scenarios of the storage layer, driven through the library's decisions
//! with the values that the stored rows hold.

use ai_memory::access::{plan_access, AccessState};
use ai_memory::models::Tier;
use ai_memory::store::{
    capped_limit, check_all_found, check_link_endpoints, plan_consolidation, plan_update, recall_candidate_passes,
    MemoryFields, RecallFilters, SourceMemory,
};
use ai_memory::upsert::{merge_sync, RowFields};
use ai_memory::validate::strip_invisible;

const NOW: &str = "2026-04-12T10:00:00+00:00";
const IN_AN_HOUR: &str = "2026-04-12T11:00:00+00:00";
const IN_A_WEEK: &str = "2026-04-19T10:00:00+00:00";

fn memory_fields(title: &str) -> MemoryFields {
    MemoryFields {
        title: title.to_string(),
        content: format!("Content for {title}"),
        tier: Tier::Mid,
        namespace: "test".to_string(),
        tags: vec![],
        priority: 5,
        expires_at: Some(IN_A_WEEK.to_string()),
    }
}

fn row(tier: Tier, content: &str, updated_at: &str) -> RowFields {
    RowFields {
        tier,
        content: content.to_string(),
        tags_json: "[]".to_string(),
        priority: 5,
        source: "test".to_string(),
        access_count: 0,
        updated_at: updated_at.to_string(),
        expires_at: None,
    }
}

#[test]
fn touch_increments_access_count() {
    let fresh = AccessState {
        tier: Tier::Mid,
        access_count: 0,
        priority: 5,
        expires_at: Some(IN_A_WEEK.to_string()),
    };
    assert_eq!(fresh.access_count, 0);
    let once = plan_access(&fresh, IN_AN_HOUR, IN_A_WEEK, 5).state;
    assert_eq!(once.access_count, 1);
    let twice = plan_access(&once, IN_AN_HOUR, IN_A_WEEK, 5).state;
    assert_eq!(twice.access_count, 2);
}

#[test]
fn insert_if_newer_updates() {
    let stored = row(Tier::Long, "Content for Sync test", NOW);
    let written = row(Tier::Long, "Updated via sync", IN_AN_HOUR);
    let merged = merge_sync(&stored, &written);
    assert_eq!(merged.content, "Updated via sync");
}

#[test]
fn insert_if_newer_strips_invisible() {
    assert_eq!(strip_invisible("Clean\u{200B}Title"), "CleanTitle");
    assert_eq!(strip_invisible("Clean\u{200D}Content"), "CleanContent");
}

#[test]
fn insert_strips_invisible_unicode() {
    assert_eq!(strip_invisible("Post\u{200B}greSQL config"), "PostgreSQL config");
    assert_eq!(strip_invisible("zero\u{200D}width content"), "zerowidth content");
}

#[test]
fn create_link_rejects_nonexistent_source() {
    let result = check_link_endpoints("nonexistent", "some-id", false, true);
    assert!(result.is_err());
    assert!(result.unwrap_err().message().contains("source memory not found"));
}

#[test]
fn create_link_rejects_nonexistent_target() {
    let result = check_link_endpoints("some-id", "nonexistent", true, false);
    assert!(result.is_err());
    assert!(result.unwrap_err().message().contains("target memory not found"));
}

#[test]
fn consolidate_preserves_provenance_tags() {
    let sources = vec![
        SourceMemory { id: "id-a".to_string(), priority: 5, tags: vec![], access_count: 0 },
        SourceMemory { id: "id-b".to_string(), priority: 5, tags: vec![], access_count: 0 },
    ];
    let plan = plan_consolidation(&sources, "Summary");
    assert!(
        plan.tags.iter().any(|t| t.starts_with("consolidated-from:")),
        "provenance tags missing"
    );
    assert!(
        plan.content.contains("Consolidated from:"),
        "provenance footer missing from content"
    );
}

#[test]
fn update_partial_fields() {
    let existing = memory_fields("Original");
    let plan = plan_update(&existing, Some("Updated Title"), None, None, None, None, Some(9), None);
    assert_eq!(plan.fields.title, "Updated Title");
    assert_eq!(plan.fields.priority, 9);
    assert_eq!(plan.fields.content, existing.content);
}

#[test]
fn update_clears_embedding_on_content_change() {
    let existing = memory_fields("Embed test");
    let plan = plan_update(&existing, None, Some("new content"), None, None, None, None, None);
    assert!(plan.content_changed);
}

#[test]
fn update_preserves_embedding_when_content_unchanged() {
    let existing = memory_fields("Embed keep");
    let plan = plan_update(&existing, None, None, None, None, None, Some(9), None);
    assert!(!plan.content_changed);
}

#[test]
fn list_with_comma_tags_filter() {
    let tagged = [vec!["rust".to_string()], vec!["python".to_string()], vec!["go".to_string()]];
    let matching = |filter: &str| {
        let filters = RecallFilters {
            namespace: None,
            tags_filter: Some(filter.to_string()),
            since: None,
            until: None,
        };
        tagged
            .iter()
            .filter(|tags| recall_candidate_passes("test", None, tags, NOW, &filters, NOW))
            .count()
    };
    assert_eq!(matching("rust"), 1);
    assert_eq!(matching("rust,python"), 2);
}

#[test]
fn recall_caps_limit() {
    assert!(capped_limit(999_999_999) <= 10_000);
}

#[test]
fn consolidate_error_is_descriptive() {
    let ids = vec!["id-a".to_string(), "does-not-exist".to_string()];
    let result = check_all_found(&ids, &vec![true, false]);
    let msg = result.unwrap_err().message();
    assert!(msg.contains("not found"), "error should mention 'not found', got: {msg}");
}
