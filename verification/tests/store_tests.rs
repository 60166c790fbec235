use ai_memory::models::Tier;
use ai_memory::store::{
    candidate_limit, capped_limit, check_all_found, check_link_endpoints, decode_tags, neighbour_limit, parse_tag_filter, plan_consolidation,
    plan_forget, plan_migration, plan_update, recall_candidate_passes, tags_json, tags_or_none, tags_to_json_array,
    tier_from_column, ForgetPlan, MemoryFields, RecallFilters, SourceMemory, StoreError,
};
use ai_memory::validate::strip_invisible;

fn strings(v: &[&str]) -> Vec<String> {
    v.iter().map(|s| s.to_string()).collect()
}

#[test]
fn strip_invisible_removes_zero_width() {
    assert_eq!(strip_invisible("Post\u{200B}greSQL config"), "PostgreSQL config");
    assert_eq!(strip_invisible("zero\u{200D}width content"), "zerowidth content");
    let once = strip_invisible("a\u{FEFF}b\u{2066}c");
    assert_eq!(once, "abc");
    assert_eq!(strip_invisible(&once), once);
}

#[test]
fn tags_json_encodes_array() {
    assert_eq!(tags_json(&strings(&["rust", "py\"thon"])), "[\"rust\",\"py\\\"thon\"]");
    assert_eq!(tags_json(&Vec::new()), "[]");
}

#[test]
fn decode_tags_reads_array_or_nothing() {
    assert_eq!(decode_tags("[\"a\",\"b\"]"), strings(&["a", "b"]));
    assert_eq!(decode_tags("not json"), Vec::<String>::new());
    assert_eq!(decode_tags("[1,2]"), Vec::<String>::new());
    let tags = strings(&["x", "y z"]);
    assert_eq!(decode_tags(&tags_json(&tags)), tags);
}

#[test]
fn comma_tags_filter() {
    assert_eq!(parse_tag_filter("rust, python ,,  "), strings(&["rust", "python"]));
    assert_eq!(tags_to_json_array(Some("rust,python")).as_deref(), Some("[\"rust\",\"python\"]"));
    assert_eq!(tags_to_json_array(Some(" , ")).as_deref(), Some("[]"));
    assert_eq!(tags_to_json_array(None), None);
}

#[test]
fn tier_column_decoding() {
    assert_eq!(tier_from_column("long"), Tier::Long);
    assert_eq!(tier_from_column("short"), Tier::Short);
    assert_eq!(tier_from_column("LONG"), Tier::Mid);
    assert_eq!(tier_from_column("garbage"), Tier::Mid);
    for t in [Tier::Short, Tier::Mid, Tier::Long] {
        assert_eq!(tier_from_column(t.as_str()), t);
    }
}

#[test]
fn migration_plans() {
    let p = plan_migration(3, &Vec::new());
    assert!(p.up_to_date && !p.add_confidence && !p.add_source && !p.add_embedding);
    let p = plan_migration(0, &strings(&["id", "title"]));
    assert!(!p.up_to_date && p.add_confidence && p.add_source && p.add_embedding);
    let p = plan_migration(1, &strings(&["id", "confidence"]));
    assert!(!p.add_confidence && p.add_source && p.add_embedding);
    let p = plan_migration(2, &strings(&["id", "confidence", "source"]));
    assert!(!p.up_to_date && !p.add_confidence && !p.add_source && p.add_embedding);
    let p = plan_migration(2, &strings(&["embedding"]));
    assert!(!p.add_embedding);
}

#[test]
fn forget_needs_a_filter() {
    assert_eq!(plan_forget(None, None, None), Err(StoreError::NoForgetFilter));
    assert_eq!(
        StoreError::NoForgetFilter.message(),
        "at least one of namespace, pattern, or tier is required"
    );
    assert_eq!(plan_forget(Some("ns"), None, None), Ok(ForgetPlan::Filtered));
    assert_eq!(plan_forget(None, None, Some(Tier::Short)), Ok(ForgetPlan::Filtered));
    assert_eq!(
        plan_forget(None, Some("old AND stuff"), None),
        Ok(ForgetPlan::Matching { fts_query: "\"old\" OR \"stuff\"".to_string() })
    );
}

#[test]
fn limits() {
    assert_eq!(capped_limit(999_999_999), 10_000);
    assert_eq!(capped_limit(7), 7);
    assert_eq!(candidate_limit(5), 30);
    assert_eq!(candidate_limit(20), 60);
    assert_eq!(neighbour_limit(5), 50);
    assert_eq!(neighbour_limit(20), 100);
}

fn fields() -> MemoryFields {
    MemoryFields {
        title: "Original".to_string(),
        content: "Content for Original".to_string(),
        tier: Tier::Mid,
        namespace: "test".to_string(),
        tags: strings(&["a"]),
        priority: 5,
        expires_at: Some("2030-01-01T00:00:00+00:00".to_string()),
    }
}

#[test]
fn update_merges_given_fields() {
    let e = fields();
    let p = plan_update(&e, Some("Updated\u{200B} Title"), None, None, None, None, Some(9), None);
    assert_eq!(p.fields.title, "Updated Title");
    assert_eq!(p.fields.content, e.content);
    assert_eq!(p.fields.priority, 9);
    assert_eq!(p.fields.tier, Tier::Mid);
    assert_eq!(p.fields.expires_at, e.expires_at);
    assert!(p.content_changed);
}

#[test]
fn update_without_fields_changes_nothing() {
    let e = fields();
    let p = plan_update(&e, None, None, None, None, None, None, None);
    assert_eq!(p.fields.title, e.title);
    assert_eq!(p.fields.content, e.content);
    assert_eq!(p.fields.namespace, e.namespace);
    assert_eq!(p.fields.tags, e.tags);
    assert_eq!(p.fields.expires_at, e.expires_at);
    assert!(!p.content_changed);
    // Same content given again: no change either.
    let p = plan_update(&e, Some("Original"), None, None, None, None, None, None);
    assert!(!p.content_changed);
}

#[test]
fn update_expiry_rules() {
    let e = fields();
    assert_eq!(plan_update(&e, None, None, None, None, None, None, Some("")).fields.expires_at, None);
    assert_eq!(plan_update(&e, None, None, None, None, None, None, Some("null")).fields.expires_at, None);
    assert_eq!(
        plan_update(&e, None, None, None, None, None, None, Some("2031-01-01")).fields.expires_at.as_deref(),
        Some("2031-01-01")
    );
    let p = plan_update(&e, None, Some("new content"), Some(Tier::Long), Some("ns2"), Some(&strings(&["b", "c"])), None, None);
    assert!(p.content_changed);
    assert_eq!(p.fields.tier, Tier::Long);
    assert_eq!(p.fields.namespace, "ns2");
    assert_eq!(p.fields.tags, strings(&["b", "c"]));
}

#[test]
fn consolidation_merges_metadata() {
    let sources = vec![
        SourceMemory { id: "id1".to_string(), priority: 3, tags: strings(&["rust", "db"]), access_count: 4 },
        SourceMemory { id: "id2".to_string(), priority: 8, tags: strings(&["db", "api", "rust"]), access_count: 6 },
    ];
    let plan = plan_consolidation(&sources, "Part 1 + Part 2");
    assert_eq!(plan.priority, 8);
    assert_eq!(plan.access_count, 10);
    assert_eq!(
        plan.tags,
        strings(&["api", "db", "rust", "consolidated-from:id1", "consolidated-from:id2"])
    );
    assert_eq!(plan.content, "Part 1 + Part 2\n\n[Consolidated from: id1, id2]");
}

#[test]
fn consolidation_edge_cases() {
    let plan = plan_consolidation(&Vec::new(), "S");
    assert_eq!(plan.priority, 5);
    assert_eq!(plan.access_count, 0);
    assert!(plan.tags.is_empty());
    assert_eq!(plan.content, "S\n\n[Consolidated from: ]");
    let sources = vec![
        SourceMemory { id: "a".to_string(), priority: 1, tags: Vec::new(), access_count: i64::MAX },
        SourceMemory { id: "b".to_string(), priority: 2, tags: strings(&["B", "a", "Z"]), access_count: 5 },
    ];
    let plan = plan_consolidation(&sources, "");
    assert_eq!(plan.priority, 5);
    assert_eq!(plan.access_count, i64::MAX);
    assert_eq!(plan.tags, strings(&["B", "Z", "a", "consolidated-from:a", "consolidated-from:b"]));
}

fn filters(ns: Option<&str>, tags: Option<&str>, since: Option<&str>, until: Option<&str>) -> RecallFilters {
    RecallFilters {
        namespace: ns.map(|s| s.to_string()),
        tags_filter: tags.map(|s| s.to_string()),
        since: since.map(|s| s.to_string()),
        until: until.map(|s| s.to_string()),
    }
}

#[test]
fn recall_candidate_filters() {
    let now = "2026-04-12T00:00:00+00:00";
    let tags = strings(&["rust", "db"]);
    let created = "2026-01-01T00:00:00+00:00";
    assert!(recall_candidate_passes("ns", None, &tags, created, &filters(None, None, None, None), now));
    assert!(!recall_candidate_passes("ns", None, &tags, created, &filters(Some("other"), None, None, None), now));
    assert!(!recall_candidate_passes("ns", Some("2020-01-01T00:00:00Z"), &tags, created, &filters(None, None, None, None), now));
    assert!(recall_candidate_passes("ns", Some("2030-01-01T00:00:00Z"), &tags, created, &filters(None, None, None, None), now));
    assert!(recall_candidate_passes("ns", None, &tags, created, &filters(None, Some("python, db"), None, None), now));
    assert!(!recall_candidate_passes("ns", None, &tags, created, &filters(None, Some("python"), None, None), now));
    assert!(!recall_candidate_passes("ns", None, &tags, created, &filters(None, None, Some("2026-02-01"), None), now));
    assert!(!recall_candidate_passes("ns", None, &tags, created, &filters(None, None, None, Some("2025-12-31")), now));
    assert!(recall_candidate_passes("ns", None, &tags, created, &filters(Some("ns"), Some("rust"), Some("2025"), Some("2027")), now));
}

#[test]
fn tags_from_parse_result() {
    assert_eq!(tags_or_none(Some(strings(&["a"]))), strings(&["a"]));
    assert_eq!(tags_or_none(None), Vec::<String>::new());
}

#[test]
fn link_endpoints_must_exist() {
    assert_eq!(check_link_endpoints("a", "b", true, true), Ok(()));
    let e = check_link_endpoints("a", "b", false, true).unwrap_err();
    assert_eq!(e, StoreError::SourceNotFound("a".to_string()));
    assert_eq!(e.message(), "source memory not found: a");
    let e = check_link_endpoints("a", "b", false, false).unwrap_err();
    assert_eq!(e, StoreError::SourceNotFound("a".to_string()));
    let e = check_link_endpoints("a", "b", true, false).unwrap_err();
    assert_eq!(e, StoreError::TargetNotFound("b".to_string()));
    assert_eq!(e.message(), "target memory not found: b");
}

#[test]
fn first_missing_memory_is_reported() {
    let ids = strings(&["a", "b", "c"]);
    assert_eq!(check_all_found(&ids, &vec![true, true, true]), Ok(()));
    assert_eq!(check_all_found(&Vec::new(), &Vec::new()), Ok(()));
    let e = check_all_found(&ids, &vec![true, false, false]).unwrap_err();
    assert_eq!(e, StoreError::MemoryNotFound("b".to_string()));
    assert_eq!(e.message(), "memory not found: b");
}
