use ai_memory::access::{plan_access, AccessState, ACCESS_COUNT_CAP};
use ai_memory::models::Tier;
use ai_memory::upsert::{merge_store, merge_sync, RowFields};

fn state(tier: Tier, access_count: i64, priority: i32, expires_at: Option<&str>) -> AccessState {
    AccessState { tier, access_count, priority, expires_at: expires_at.map(|s| s.to_string()) }
}

const SHORT_E: &str = "2026-01-01T01:00:00+00:00";
const MID_E: &str = "2026-01-02T00:00:00+00:00";

#[test]
fn access_extends_short_term_expiry() {
    let out = plan_access(&state(Tier::Short, 0, 5, Some("2025-12-31T00:00:00+00:00")), SHORT_E, MID_E, 5);
    assert_eq!(out.state.access_count, 1);
    assert_eq!(out.state.tier, Tier::Short);
    assert_eq!(out.state.expires_at.as_deref(), Some(SHORT_E));
    assert_eq!(out.state.priority, 5);
    assert!(!out.promoted);
}

#[test]
fn access_extends_mid_term_expiry_below_threshold() {
    let out = plan_access(&state(Tier::Mid, 2, 5, Some("2025-12-31T00:00:00+00:00")), SHORT_E, MID_E, 5);
    assert_eq!(out.state.access_count, 3);
    assert_eq!(out.state.tier, Tier::Mid);
    assert_eq!(out.state.expires_at.as_deref(), Some(MID_E));
    assert!(!out.promoted);
}

#[test]
fn access_keeps_missing_expiry() {
    let out = plan_access(&state(Tier::Short, 0, 5, None), SHORT_E, MID_E, 5);
    assert_eq!(out.state.expires_at, None);
}

#[test]
fn access_promotes_mid_term_at_threshold() {
    let out = plan_access(&state(Tier::Mid, 4, 5, Some("2025-12-31T00:00:00+00:00")), SHORT_E, MID_E, 5);
    assert_eq!(out.state.access_count, 5);
    assert!(out.promoted);
    assert_eq!(out.state.tier, Tier::Long);
    assert_eq!(out.state.expires_at, None);
}

#[test]
fn access_never_promotes_short_term() {
    let out = plan_access(&state(Tier::Short, 40, 5, Some("x")), SHORT_E, MID_E, 5);
    assert!(!out.promoted);
    assert_eq!(out.state.tier, Tier::Short);
}

#[test]
fn access_leaves_long_term_expiry_alone() {
    let out = plan_access(&state(Tier::Long, 3, 5, Some("2030-01-01T00:00:00+00:00")), SHORT_E, MID_E, 5);
    assert_eq!(out.state.tier, Tier::Long);
    assert_eq!(out.state.expires_at.as_deref(), Some("2030-01-01T00:00:00+00:00"));
    assert!(!out.promoted);
}

#[test]
fn every_tenth_access_raises_priority() {
    let out = plan_access(&state(Tier::Long, 9, 5, None), SHORT_E, MID_E, 5);
    assert_eq!(out.state.access_count, 10);
    assert_eq!(out.state.priority, 6);
    let out = plan_access(&state(Tier::Long, 10, 5, None), SHORT_E, MID_E, 5);
    assert_eq!(out.state.priority, 5);
}

#[test]
fn priority_stops_at_ten() {
    let out = plan_access(&state(Tier::Long, 19, 10, None), SHORT_E, MID_E, 5);
    assert_eq!(out.state.access_count, 20);
    assert_eq!(out.state.priority, 10);
}

#[test]
fn access_count_stops_at_cap() {
    let out = plan_access(&state(Tier::Long, 999_999, 5, None), SHORT_E, MID_E, 5);
    assert_eq!(out.state.access_count, ACCESS_COUNT_CAP);
    let out = plan_access(&state(Tier::Long, ACCESS_COUNT_CAP, 5, None), SHORT_E, MID_E, 5);
    assert_eq!(out.state.access_count, 1_000_000);
    let out = plan_access(&state(Tier::Long, i64::MAX, 5, None), SHORT_E, MID_E, 5);
    assert_eq!(out.state.access_count, 1_000_000);
    // The cap is a multiple of ten: reaching it raises the priority.
    assert_eq!(out.state.priority, 6);
}

fn row(tier: Tier, content: &str, priority: i32, access: i64, updated: &str, expires: Option<&str>) -> RowFields {
    RowFields {
        tier,
        content: content.to_string(),
        tags_json: format!("[\"{}\"]", content),
        priority,
        source: format!("src-{}", content),
        access_count: access,
        updated_at: updated.to_string(),
        expires_at: expires.map(|s| s.to_string()),
    }
}

#[test]
fn store_keeps_long_term_tier_and_clears_expiry() {
    let stored = row(Tier::Long, "old", 8, 3, "2026-01-01", None);
    let written = row(Tier::Short, "new", 2, 0, "2026-01-02", Some("2026-01-03"));
    let m = merge_store(&stored, &written);
    assert_eq!(m.tier, Tier::Long);
    assert_eq!(m.expires_at, None);
    assert_eq!(m.priority, 8);
    assert_eq!(m.content, "new");
    assert_eq!(m.tags_json, "[\"new\"]");
    assert_eq!(m.source, "src-new");
    assert_eq!(m.access_count, 3);
    assert_eq!(m.updated_at, "2026-01-02");
}

#[test]
fn store_raises_short_to_mid_and_keeps_stored_expiry() {
    let stored = row(Tier::Short, "old", 3, 1, "2026-01-01", Some("2026-01-05"));
    let written = row(Tier::Mid, "new", 7, 9, "2026-01-02", None);
    let m = merge_store(&stored, &written);
    assert_eq!(m.tier, Tier::Mid);
    assert_eq!(m.expires_at.as_deref(), Some("2026-01-05"));
    assert_eq!(m.priority, 7);
    assert_eq!(m.access_count, 1);
}

#[test]
fn store_does_not_lower_mid_to_short() {
    let stored = row(Tier::Mid, "old", 3, 1, "2026-01-01", Some("2026-01-05"));
    let written = row(Tier::Short, "new", 3, 1, "2026-01-02", Some("2026-01-04"));
    let m = merge_store(&stored, &written);
    assert_eq!(m.tier, Tier::Mid);
    assert_eq!(m.expires_at.as_deref(), Some("2026-01-04"));
}

#[test]
fn written_long_term_clears_expiry() {
    let stored = row(Tier::Short, "old", 3, 1, "2026-01-01", Some("2026-01-05"));
    let written = row(Tier::Long, "new", 3, 1, "2026-01-02", Some("2026-01-04"));
    assert_eq!(merge_store(&stored, &written).expires_at, None);
    assert_eq!(merge_sync(&stored, &written).expires_at, None);
}

#[test]
fn sync_takes_newer_content() {
    let stored = row(Tier::Mid, "old", 3, 4, "2026-01-01T00:00:00Z", None);
    let written = row(Tier::Short, "new", 6, 2, "2026-02-01T00:00:00Z", None);
    let m = merge_sync(&stored, &written);
    assert_eq!(m.content, "new");
    assert_eq!(m.tags_json, "[\"new\"]");
    assert_eq!(m.source, "src-new");
    assert_eq!(m.updated_at, "2026-02-01T00:00:00Z");
    assert_eq!(m.tier, Tier::Mid);
    assert_eq!(m.priority, 6);
    assert_eq!(m.access_count, 4);
}

#[test]
fn sync_keeps_stored_content_when_written_is_older() {
    let stored = row(Tier::Mid, "old", 3, 4, "2026-03-01T00:00:00Z", None);
    let written = row(Tier::Mid, "new", 1, 9, "2026-02-01T00:00:00Z", None);
    let m = merge_sync(&stored, &written);
    assert_eq!(m.content, "old");
    assert_eq!(m.source, "src-old");
    assert_eq!(m.updated_at, "2026-03-01T00:00:00Z");
    assert_eq!(m.priority, 3);
    assert_eq!(m.access_count, 9);
}

#[test]
fn sync_keeps_stored_content_on_equal_times() {
    let stored = row(Tier::Mid, "old", 3, 4, "2026-03-01T00:00:00Z", None);
    let written = row(Tier::Mid, "new", 3, 4, "2026-03-01T00:00:00Z", None);
    let m = merge_sync(&stored, &written);
    assert_eq!(m.content, "old");
    assert_eq!(m.tags_json, "[\"old\"]");
}

#[test]
fn sync_twice_equals_sync_once() {
    let stored = row(Tier::Short, "old", 3, 4, "2026-01-01T00:00:00Z", Some("2026-01-09"));
    let written = row(Tier::Mid, "new", 5, 2, "2026-02-01T00:00:00Z", None);
    let once = merge_sync(&stored, &written);
    let twice = merge_sync(&once, &written);
    assert_eq!(format!("{:?}", once), format!("{:?}", twice));
    let once = merge_store(&stored, &written);
    let twice = merge_store(&once, &written);
    assert_eq!(format!("{:?}", once), format!("{:?}", twice));
}
