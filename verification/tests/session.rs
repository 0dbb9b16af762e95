use piso::session_log::{
    build_compacted_entries, create_branch, create_summary, create_summary_at, lineage_to, short_id_from,
    should_compact, CompactionEntry, JsonlSession, MessageEntry, SessionEntry, SessionHeader,
};

fn make_entry(id: &str, parent_id: Option<&str>, role: &str) -> SessionEntry {
    SessionEntry::Message(MessageEntry {
        id: id.to_string(),
        parent_id: parent_id.map(|s| s.to_string()),
        timestamp: String::new(),
        role: role.to_string(),
        content: format!("[{{\"type\":\"text\",\"text\":\"msg {}\"}}]", id),
        model: None,
        stop_reason: None,
    })
}

fn make_plain(id: &str, role: &str) -> SessionEntry {
    make_entry(id, None, role)
}

#[test]
fn create_branch_prunes_after_point() {
    let entries = vec![
        make_entry("a", None, "user"),
        make_entry("b", Some("a"), "assistant"),
        make_entry("c", Some("b"), "user"),
        make_entry("d", Some("c"), "assistant"),
        make_entry("e", Some("d"), "user"),
    ];

    let result = create_branch(&entries, "c").unwrap();
    assert_eq!(result.pruned_count, 2);
    assert_eq!(result.branch_entry_id, "c");
}

#[test]
fn branch_at_last_entry() {
    let entries = vec![make_entry("a", None, "user"), make_entry("b", Some("a"), "assistant")];

    let result = create_branch(&entries, "b").unwrap();
    assert_eq!(result.pruned_count, 0);
}

#[test]
fn branch_at_unknown_entry_fails() {
    let entries = vec![make_entry("a", None, "user")];
    assert!(create_branch(&entries, "z").is_err());
}

#[test]
fn branch_error_names_the_entry() {
    let entries = vec![make_entry("a", None, "user")];
    assert_eq!(create_branch(&entries, "z").unwrap_err(), "Entry z not found");
}

#[test]
fn lineage_traces_parent_chain() {
    let entries = vec![
        make_entry("a", None, "user"),
        make_entry("b", Some("a"), "assistant"),
        make_entry("c", Some("b"), "user"),
    ];

    let lineage = lineage_to(&entries, "c");
    assert_eq!(lineage.len(), 3);

    let lineage = lineage_to(&entries, "b");
    assert_eq!(lineage.len(), 2);
}

#[test]
fn lineage_follows_one_branch_only() {
    let entries = vec![
        make_entry("a", None, "user"),
        make_entry("b", Some("a"), "assistant"),
        make_entry("c", Some("b"), "user"),
        make_entry("x", Some("a"), "user"),
    ];
    let lineage = lineage_to(&entries, "x");
    let ids: Vec<&str> = lineage.iter().map(|e| e.id()).collect();
    assert_eq!(ids, vec!["a", "x"]);
    assert!(lineage_to(&entries, "missing").is_empty());
}

#[test]
fn lineage_stops_at_unknown_parent() {
    let entries = vec![make_entry("b", Some("gone"), "user"), make_entry("c", Some("b"), "user")];
    let lineage = lineage_to(&entries, "c");
    let ids: Vec<&str> = lineage.iter().map(|e| e.id()).collect();
    assert_eq!(ids, vec!["b", "c"]);
}

#[test]
fn should_compact_below_threshold() {
    let entries: Vec<SessionEntry> = (0..10).map(|i| make_plain(&format!("{}", i), "user")).collect();
    assert!(!should_compact(&entries));
}

#[test]
fn should_compact_above_threshold() {
    let entries: Vec<SessionEntry> = (0..50).map(|i| make_plain(&format!("{}", i), "user")).collect();
    assert!(should_compact(&entries));
}

#[test]
fn should_compact_at_threshold_is_false() {
    let entries: Vec<SessionEntry> = (0..40).map(|i| make_plain(&format!("{}", i), "user")).collect();
    assert!(!should_compact(&entries));
    let entries: Vec<SessionEntry> = (0..41).map(|i| make_plain(&format!("{}", i), "user")).collect();
    assert!(should_compact(&entries));
}

#[test]
fn create_summary_works() {
    let entries: Vec<SessionEntry> = (0..20)
        .map(|i| make_plain(&format!("{}", i), if i % 2 == 0 { "user" } else { "assistant" }))
        .collect();

    let (summary, result) = create_summary(&entries, "Summary text", 5).unwrap();
    assert_eq!(result.original_count, 20);
    assert_eq!(result.summarized_count, 15);
    assert_eq!(result.compacted_count, 6);
    assert_eq!(summary.role, "system");
    assert!(summary.id.starts_with("summary-"));
}

#[test]
fn summary_entry_exact() {
    let entries: Vec<SessionEntry> = (0..3).map(|i| make_plain(&format!("{}", i), "user")).collect();
    let (summary, result) = create_summary_at(&entries, "say \"hi\"\tnow", 1, 1700000000123, "2026-01-01T00:00:00Z").unwrap();
    assert_eq!(summary.id, "summary-1700000000123");
    assert_eq!(summary.timestamp, "2026-01-01T00:00:00Z");
    assert_eq!(summary.parent_id, None);
    assert_eq!(
        summary.content,
        "[{\"type\":\"text\",\"text\":\"[Context Summary]\\nsay \\\"hi\\\"\\tnow\"}]"
    );
    assert_eq!(result.compacted_count, 2);
    let (negative, _) = create_summary_at(&entries, "", 0, -5, "t").unwrap();
    assert_eq!(negative.id, "summary--5");
}

#[test]
fn build_compacted_keeps_recent() {
    let entries: Vec<SessionEntry> = (0..10).map(|i| make_plain(&format!("{}", i), "user")).collect();

    let (summary, _) = create_summary(&entries, "Summary", 3).unwrap();
    let compacted = build_compacted_entries(&entries, summary, 3);

    assert_eq!(compacted.len(), 4);
    if let SessionEntry::Message(m) = &compacted[3] {
        assert_eq!(m.id, "9");
    } else {
        panic!("Expected Message entry");
    }
}

#[test]
fn build_compacted_skips_system_messages() {
    let entries = vec![
        make_plain("s", "system"),
        make_plain("1", "user"),
        make_plain("2", "assistant"),
        make_plain("s2", "system"),
    ];
    let (summary, _) = create_summary_at(&entries, "S", 0, 1, "t").unwrap();
    let compacted = build_compacted_entries(&entries, summary, 5);
    let ids: Vec<&str> = compacted.iter().map(|e| e.id()).collect();
    assert_eq!(ids, vec!["summary-1", "1", "2"]);
}

#[test]
fn not_enough_messages_fails() {
    let entries = vec![make_plain("1", "user"), make_plain("2", "assistant")];
    assert!(create_summary(&entries, "Summary", 5).is_err());
    assert_eq!(
        create_summary_at(&entries, "Summary", 5, 0, "t").unwrap_err(),
        "Not enough messages to compact (2 <= 5)"
    );
}

fn chain_session() -> JsonlSession {
    let mut session = JsonlSession::create_with_id_at("/tmp/s.jsonl", "/test", "abc", "2026-05-10T12:00:00Z");
    for i in 1..=3 {
        let parent = if i == 1 { None } else { Some(format!("m{}", i - 1)) };
        session.append(make_entry(&format!("m{}", i), parent.as_deref(), "user"));
    }
    session
}

#[test]
fn path_to_root() {
    let session = chain_session();
    let path = session.path_to_root("m3");
    assert_eq!(path.len(), 3);
    assert_eq!(path[0].id(), "m1");
    assert_eq!(path[2].id(), "m3");
    assert!(session.path_to_root("zz").is_empty());
}

#[test]
fn create_and_reopen() {
    let mut session = JsonlSession::create("/tmp/test.jsonl", "/test/cwd");
    assert_eq!(session.len(), 0);
    assert!(session.is_empty());
    assert_eq!(session.id().len(), 8);
    session.append(make_entry("m1", None, "user"));
    assert_eq!(session.len(), 1);
    assert_eq!(session.leaf_id(), Some("m1"));

    let header = SessionHeader::new_at(session.id(), "/test/cwd", "2026-05-10T12:00:00Z");
    let reopened = JsonlSession::from_parsed("/tmp/test.jsonl", header, vec![make_entry("m1", None, "user")]).unwrap();
    assert_eq!(reopened.len(), 1);
    assert_eq!(reopened.cwd(), "/test/cwd");
    assert_eq!(reopened.leaf_id(), Some("m1"));
    assert_eq!(reopened.get("m1").map(|e| e.id()), Some("m1"));
    assert!(reopened.get("m2").is_none());
}

#[test]
fn reopen_rejects_other_header() {
    let mut header = SessionHeader::new_at("abc", "/x", "t");
    header.entry_type = "message".to_string();
    let r = JsonlSession::from_parsed("/tmp/a.jsonl", header, Vec::new());
    assert_eq!(r.unwrap_err(), "First line is not a session header in /tmp/a.jsonl");
}

#[test]
fn header_and_metadata() {
    let session = chain_session();
    assert_eq!(session.header().entry_type, "session");
    assert_eq!(session.header().version, 3);
    let meta = session.metadata();
    assert_eq!(meta.id, "abc");
    assert_eq!(meta.cwd, "/test");
    assert_eq!(meta.created_at, "2026-05-10T12:00:00Z");
    assert_eq!(meta.path, "/tmp/s.jsonl");
    assert!(meta.name.is_none());
}

#[test]
fn active_entries_skips_archived() {
    let mut session = JsonlSession::create_with_id_at("/tmp/t.jsonl", "/test", "abc", "t0");
    for i in 1..=3 {
        let parent = if i == 1 { None } else { Some(format!("m{}", i - 1)) };
        session.append(make_entry(&format!("m{}", i), parent.as_deref(), "user"));
    }
    assert_eq!(session.entries().len(), 3);
    assert_eq!(session.active_entries().len(), 3);

    session.append(SessionEntry::Compaction(CompactionEntry {
        id: "c1".to_string(),
        parent_id: Some("m3".to_string()),
        timestamp: "2025-01-01T00:00:04Z".to_string(),
        summary: "{\"text\":\"summary of m1-m2\"}".to_string(),
        archived_range: Some(vec!["m1".to_string(), "m2".to_string()]),
    }));

    let active = session.active_entries();
    assert_eq!(active.len(), 2);
    assert_eq!(active[0].id(), "m3");
    assert_eq!(active[1].id(), "c1");
}

#[test]
fn compact_keep_last_drops_the_oldest() {
    let mut session = chain_session();
    assert_eq!(session.compact_keep_last(5), 0);
    assert_eq!(session.len(), 3);
    assert_eq!(session.compact_keep_last(1), 2);
    assert_eq!(session.len(), 1);
    assert_eq!(session.entries()[0].id(), "m3");
    assert_eq!(session.leaf_id(), Some("m3"));
}

#[test]
fn short_ids_are_hex_of_folded_nanos() {
    assert_eq!(short_id_from(0), "00000000");
    assert_eq!(short_id_from((1u128 << 32) | 0xff), "000000fe");
    assert_eq!(short_id_from(0xdead_beef), "deadbeef");
}
