use piso::search::{
    find_listing, find_relative, find_report, grep_regex, path_skipped, sort_texts, GrepState,
};
use piso::tool_output::{
    bash_report, combine_streams, command_timed_out, decode_output, ls_listing, write_report,
    LsEntry,
};
use piso::truncate::{truncate_output, MAX_BYTES};

fn strings(v: &[&str]) -> Vec<String> {
    v.iter().map(|s| s.to_string()).collect()
}

#[test]
fn skipped_paths() {
    assert!(path_skipped(&strings(&["/", "home", ".git", "config"])));
    assert!(path_skipped(&strings(&["app", "node_modules", "x.js"])));
    assert!(path_skipped(&strings(&["crate", "target", "debug"])));
    assert!(path_skipped(&strings(&["web", "dist", "a.js"])));
    assert!(!path_skipped(&strings(&["/", "src", "main.rs"])));
    assert!(!path_skipped(&strings(&["targets", "distance"])));
    assert!(!path_skipped(&[]));
}

#[test]
fn grep_finds_matching_lines() {
    let re = grep_regex("hello", false).ok().unwrap();
    let mut state = GrepState::new();
    state.search_file("test.txt", "hello world\nfoo bar\nhello rust", &re);
    assert_eq!(state.match_count(), 2);
    assert_eq!(state.file_count(), 1);
    let report = state.report("hello", "/tmp/d");
    assert_eq!(report, "test.txt:1\thello world\ntest.txt:3\thello rust\n[2 matches across 1 files]");
}

#[test]
fn grep_reports_no_match() {
    let re = grep_regex("NONEXISTENT_PATTERN_XYZ", false).ok().unwrap();
    let mut state = GrepState::new();
    state.search_file("test.txt", "no match here", &re);
    assert_eq!(state.file_count(), 0);
    let report = state.report("NONEXISTENT_PATTERN_XYZ", "/tmp/d");
    assert_eq!(report, "No matches for 'NONEXISTENT_PATTERN_XYZ' in /tmp/d\n[0 matches across 0 files]");
    assert!(report.contains("0 matches"));
}

#[test]
fn grep_case_insensitive() {
    let re = grep_regex("HELLO", true).ok().unwrap();
    let mut state = GrepState::new();
    state.search_file("a", "Hello\nbye", &re);
    assert_eq!(state.match_count(), 1);
    let strict = grep_regex("HELLO", false).ok().unwrap();
    let mut other = GrepState::new();
    other.search_file("a", "Hello\nbye", &strict);
    assert_eq!(other.match_count(), 0);
}

#[test]
fn grep_trims_trailing_whitespace_and_counts_files() {
    let re = grep_regex("ab+c", false).ok().unwrap();
    let mut state = GrepState::new();
    state.search_file("x.rs", "abbc   \r\nnone\n", &re);
    state.search_file("y.rs", "nothing", &re);
    state.search_file("z.rs", "  abc", &re);
    assert_eq!(state.text("ab+c", "."), "x.rs:1\tabbc\nz.rs:1\t  abc");
    assert_eq!(state.file_count(), 2);
    assert_eq!(state.match_count(), 2);
}

#[test]
fn grep_stops_a_file_after_500_matches() {
    let content = vec!["x"; 600].join("\n");
    let re = grep_regex("x", false).ok().unwrap();
    let mut state = GrepState::new();
    state.search_file("f", &content, &re);
    assert_eq!(state.match_count(), 501);
    state.search_file("g", &content, &re);
    assert_eq!(state.match_count(), 502);
    assert_eq!(state.file_count(), 2);
}

#[test]
fn grep_invalid_regex() {
    let err = grep_regex("(", false).err().unwrap();
    assert!(err.starts_with("invalid regex '(': "), "{err}");
    assert!(grep_regex("a(", true).is_err());
}

#[test]
fn find_paths_relative_to_base() {
    assert_eq!(find_relative("/base", "/base/src/a.rs"), "src/a.rs");
    assert_eq!(find_relative("/base/", "/base/src"), "src");
    assert_eq!(find_relative("/base", "/other/x"), "other/x");
    assert_eq!(find_relative("", "a"), "a");
}

#[test]
fn find_sorts_and_reports() {
    let report = find_report("**/*.rs", "/d", strings(&["src/b.rs", "a.rs", "src/a.rs"]));
    assert_eq!(report, "a.rs\nsrc/a.rs\nsrc/b.rs");
    let none = find_report("*.zz", "/d", Vec::new());
    assert_eq!(none, "No files matching '*.zz' found in /d");
    assert_eq!(find_listing("p", "b", &[]), "No files matching 'p' found in b");
}

#[test]
fn sort_texts_orders_by_bytes() {
    let sorted = sort_texts(strings(&["b", "B", "a", "ab", "", "a"]));
    assert_eq!(sorted, strings(&["", "B", "a", "a", "ab", "b"]));
}

#[test]
fn bash_outputs() {
    assert_eq!(combine_streams("out", ""), "out");
    assert_eq!(combine_streams("out", "err"), "out\n[stderr]\nerr");
    let ok = bash_report("hello\n", 0);
    assert_eq!(ok.output, "hello\n");
    assert!(!ok.is_error);
    let failed = bash_report("", 1);
    assert!(failed.is_error);
    assert!(failed.output.contains("[exit code: 1]"));
    assert_eq!(bash_report("x", -1).output, "x\n[exit code: -1]");
}

#[test]
fn bash_output_cut_reports_original_size() {
    let text = vec!["l"; 2500].join("\n");
    let r = bash_report(&text, 0);
    assert!(r.output.ends_with("\n[original: 2500 lines, 4999 bytes]"), "{}", &r.output[r.output.len() - 60..]);
}

#[test]
fn decoding_replaces_invalid_bytes() {
    assert_eq!(decode_output(b"ok"), "ok");
    assert_eq!(decode_output(&[0x66, 0xff, 0x67]), "f\u{FFFD}g");
}

#[test]
fn timeout_message_names_command() {
    assert_eq!(command_timed_out(1, "sleep 100"), "command timed out after 1s: sleep 100");
}

#[test]
fn write_reports() {
    assert_eq!(write_report("f.txt", "a\nb\n", ""), "Wrote 4 bytes, 2 lines to f.txt (new file)");
    assert_eq!(write_report("f.txt", "a\nb\n", "a\nb\n"), "Wrote 4 bytes, 2 lines to f.txt");
    let changed = write_report("f.txt", "a\nc\n", "a\nb\n");
    assert!(changed.starts_with("Wrote 4 bytes, 2 lines to f.txt\n```diff\n--- a/f.txt\n+++ b/f.txt\n"), "{changed}");
    assert!(changed.ends_with("\n```"));
}

fn entry(name: &str, is_dir: bool, size: u64, modified: &str) -> LsEntry {
    LsEntry { name: name.to_string(), is_dir, size, modified: modified.to_string() }
}

#[test]
fn ls_hides_dot_files_and_sorts() {
    let entries = vec![
        entry("b.txt", false, 10, "2024-01-02 00:00"),
        entry(".hidden", false, 5, "2024-01-01 00:00"),
        entry("a", true, 0, "2024-01-03 00:00"),
    ];
    let out = ls_listing("/d", entries, false, "name");
    let lines: Vec<&str> = out.lines().collect();
    assert_eq!(lines[0], "/d (2 entries)");
    assert_eq!(lines[1], "");
    assert!(lines[2].starts_with("  a"));
    assert!(lines[2].contains("/"));
    assert!(lines[3].starts_with("  b.txt"));
    assert!(!out.contains(".hidden"));
}

#[test]
fn ls_sort_by_size_and_show_all() {
    let entries = vec![
        entry("small", false, 1, "t"),
        entry(".big", false, 2048, "t"),
        entry("mid", false, 100, "t"),
    ];
    let out = ls_listing("/d", entries, true, "size");
    let lines: Vec<&str> = out.lines().collect();
    assert_eq!(lines[0], "/d (3 entries)");
    assert!(lines[2].starts_with("  .big"));
    assert!(lines[3].starts_with("  mid"));
    assert!(lines[4].starts_with("  small"));
}

#[test]
fn byte_limit_cut_never_splits_a_character() {
    let line = "é".repeat(500);
    let text = vec![line.as_str(); 2500].join("\n");
    let r = truncate_output(&text);
    assert!(r.truncated);
    assert!(r.output.ends_with("\n<output truncated at byte limit>\n"));
    let body = &r.output[..r.output.len() - "\n<output truncated at byte limit>\n".len()];
    assert!(body.len() <= MAX_BYTES);
    assert!(body.len() > MAX_BYTES - 4);
}
