use piso::completion_item_kind;
use piso::diff::{compute_diff, compute_lcs, format_diff, DiffLineType};
use piso::edit::plan_edit;
use piso::lsp::{detect_image_mime, file_uri, find_server_for_file, image_mime_for_extension, initialize_params, known_servers, server_for_extension, CompletionItem};
use piso::read::render_read;
use piso::tools::{format_human_size, BashTool, FindTool, GrepTool, DEFAULT_TIMEOUT_SECS};
use piso::truncate::truncate_output;

#[test]
fn identical_text_no_diff() {
    let diff = compute_diff("hello\nworld", "hello\nworld");
    assert_eq!(diff.added_count, 0);
    assert_eq!(diff.removed_count, 0);
    assert_eq!(diff.lines.len(), 2);
    assert!(diff.lines.iter().all(|l| l.line_type == DiffLineType::Context));
}

#[test]
fn simple_addition() {
    let diff = compute_diff("a\nb", "a\nb\nc");
    assert_eq!(diff.added_count, 1);
    assert_eq!(diff.removed_count, 0);
    let added: Vec<&str> = diff
        .lines
        .iter()
        .filter(|l| l.line_type == DiffLineType::Added)
        .map(|l| l.content.as_str())
        .collect();
    assert_eq!(added, vec!["c"]);
}

#[test]
fn simple_removal() {
    let diff = compute_diff("a\nb\nc", "a\nc");
    assert_eq!(diff.added_count, 0);
    assert_eq!(diff.removed_count, 1);
    let removed: Vec<&str> = diff
        .lines
        .iter()
        .filter(|l| l.line_type == DiffLineType::Removed)
        .map(|l| l.content.as_str())
        .collect();
    assert_eq!(removed, vec!["b"]);
}

#[test]
fn replacement() {
    let diff = compute_diff("hello\nworld", "hello\nrust");
    assert_eq!(diff.added_count, 1);
    assert_eq!(diff.removed_count, 1);
}

#[test]
fn empty_to_content() {
    let diff = compute_diff("", "new\ncontent");
    assert_eq!(diff.added_count, 2);
    assert_eq!(diff.removed_count, 0);
}

#[test]
fn content_to_empty() {
    let diff = compute_diff("old\ncontent", "");
    assert_eq!(diff.added_count, 0);
    assert_eq!(diff.removed_count, 2);
}

#[test]
fn format_diff_output() {
    let output = format_diff("a\nb\nc", "a\nx\nc", "test.txt");
    assert!(output.starts_with("--- a/test.txt"));
    assert!(output.contains("+++ b/test.txt"));
    assert!(output.contains("-2"), "removed line marker: {}", output);
    assert!(output.contains("+ "), "added line marker: {}", output);
    assert!(output.contains("b"));
    assert!(output.contains("x"));
}

#[test]
fn lcs_correctness() {
    let old = vec!["a", "b", "c", "d"];
    let new = vec!["a", "x", "c", "d"];
    let lcs = compute_lcs(&old, &new);
    assert_eq!(lcs, vec!["a", "c", "d"]);
}

#[test]
fn no_truncation_under_limit() {
    let output = "line 1\nline 2\nline 3";
    let result = truncate_output(output);
    assert!(!result.truncated);
    assert_eq!(result.output, output);
}

#[test]
fn truncates_many_lines() {
    let input: String = (0..5000).map(|i| format!("line {i}\n")).collect();
    let result = truncate_output(&input);
    assert!(result.truncated);
    assert!(result.output.contains("<output truncated"));
    assert!(result.original_lines >= 5000);
}

#[test]
fn truncation_keeps_head_and_tail() {
    let input: String = (0..3000).map(|i| format!("l{i}\n")).collect();
    let result = truncate_output(&input);
    assert!(result.output.starts_with("l0\nl1\n"));
    assert!(result.output.contains("l999\n\n<output truncated: 3000 lines,"));
    assert!(result.output.ends_with("l2999\n"));
    assert!(!result.output.contains("l1000\n"));
    assert_eq!(result.original_lines, 3000);
}

#[test]
fn detect_image_mime_png() {
    assert_eq!(detect_image_mime("photo.png"), Some("image/png"));
    assert_eq!(detect_image_mime("photo.PNG"), Some("image/png"));
}

#[test]
fn detect_image_mime_jpg() {
    assert_eq!(detect_image_mime("img.jpg"), Some("image/jpeg"));
    assert_eq!(detect_image_mime("img.jpeg"), Some("image/jpeg"));
}

#[test]
fn detect_image_mime_unknown() {
    assert_eq!(detect_image_mime("doc.pdf"), None);
    assert_eq!(detect_image_mime("noext"), None);
}

#[test]
fn image_mime_table() {
    assert_eq!(image_mime_for_extension("gif"), Some("image/gif"));
    assert_eq!(image_mime_for_extension("webp"), Some("image/webp"));
    assert_eq!(image_mime_for_extension("PNG"), None);
    assert_eq!(detect_image_mime("dir.png/file"), None);
}

#[test]
fn human_size_format() {
    assert_eq!(format_human_size(0), "0B");
    assert_eq!(format_human_size(512), "512B");
    assert_eq!(format_human_size(1536), "2K");
    assert_eq!(format_human_size(2_000_000), "1.9M");
    assert_eq!(format_human_size(3_000_000_000), "2.8G");
}

#[test]
fn human_size_matches_float_formatting() {
    for n in [1023u64, 1024, 2560, 3584, 1048575, 1048576, 1101004, 1153433, 1073741823, 1073741824, u64::MAX, 9_007_199_254_740_993] {
        let expected = if n < 1024 {
            format!("{}B", n)
        } else if n < 1024 * 1024 {
            format!("{:.0}K", n as f64 / 1024.0)
        } else if n < 1024 * 1024 * 1024 {
            format!("{:.1}M", n as f64 / (1024.0 * 1024.0))
        } else {
            format!("{:.1}G", n as f64 / (1024.0 * 1024.0 * 1024.0))
        };
        assert_eq!(format_human_size(n), expected, "size {n}");
    }
}

#[test]
fn file_uri_format() {
    assert_eq!(file_uri("/home/user/project"), "file:///home/user/project");
}

#[test]
fn default_init_params() {
    let params = initialize_params(42, "file:///project");
    assert_eq!(params.root_uri, Some("file:///project".to_string()));
    assert!(params.process_id.is_some());
    assert!(!params.capabilities.text_document.completion.completion_item.snippet_support);
}

#[test]
fn completion_item_kinds() {
    assert_eq!(completion_item_kind::FUNCTION, 3);
    assert_eq!(completion_item_kind::FILE, 17);
    assert_eq!(completion_item_kind::MODULE, 9);
}

#[test]
fn completion_item_default() {
    let item = CompletionItem::default();
    assert_eq!(item.label, "");
    assert_eq!(item.kind, None);
}

#[test]
fn find_server_for_rust() {
    let server = find_server_for_file("src/main.rs");
    assert!(server.is_some());
    assert_eq!(server.unwrap().command, "rust-analyzer");
}

#[test]
fn find_server_for_python() {
    let server = find_server_for_file("app.py");
    assert!(server.is_some());
    assert_eq!(server.unwrap().command, "pylsp");
}

#[test]
fn find_server_for_unknown() {
    let server = find_server_for_file("data.csv");
    assert!(server.is_none());
}

#[test]
fn known_servers_not_empty() {
    let servers = known_servers();
    assert!(!servers.is_empty());
    assert!(servers.iter().any(|s| s.command == "rust-analyzer"));
}

#[test]
fn servers_by_extension() {
    assert_eq!(server_for_extension("hpp").unwrap().command, "clangd");
    assert_eq!(server_for_extension("jsx").unwrap().args, vec!["--stdio".to_string()]);
    assert_eq!(find_server_for_file("Main.GO").unwrap().command, "gopls");
    assert!(server_for_extension("RS").is_none());
}

#[test]
fn tool_settings() {
    let b = BashTool::new("/w");
    assert_eq!(b.timeout_secs, DEFAULT_TIMEOUT_SECS);
    let b = b.with_timeout(5);
    assert_eq!(b.timeout_secs, 5);
    assert_eq!(b.cwd, "/w");
    assert_eq!(FindTool::new("/f").cwd, "/f");
    assert_eq!(GrepTool::new("/g").cwd, "/g");
}

#[test]
fn edit_replaces_single_match() {
    let (new_content, report) = plan_edit("fn a() {}\nfn b() {}\n", "fn b", "fn c", "x.rs").unwrap();
    assert_eq!(new_content, "fn a() {}\nfn c() {}\n");
    assert!(report.starts_with("Edited x.rs at line 2\n```diff\n--- a/x.rs"));
    assert!(report.ends_with("\n```"));
}

#[test]
fn edit_rejects_multiple_and_missing() {
    assert_eq!(
        plan_edit("aa aa", "aa", "b", "f").unwrap_err(),
        "oldText found 2 times in 'f'. It must match exactly once to avoid ambiguous edits."
    );
    assert_eq!(
        plan_edit("abc", "zz", "b", "f").unwrap_err(),
        "oldText not found in 'f'. The exact text must exist in the file."
    );
    assert!(plan_edit("aaa", "aa", "b", "f").is_ok());
}

#[test]
fn edit_across_lines_has_no_line() {
    let (new_content, report) = plan_edit("a\nb", "a\nb", "a\nb", "p").unwrap();
    assert_eq!(new_content, "a\nb");
    assert_eq!(report, "Edited p\n```diff\n--- a/p\n+++ b/p\n 1 1 a\n 2 2 b\n```");
}

#[test]
fn read_window_and_numbering() {
    let text = "one\ntwo\nthree\nfour";
    assert_eq!(render_read(text, 0, None), "     1\tone\n     2\ttwo\n     3\tthree\n     4\tfour");
    assert_eq!(render_read(text, 2, Some(2)), "     2\ttwo\n     3\tthree");
    assert_eq!(render_read(text, 4, Some(10)), "     4\tfour");
    assert_eq!(render_read(text, 5, None), "");
}

#[test]
fn swapped_lines_keep_the_later_common_line() {
    let diff = compute_diff("a\nb", "b\na");
    let shape: Vec<(DiffLineType, &str, Option<usize>, Option<usize>)> = diff
        .lines
        .iter()
        .map(|l| (l.line_type, l.content.as_str(), l.old_line, l.new_line))
        .collect();
    assert_eq!(
        shape,
        vec![
            (DiffLineType::Removed, "a", Some(1), None),
            (DiffLineType::Context, "b", Some(2), Some(1)),
            (DiffLineType::Added, "a", None, Some(2)),
        ]
    );
}

#[test]
fn format_diff_exact_output() {
    assert_eq!(
        format_diff("a\nb\nc", "a\nx\nc", "test.txt"),
        "--- a/test.txt\n+++ b/test.txt\n 1 1 a\n-2   b\n+  2 x\n 3 3 c\n"
    );
}
