use piso::fileref::{fold_file_refs, ref_candidates, RefCandidate, RefProbe};

fn candidate(full: &str, file_path: &str, resolved: &str) -> RefCandidate {
    RefCandidate { full: full.to_string(), file_path: file_path.to_string(), resolved: resolved.to_string() }
}

#[test]
fn candidates_are_resolved_against_cwd() {
    let cs = ref_candidates("look at @src/main.rs and https://x.io", "/w");
    assert_eq!(cs.len(), 1);
    assert_eq!(cs[0].full, "@src/main.rs");
    assert_eq!(cs[0].file_path, "src/main.rs");
    assert_eq!(cs[0].resolved, "/w/src/main.rs");
    let cs = ref_candidates("see @/etc/hosts", "/w");
    assert_eq!(cs.len(), 1);
    assert_eq!(cs[0].resolved, "/etc/hosts");
}

#[test]
fn text_reference_is_inlined_before_the_message() {
    let cs = vec![candidate("@src/a.rs", "src/a.rs", "/w/src/a.rs")];
    let ps = vec![RefProbe { is_file: true, image_bytes: None, text: Some("hello".to_string()) }];
    let (msg, refs) = fold_file_refs("explain @src/a.rs", "/w", &cs, &ps);
    assert_eq!(refs.len(), 1);
    assert_eq!(refs[0].path, "src/a.rs");
    assert!(!refs[0].is_binary);
    assert_eq!(msg, "--- src/a.rs ---\nhello\n--- end of src/a.rs ---\n\nexplain");
}

#[test]
fn missing_file_leaves_message_alone() {
    let cs = vec![candidate("@nope.rs", "nope.rs", "/w/nope.rs")];
    let ps = vec![RefProbe { is_file: false, image_bytes: None, text: None }];
    let (msg, refs) = fold_file_refs("  about @nope.rs ", "/w", &cs, &ps);
    assert!(refs.is_empty());
    assert_eq!(msg, "about @nope.rs");
}

#[test]
fn image_reference_is_base64_encoded() {
    for (bytes, want) in [(&b"Man"[..], "TWFu"), (&b"Ma"[..], "TWE="), (&b"M"[..], "TQ=="), (&b"\xff\xfe\xfd\x00"[..], "//79AA==")] {
        let cs = vec![candidate("@pic.png", "pic.png", "/w/pic.png")];
        let ps = vec![RefProbe { is_file: true, image_bytes: Some(bytes.to_vec()), text: None }];
        let (_, refs) = fold_file_refs("@pic.png", "/w", &cs, &ps);
        assert_eq!(refs.len(), 1);
        assert!(refs[0].is_binary);
        let image = refs[0].image.as_ref().unwrap();
        assert_eq!(image.mime_type, "image/png");
        assert_eq!(image.base64, want);
    }
}
