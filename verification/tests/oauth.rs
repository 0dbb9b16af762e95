use piso::json::JsonValue;
use piso::oauth::{cached_token, remove_token, store_token, token_poll_step, CachedToken, TokenPoll};

fn obj(members: Vec<(&str, JsonValue)>) -> JsonValue {
    JsonValue::Object(members.into_iter().map(|(k, v)| (k.to_string(), v)).collect())
}

#[test]
fn poll_answers() {
    assert!(matches!(token_poll_step(Some("tok"), None, None), TokenPoll::Granted(t) if t == "tok"));
    assert!(matches!(token_poll_step(None, Some("authorization_pending"), None), TokenPoll::Pending));
    assert!(matches!(token_poll_step(None, None, None), TokenPoll::Pending));
    assert!(matches!(token_poll_step(None, Some("slow_down"), None), TokenPoll::SlowDown));
    assert!(matches!(token_poll_step(None, Some("expired_token"), None),
        TokenPoll::Failed(m) if m == "Device code expired. Please try again."));
    assert!(matches!(token_poll_step(None, Some("access_denied"), Some("no")),
        TokenPoll::Failed(m) if m == "OAuth error: access_denied - no"));
    assert!(matches!(token_poll_step(None, Some("x"), None), TokenPoll::Failed(m) if m == "OAuth error: x - "));
}

#[test]
fn save_and_read_token() {
    let entries = store_token(obj(vec![]), "gho_test123");
    assert_eq!(cached_token(&entries).as_deref(), Some("gho_test123"));
    assert_eq!(
        entries.to_text(),
        "{\"copilot\":{\"access_token\":\"gho_test123\",\"token_type\":\"bearer\",\"provider\":\"github-copilot\"}}"
    );
    let cleared = remove_token(entries);
    assert_eq!(cached_token(&cleared), None);
}

#[test]
fn save_preserves_existing_entries() {
    let existing = obj(vec![("anthropic", obj(vec![("key", JsonValue::Str("sk".to_string()))]))]);
    let entries = store_token(existing, "tok1");
    let entries = store_token(entries, "tok2");
    assert_eq!(cached_token(&entries).as_deref(), Some("tok2"));
    assert!(entries.get("anthropic").is_some());
    let cleared = remove_token(entries);
    assert!(cleared.get("anthropic").is_some());
    assert!(cleared.get("copilot").is_none());
}

#[test]
fn non_object_credentials_are_left_alone() {
    let entries = store_token(JsonValue::Null, "t");
    assert!(matches!(entries, JsonValue::Null));
    assert_eq!(cached_token(&entries), None);
}

#[test]
fn cached_token_stored_form() {
    let t = CachedToken {
        access_token: "a".to_string(),
        token_type: "bearer".to_string(),
        expires_at: None,
        provider: "github-copilot".to_string(),
    };
    assert_eq!(
        t.to_json().to_text(),
        "{\"access_token\":\"a\",\"token_type\":\"bearer\",\"expires_at\":null,\"provider\":\"github-copilot\"}"
    );
}
