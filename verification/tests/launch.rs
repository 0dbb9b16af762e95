use piso::launch::{
    allowed_tool_names, choose_model, choose_provider, effective_base_url, missing_key_message,
    piped_prompt, print_prompt,
};

fn some(s: &str) -> Option<String> {
    Some(s.to_string())
}

#[test]
fn provider_precedence() {
    assert_eq!(choose_provider(&some("a"), &some("b"), &some("c"), &some("d")), "a");
    assert_eq!(choose_provider(&None, &some("b"), &some("c"), &some("d")), "b");
    assert_eq!(choose_provider(&None, &None, &some("c"), &some("d")), "c");
    assert_eq!(choose_provider(&None, &None, &None, &some("d")), "d");
    assert_eq!(choose_provider(&None, &None, &None, &None), "anthropic");
}

#[test]
fn model_precedence() {
    assert_eq!(choose_model(&some("x"), &some("y"), &some("z")), some("x"));
    assert_eq!(choose_model(&None, &some("y"), &some("z")), some("y"));
    assert_eq!(choose_model(&None, &None, &some("z")), some("z"));
    assert_eq!(choose_model(&None, &None, &None), None);
}

#[test]
fn missing_key_names_the_variable() {
    assert_eq!(
        missing_key_message("open-router"),
        "No API key found for provider 'open-router'. Set OPEN_ROUTER_API_KEY or configure ~/.piso/models.json"
    );
}

#[test]
fn openai_endpoints_end_in_chat_completions() {
    assert_eq!(effective_base_url("openai-completions", some("https://x/v1")), some("https://x/v1/chat/completions"));
    assert_eq!(effective_base_url("openai-responses", some("https://x/v1/")), some("https://x/v1/chat/completions"));
    assert_eq!(
        effective_base_url("openai-completions", some("https://x/v1/chat/completions")),
        some("https://x/v1/chat/completions")
    );
    assert_eq!(effective_base_url("anthropic-messages", some("https://a")), some("https://a"));
    assert_eq!(effective_base_url("openai-completions", None), None);
}

#[test]
fn tool_whitelist() {
    assert_eq!(allowed_tool_names(" bash, read ,,ls "), vec!["bash".to_string(), "read".to_string(), "ls".to_string()]);
    assert!(allowed_tool_names("").is_empty());
    assert!(allowed_tool_names(" , ").is_empty());
}

#[test]
fn prompt_sources() {
    assert_eq!(print_prompt(&["fix".to_string(), "it".to_string()], some("piped")), Ok("fix it".to_string()));
    assert_eq!(print_prompt(&[], some("piped")), Ok("piped".to_string()));
    assert_eq!(print_prompt(&[], None), Err("No prompt provided. Usage: piso -p \"your prompt\"".to_string()));
    assert_eq!(piped_prompt("  hi \n"), some("hi"));
    assert_eq!(piped_prompt(" \n"), None);
}
