use piso::context::{format_context_for_prompt, order_context_files, ContextFile};
use piso::prompt::{project_prompt_path, SystemPromptBuilder};
use piso::runtime::AgentRuntime;
use piso::skills::{dedup_skills, escape_xml, format_skills_for_prompt, parse_frontmatter, skill_from_content, Skill};
use piso::token_est::{estimate, estimate_messages, ContentBlock, MessageContent};

#[test]
fn runtime_builder() {
    let rt = AgentRuntime::new(
        String::from("/project"),
        "gpt-4".into(),
        "openai".into(),
        "sk-xxx".into(),
        "openai-completions".into(),
    )
    .with_base_url("https://api.example.com")
    .with_max_tokens(8192);

    assert_eq!(rt.model, "gpt-4");
    assert_eq!(rt.base_url, Some("https://api.example.com".to_string()));
    assert_eq!(rt.max_tokens, 8192);
}

#[test]
fn runtime_defaults() {
    let rt = AgentRuntime::new("/p".into(), "m".into(), "prov".into(), "k".into(), "anthropic".into())
        .with_system_prompt("be brief");
    assert_eq!(rt.base_url, None);
    assert_eq!(rt.max_tokens, 16384);
    assert_eq!(rt.system_prompt, "be brief");
    assert_eq!(rt.cwd, "/p");
}

#[test]
fn format_skills_produces_xml() {
    let skills = vec![Skill {
        name: "test".to_string(),
        description: "A test".to_string(),
        file_path: "/tmp/test/SKILL.md".to_string(),
        content: String::new(),
        source: "test".to_string(),
    }];
    let formatted = format_skills_for_prompt(&skills);
    assert!(formatted.contains("<available_skills>"));
    assert!(formatted.contains("<name>test</name>"));
    assert!(formatted.contains("</available_skills>"));
}

#[test]
fn format_skills_exact_text() {
    let skills = vec![Skill {
        name: "a<b".to_string(),
        description: "x & \"y\"".to_string(),
        file_path: "/s/SKILL.md".to_string(),
        content: String::new(),
        source: "user".to_string(),
    }];
    let formatted = format_skills_for_prompt(&skills);
    let expected = [
        "The following skills provide specialized instructions for specific tasks.",
        "Use the read tool to load a skill's file when the task matches its description.",
        "When a skill file references a relative path, resolve it against the skill directory.",
        "",
        "<available_skills>",
        "  <skill>",
        "    <name>a&lt;b</name>",
        "    <description>x &amp; &quot;y&quot;</description>",
        "    <location>/s/SKILL.md</location>",
        "  </skill>",
        "</available_skills>",
    ]
    .join("\n");
    assert_eq!(formatted, expected);
    assert_eq!(format_skills_for_prompt(&[]), "");
}

#[test]
fn escape_xml_all_characters() {
    assert_eq!(escape_xml("<a href=\"x\">&</a>"), "&lt;a href=&quot;x&quot;&gt;&amp;&lt;/a&gt;");
    assert_eq!(escape_xml("plain 'text'"), "plain 'text'");
}

#[test]
fn frontmatter_parsed() {
    let (fm, body) = parse_frontmatter("---\nname: my-skill\ndescription: A test skill\n---\n# My Skill\nDo stuff.");
    assert_eq!(
        fm,
        vec![
            ("name".to_string(), "my-skill".to_string()),
            ("description".to_string(), "A test skill".to_string())
        ]
    );
    assert_eq!(body, "\n# My Skill\nDo stuff.");
}

#[test]
fn frontmatter_quotes_comments_and_missing_end() {
    let (fm, _) = parse_frontmatter("  ---\n# note\nname: \"quoted\"\nbad line\nk: 'v'\n---\nbody");
    assert_eq!(
        fm,
        vec![("name".to_string(), "quoted".to_string()), ("k".to_string(), "v".to_string())]
    );
    let (fm, body) = parse_frontmatter("---\nname: x\nno end");
    assert!(fm.is_empty());
    assert_eq!(body, "---\nname: x\nno end");
    let (fm, body) = parse_frontmatter("Just some content.");
    assert!(fm.is_empty());
    assert_eq!(body, "Just some content.");
}

#[test]
fn skill_from_frontmatter_and_fallbacks() {
    let s = skill_from_content(
        "---\nname: my-skill\ndescription: A test skill\n---\n# My Skill\nDo stuff.",
        "/d/my-skill/SKILL.md",
        "dir-name",
        "test",
    );
    assert_eq!(s.name, "my-skill");
    assert_eq!(s.description, "A test skill");
    assert!(s.content.contains("Do stuff."));
    let s = skill_from_content("Just some content.", "/d/auto-name/SKILL.md", "auto-name", "test");
    assert_eq!(s.name, "auto-name");
    assert_eq!(s.description, "Just some content.");
    let s = skill_from_content("# Title\n\n", "/p", "fallback", "user");
    assert_eq!(s.description, "fallback");
}

#[test]
fn skills_deduplicated_last_wins() {
    let mk = |name: &str, src: &str| Skill {
        name: name.to_string(),
        description: String::new(),
        file_path: String::new(),
        content: String::new(),
        source: src.to_string(),
    };
    let out = dedup_skills(vec![mk("my-skill", "global"), mk("other", "global"), mk("my-skill", "project")]);
    assert_eq!(out.len(), 2);
    assert_eq!(out[0].name, "other");
    assert_eq!(out[1].name, "my-skill");
    assert_eq!(out[1].source, "project");
}

#[test]
fn basic_prompt_contains_tool_guide() {
    let builder = SystemPromptBuilder::new("/tmp").with_tool_guides();
    let prompt = builder.build();
    assert!(prompt.contains("read"));
    assert!(prompt.contains("bash"));
    assert!(prompt.contains("edit"));
}

#[test]
fn prompt_is_dated_year_month_day() {
    let prompt = SystemPromptBuilder::new("/tmp").build();
    let at = prompt.find("- Current date: ").unwrap() + "- Current date: ".len();
    let date: String = prompt[at..].chars().take_while(|c| *c != '\n').collect();
    let parts: Vec<&str> = date.split('-').collect();
    assert_eq!(parts.len(), 3);
    assert!(parts[0].len() >= 4 && parts[0].chars().all(|c| c.is_ascii_digit()));
    assert!(parts[1].len() == 2 && parts[1].chars().all(|c| c.is_ascii_digit()));
    assert!(parts[2].len() == 2 && parts[2].chars().all(|c| c.is_ascii_digit()));
}

#[test]
fn custom_prompt_override() {
    let builder = SystemPromptBuilder::new("/tmp").with_custom_prompt("You are a test assistant.");
    let prompt = builder.build();
    assert!(prompt.contains("test assistant"));
}

#[test]
fn append_prompt() {
    let builder = SystemPromptBuilder::new("/tmp").append("Extra instructions here.");
    let prompt = builder.build();
    assert!(prompt.contains("Extra instructions"));
}

#[test]
fn model_info_injected() {
    let builder = SystemPromptBuilder::new("/tmp").with_model_info("glm-5.1", "zhipu");
    let prompt = builder.build();
    assert!(prompt.contains("You are glm-5.1 served by zhipu."));
}

#[test]
fn date_injected_in_prompt() {
    let builder = SystemPromptBuilder::new("/tmp");
    let prompt = builder.build();
    assert!(prompt.contains("Current date: 20"));
    assert!(prompt.contains("Current working directory: /tmp"));
}

#[test]
fn prompt_parts_in_order() {
    let p = SystemPromptBuilder::new("/w")
        .with_custom_prompt("ROLE")
        .with_model_info("m", "p")
        .append("one")
        .append("two")
        .build_with_date("2024-01-02");
    assert_eq!(p, "ROLE\n\nYou are m served by p.\n\none\n\ntwo");
    let p = SystemPromptBuilder::default().build_with_date("2024-01-02");
    assert!(p.starts_with("You are a helpful coding assistant"));
    assert!(p.contains("- Working directory: .\n"));
    assert!(p.contains("- Current date: 2024-01-02\n"));
    assert!(p.ends_with("Don't make up information.\n"));
}

#[test]
fn prompt_guides_section() {
    let p = SystemPromptBuilder::new("/w").with_custom_prompt("R").with_tool_guides().build_with_date("d");
    assert!(p.starts_with("R\n\n# Tool Usage Guide\n\n### bash"));
    assert!(p.contains("### grep — Search file contents"));
    assert!(p.ends_with("`file:line\\tcontent`.\n"));
}

#[test]
fn empty_text() {
    let est = estimate("");
    assert_eq!(est.tokens, 0);
}

#[test]
fn english_text() {
    let est = estimate("Hello world, this is a test.");
    assert!(est.tokens > 0 && est.tokens < 15);
}

#[test]
fn cjk_text() {
    let est = estimate("你好世界测试");
    assert_eq!(est.chars, 6);
    assert!(est.tokens >= 4);
}

#[test]
fn mixed_text() {
    let est = estimate("Hello 你好 world 世界");
    assert!(est.tokens >= 5 && est.tokens <= 10);
}

#[test]
fn long_text() {
    let text = "a ".repeat(1000);
    let est = estimate(&text);
    assert!(est.tokens > 400 && est.tokens < 600);
}

#[test]
fn estimate_exact_values() {
    assert_eq!(estimate("你好世界测试").tokens, 4);
    assert_eq!(estimate("abcde").tokens, 2);
    assert_eq!(estimate("Hello 你好 world 世界").tokens, 3 + 4);
}

#[test]
fn estimate_messages_empty() {
    let msgs: Vec<MessageContent> = vec![];
    assert_eq!(estimate_messages(&msgs), 0);
}

#[test]
fn estimate_messages_with_text() {
    let msgs = vec![MessageContent {
        blocks: Some(vec![ContentBlock { block_type: "text".to_string(), text: Some("Hello".to_string()) }]),
    }];
    let tokens = estimate_messages(&msgs);
    assert!(tokens > 0);
    assert_eq!(tokens, 2 + 4);
}

#[test]
fn context_format_and_order() {
    let f = |p: &str, c: &str| ContextFile { path: p.to_string(), content: c.to_string() };
    let ordered = order_context_files(
        Some(f("/home/u/.pi/agent/AGENTS.md", "global")),
        &[f("/a/b/AGENTS.MD", "child"), f("/a/AGENTS.md", "parent"), f("/home/u/.pi/agent/AGENTS.md", "dup")],
    );
    let contents: Vec<&str> = ordered.iter().map(|c| c.content.as_str()).collect();
    assert_eq!(contents, vec!["global", "parent", "child"]);
    let text = format_context_for_prompt(&ordered[..1]);
    assert_eq!(
        text,
        "# Project Context\n\nThe following context files were loaded to guide your behavior.\n\n## /home/u/.pi/agent/AGENTS.md \n\nglobal\n"
    );
    assert_eq!(format_context_for_prompt(&[]), "");
}

#[test]
fn project_prompt_is_appended_when_read() {
    assert_eq!(project_prompt_path("/p"), "/p/.piso/system.md");
    let with = SystemPromptBuilder::new("/p").with_project_prompt(Some("Project rules here.")).build_with_date("2024-01-02");
    let without = SystemPromptBuilder::new("/p").with_project_prompt(None).build_with_date("2024-01-02");
    assert!(with.contains("Project rules here."));
    assert!(!without.contains("Project rules here."));
    assert_eq!(without, SystemPromptBuilder::new("/p").build_with_date("2024-01-02"));
}
