use std::sync::{Arc, Mutex};

use piso::ext_store::ExtensionStore;
use piso::extension::{
    create_runner, first_rendering, BasicExtensionApi, ExtensionApi, ExtensionLoader, ExtensionRunner, HookRegistry, ToolEntry,
};
use piso::hooks::{CommandHandler, EditorHint, MessageRenderer, OutcomeHook, TextHook, ToolHandler};

#[test]
fn extension_store() {
    let mut store = ExtensionStore::new();
    assert!(store.get("key").is_none());
    store.set("key", "value");
    assert_eq!(store.get("key"), Some("value"));
    store.remove("key");
    assert!(store.get("key").is_none());
}

#[test]
fn extension_store_overwrite_and_keys() {
    let mut store = ExtensionStore::new();
    store.set("a", "1");
    store.set("b", "2");
    store.set("a", "3");
    assert_eq!(store.get("a"), Some("3"));
    assert_eq!(store.get("b"), Some("2"));
    assert_eq!(store.keys(), vec!["a".to_string(), "b".to_string()]);
    store.remove("missing");
    store.remove("a");
    assert_eq!(store.keys(), vec!["b".to_string()]);
}

#[test]
fn register_and_invoke_hooks() {
    let mut api = BasicExtensionApi::new("test");
    api.on_agent_start(Box::new(|prompt: &str| {
        assert_eq!(prompt, "hello");
    }));
    api.on_tool_call_end(Box::new(|name: &str, _output: &str, is_error: bool| {
        assert_eq!(name, "bash");
        assert!(!is_error);
    }));

    let hooks = api.into_hooks();
    assert_eq!(hooks.on_agent_start.len(), 1);
    assert_eq!(hooks.on_tool_call_end.len(), 1);

    TextHook::call(hooks.on_agent_start[0].as_ref(), "hello");
    OutcomeHook::call(hooks.on_tool_call_end[0].as_ref(), "bash", "ok", false);
}

#[test]
fn register_tool_and_command() {
    let mut api = BasicExtensionApi::new("test-ext");

    api.register_tool("my_tool", "A test tool", Box::new(|input: &str| Ok(format!("processed: {}", input))));

    api.register_command(
        "hello",
        "Say hello",
        Box::new(|args: &str| if args.is_empty() { Err("missing args".into()) } else { Ok(()) }),
    );

    let hooks = api.into_hooks();
    assert_eq!(hooks.tools.len(), 1);
    assert_eq!(hooks.tools[0].name, "my_tool");
    let result = ToolHandler::call(hooks.tools[0].handler.as_ref(), "{\"a\":1}");
    assert_eq!(result.unwrap(), "processed: {\"a\":1}");

    assert_eq!(hooks.commands.len(), 1);
    assert!(CommandHandler::call(hooks.commands[0].handler.as_ref(), "world").is_ok());
    assert!(CommandHandler::call(hooks.commands[0].handler.as_ref(), "").is_err());
}

#[test]
fn api_name_and_store() {
    let api = BasicExtensionApi::new("named");
    assert_eq!(api.name(), "named");
    assert!(api.store().get("anything").is_none());
}

#[test]
fn create_runner_from_hooks() {
    let mut hooks = HookRegistry::default();
    hooks.on_agent_start.push(Box::new(|_: &str| {}));
    let runner = create_runner(hooks);
    assert_eq!(runner.tool_names().len(), 0);
}

#[test]
fn fire_lifecycle_hooks() {
    let log = Arc::new(Mutex::new(Vec::new()));

    let mut hooks = HookRegistry::default();

    let log_start = log.clone();
    hooks.on_agent_start.push(Box::new(move |prompt: &str| {
        log_start.lock().unwrap().push(format!("start:{}", prompt));
    }));

    let log_done = log.clone();
    hooks.on_agent_done.push(Box::new(move |output: &str| {
        log_done.lock().unwrap().push(format!("done:{}", output));
    }));

    let runner = ExtensionRunner::new(hooks);
    runner.fire_agent_start("hello");
    runner.fire_agent_done("world");

    let entries = log.lock().unwrap();
    assert_eq!(&*entries, &vec!["start:hello", "done:world"]);
}

#[test]
fn find_tool_by_name() {
    let mut hooks = HookRegistry::default();
    hooks.tools.push(ToolEntry {
        name: "grep".into(),
        description: "Search".into(),
        handler: Box::new(|_: &str| Ok("found".into())),
    });

    let runner = ExtensionRunner::new(hooks);
    assert!(runner.find_tool("grep").is_some());
    assert!(runner.find_tool("missing").is_none());
    assert_eq!(runner.tool_names(), vec!["grep"]);
}

#[test]
fn find_returns_first_of_a_name() {
    let mut hooks = HookRegistry::default();
    hooks.tools.push(ToolEntry { name: "t".into(), description: "first".into(), handler: Box::new(|_: &str| Ok("1".into())) });
    hooks.tools.push(ToolEntry { name: "t".into(), description: "second".into(), handler: Box::new(|_: &str| Ok("2".into())) });
    let runner = ExtensionRunner::new(hooks);
    assert_eq!(runner.find_tool("t").unwrap().description, "first");
    assert_eq!(runner.tool_names(), vec!["t", "t"]);
    assert!(runner.find_command("t").is_none());
    assert!(runner.command_names().is_empty());
}

#[test]
fn renderers_and_hints() {
    let runner = ExtensionRunner::empty();
    assert!(!runner.has_message_renderers());
    assert_eq!(runner.render_message("user", "hi"), None);
    assert!(runner.editor_hints().is_empty());

    let mut hooks = HookRegistry::default();
    let r1: Box<dyn MessageRenderer> = Box::new(|_: &str, _: &str| None);
    let r2: Box<dyn MessageRenderer> = Box::new(|role: &str, c: &str| Some(format!("[{role}] {c}")));
    hooks.message_renderers.push(r1);
    hooks.message_renderers.push(r2);
    let h: Box<dyn EditorHint> = Box::new(|| "hint".to_string());
    hooks.editor_hints.push(h);
    let runner = ExtensionRunner::new(hooks);
    assert!(runner.has_message_renderers());
    assert_eq!(runner.render_message("user", "hi").as_deref(), Some("[user] hi"));
    assert_eq!(runner.editor_hints(), vec!["hint".to_string()]);
}

#[test]
fn first_answering_renderer_wins() {
    assert_eq!(first_rendering(&[]), None);
    assert_eq!(first_rendering(&[None, None]), None);
    assert_eq!(
        first_rendering(&[None, Some("b".to_string()), Some("c".to_string())]),
        Some("b".to_string())
    );

    let asked = Arc::new(Mutex::new(0));
    let mut hooks = HookRegistry::default();
    let first: Box<dyn MessageRenderer> = Box::new(|_: &str, c: &str| Some(format!("first {c}")));
    let a = asked.clone();
    let second: Box<dyn MessageRenderer> = Box::new(move |_: &str, _: &str| {
        *a.lock().unwrap() += 1;
        Some("second".to_string())
    });
    hooks.message_renderers.push(first);
    hooks.message_renderers.push(second);
    let runner = ExtensionRunner::new(hooks);
    assert_eq!(runner.render_message("assistant", "x").as_deref(), Some("first x"));
    assert_eq!(*asked.lock().unwrap(), 0);
}

#[test]
fn fire_all_kinds_in_order() {
    let log = Arc::new(Mutex::new(Vec::<String>::new()));
    let mut hooks = HookRegistry::default();
    let l = log.clone();
    hooks.on_session_compact.push(Box::new(move |n: usize| l.lock().unwrap().push(format!("compact:{n}"))));
    let l = log.clone();
    hooks.on_session_shutdown.push(Box::new(move || l.lock().unwrap().push("shutdown".to_string())));
    let l = log.clone();
    hooks.on_after_provider_response.push(Box::new(move |m: &str, i: u64, o: u64| l.lock().unwrap().push(format!("{m}:{i}:{o}"))));
    let l = log.clone();
    hooks.on_error.push(Box::new(move |m: &str| l.lock().unwrap().push(format!("err:{m}"))));
    let runner = ExtensionRunner::new(hooks);
    runner.fire_session_compact(3);
    runner.fire_after_provider_response("gpt", 10, 20);
    runner.fire_error("boom");
    runner.fire_session_shutdown();
    runner.fire_turn_start("not registered");
    assert_eq!(&*log.lock().unwrap(), &vec!["compact:3", "gpt:10:20", "err:boom", "shutdown"]);
}

#[test]
fn load_multiple_extensions() {
    let mut loader = ExtensionLoader::new();

    loader.register("ext1", |api| {
        api.register_tool("tool1", "First tool", Box::new(|input: &str| Ok(format!("ext1: {}", input))));
    });

    loader.register("ext2", |api| {
        api.on_agent_start(Box::new(|_prompt: &str| {}));
        api.register_tool("tool2", "Second tool", Box::new(|input: &str| Ok(format!("ext2: {}", input))));
    });

    let hooks = loader.load_all();
    assert_eq!(hooks.tools.len(), 2);
    assert_eq!(hooks.on_agent_start.len(), 1);

    let result = ToolHandler::call(hooks.tools[0].handler.as_ref(), "test");
    assert_eq!(result.unwrap(), "ext1: test");
    let result = ToolHandler::call(hooks.tools[1].handler.as_ref(), "test");
    assert_eq!(result.unwrap(), "ext2: test");
}

#[test]
fn empty_loader_ok() {
    let loader = ExtensionLoader::new();
    let hooks = loader.load_all();
    assert!(hooks.tools.is_empty());
    assert!(hooks.commands.is_empty());
}

#[test]
fn loader_scan_dir_finds_nothing() {
    let mut loader = ExtensionLoader::default();
    assert!(loader.scan_dir("/nonexistent").is_ok());
    assert!(loader.load_all().tools.is_empty());
}

#[test]
fn merge_appends_and_keeps_last_session_name() {
    let mut a = HookRegistry::default();
    a.session_name = Some("first".to_string());
    a.tools.push(ToolEntry { name: "x".into(), description: String::new(), handler: Box::new(|_: &str| Ok(String::new())) });
    let mut b = HookRegistry::default();
    b.tools.push(ToolEntry { name: "y".into(), description: String::new(), handler: Box::new(|_: &str| Ok(String::new())) });
    a.merge(b);
    assert_eq!(a.session_name.as_deref(), Some("first"));
    let names: Vec<&str> = a.tools.iter().map(|t| t.name.as_str()).collect();
    assert_eq!(names, vec!["x", "y"]);
    let mut c = HookRegistry::default();
    c.session_name = Some("second".to_string());
    a.merge(c);
    assert_eq!(a.session_name.as_deref(), Some("second"));
}
