use piso::json::JsonValue;
use piso::message::ToolDefinition;
use piso::tool_registry::{ExtensionTool, ToolExecutor, ToolRegistry};
use piso::tools::GrepTool;

#[derive(Clone)]
struct DummyTool;

impl ToolExecutor for DummyTool {
    fn definition(&self) -> ToolDefinition {
        ToolDefinition {
            name: "dummy".to_string(),
            description: "A test tool".to_string(),
            parameters: JsonValue::Object(Vec::new()),
            requires_approval: false,
        }
    }
}

#[derive(Clone)]
struct NamedTool(&'static str, &'static str);

impl ToolExecutor for NamedTool {
    fn definition(&self) -> ToolDefinition {
        ToolDefinition {
            name: self.0.to_string(),
            description: self.1.to_string(),
            parameters: JsonValue::Object(Vec::new()),
            requires_approval: false,
        }
    }
}

#[test]
fn register_and_get() {
    let mut reg = ToolRegistry::new();
    reg.register(DummyTool);

    assert!(reg.get("dummy").is_some());
    assert!(reg.get("nonexistent").is_none());
}

#[test]
fn list_names() {
    let mut reg = ToolRegistry::new();
    reg.register(DummyTool);

    let names = reg.names();
    assert!(names.contains(&"dummy".to_string()));
}

#[test]
fn definitions() {
    let mut reg = ToolRegistry::new();
    reg.register(DummyTool);

    let defs = reg.definitions();
    assert_eq!(defs.len(), 1);
    assert_eq!(defs[0].name, "dummy");
}

#[test]
fn retain_whitelist() {
    let mut reg = ToolRegistry::new();
    reg.register(DummyTool);

    reg.retain(|name: &str| name == "nonexistent");
    assert!(reg.get("dummy").is_none());
    assert!(reg.names().is_empty());
}

#[test]
fn retain_keeps_matching() {
    let mut reg = ToolRegistry::new();
    reg.register(DummyTool);

    reg.retain(|name: &str| name == "dummy");
    assert!(reg.get("dummy").is_some());
}

#[test]
fn clone_for_agent() {
    let mut reg = ToolRegistry::new();
    reg.register(DummyTool);

    let clone = reg.clone_for_agent();
    assert!(clone.get("dummy").is_some());
    assert!(reg.get("dummy").is_some());
}

#[test]
fn tool_definition() {
    let tool = GrepTool::new("/tmp");
    let def = tool.definition();
    assert_eq!(def.name, "grep");
}

#[test]
fn definition_has_schema() {
    let tool = ExtensionTool::new("test", "desc", |_: &str| Ok("ok".to_string()));
    let def = tool.definition();
    assert_eq!(def.name, "test");
    assert!(matches!(def.parameters, JsonValue::Object(_)));
}

#[test]
fn register_replaces_same_name_in_place() {
    let mut reg = ToolRegistry::new();
    reg.register(NamedTool("a", "first"));
    reg.register(NamedTool("b", "second"));
    reg.register(NamedTool("a", "third"));
    assert_eq!(reg.names(), vec!["a".to_string(), "b".to_string()]);
    assert_eq!(reg.get_definition("a").unwrap().description, "third");
    assert!(reg.get_definition("c").is_none());
}

#[test]
fn retain_keeps_order_of_the_rest() {
    let mut reg = ToolRegistry::new();
    reg.register(NamedTool("a", ""));
    reg.register(NamedTool("b", ""));
    reg.register(NamedTool("c", ""));
    reg.retain(|name: &str| name != "b");
    assert_eq!(reg.names(), vec!["a".to_string(), "c".to_string()]);
}

#[test]
fn clone_is_independent() {
    let mut reg = ToolRegistry::new();
    reg.register(NamedTool("a", ""));
    let mut clone = reg.clone_for_agent();
    clone.retain(|_: &str| false);
    assert!(clone.names().is_empty());
    assert_eq!(reg.names(), vec!["a".to_string()]);
}
