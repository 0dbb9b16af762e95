//! What each tool tells the model about itself, the tools that extensions
//! provide, and the registry that holds the tools of an agent by name.

use vstd::prelude::*;
use crate::hooks::ToolHandler;
use crate::json::{jview, jview_items, jview_members, JsonValue, JsonView};
use crate::message::{ToolDefView, ToolDefinition};
use crate::text::str_eq;
use crate::tools::{BashTool, EditTool, FindTool, GrepTool, LsTool, ReadTool, WriteTool};
use crate::transform::{js, obj2, obj3, push_json};

verus! {

/// A tool an agent can call.
pub trait ToolExecutor {
    /// What the tool tells the model about itself.
    fn definition(&self) -> ToolDefinition;
}

// ---------------------------------------------------------------------
// Parameter schemas
// ---------------------------------------------------------------------

/// A described parameter: its name, JSON type and description.
pub type ParamView = (Seq<char>, Seq<char>, Seq<char>);

/// The schema of one parameter.
pub open spec fn param_schema(p: ParamView) -> JsonView {
    JsonView::Object(seq![("type"@, js(p.1)), ("description"@, js(p.2))])
}

/// The properties of a list of parameters.
pub open spec fn param_members(ps: Seq<ParamView>) -> Seq<(Seq<char>, JsonView)> {
    ps.map_values(|p: ParamView| (p.0, param_schema(p)))
}

/// An object schema with the given parameters, of which `required` must be
/// given.
pub open spec fn object_schema(properties: Seq<(Seq<char>, JsonView)>, required: Seq<Seq<char>>) -> JsonView {
    JsonView::Object(seq![
        ("type"@, js("object"@)),
        ("properties"@, JsonView::Object(properties)),
        ("required"@, JsonView::Array(required.map_values(|r: Seq<char>| js(r)))),
    ])
}

fn param(name: &str, ty: &str, description: &str) -> (r: (String, JsonValue))
    ensures
        r.0@ == name@,
        jview(r.1) == param_schema((name@, ty@, description@)),
{
    (name.to_string(), obj2("type", JsonValue::string(ty), "description", JsonValue::string(description)))
}

fn push_member(m: &mut Vec<(String, JsonValue)>, x: (String, JsonValue))
    ensures
        jview_members(final(m)@) == jview_members(old(m)@).push((x.0@, jview(x.1))),
{
    let ghost before = m@;
    m.push(x);
    assert(m@.drop_last() =~= before);
}

fn names_array(names: &[&str]) -> (j: JsonValue)
    ensures
        jview(j) == JsonView::Array(crate::text::slices_view(names@).map_values(|r: Seq<char>| js(r))),
{
    let ghost ns = crate::text::slices_view(names@);
    let mut out: Vec<JsonValue> = Vec::new();
    let mut i: usize = 0;
    while i < names.len()
        invariant
            i <= names.len(),
            ns == crate::text::slices_view(names@),
            ns.len() == names@.len(),
            jview_items(out@) == ns.subrange(0, i as int).map_values(|r: Seq<char>| js(r)),
        decreases names.len() - i,
    {
        push_json(&mut out, JsonValue::string(names[i]));
        assert(ns[i as int] == names@[i as int]@);
        assert(ns.subrange(0, i + 1).map_values(|r: Seq<char>| js(r))
            =~= ns.subrange(0, i as int).map_values(|r: Seq<char>| js(r)).push(js(ns[i as int])));
        i = i + 1;
    }
    assert(ns.subrange(0, names.len() as int) =~= ns);
    JsonValue::Array(out)
}

fn schema_of(properties: Vec<(String, JsonValue)>, required: &[&str]) -> (j: JsonValue)
    ensures
        jview(j) == object_schema(jview_members(properties@), crate::text::slices_view(required@)),
{
    obj3("type", JsonValue::string("object"), "properties", JsonValue::Object(properties), "required", names_array(required))
}

pub open spec fn def_view(name: Seq<char>, description: Seq<char>, parameters: JsonView) -> ToolDefView {
    ToolDefView { name, description, parameters }
}

// ---------------------------------------------------------------------
// The built-in tools
// ---------------------------------------------------------------------

pub open spec fn bash_definition() -> ToolDefView {
    def_view(
        "bash"@,
        "Execute a shell command and return the output."@,
        object_schema(
            param_members(seq![
                ("command"@, "string"@, "The shell command to execute"@),
                ("timeout"@, "number"@, "Timeout in seconds (default 120)"@),
            ]),
            seq!["command"@],
        ),
    )
}

impl ToolExecutor for BashTool {

    fn definition(&self) -> (d: ToolDefinition)
        ensures
            d@ == bash_definition(),
            !d.requires_approval,
    {
        let mut props: Vec<(String, JsonValue)> = Vec::new();
        push_member(&mut props, param("command", "string", "The shell command to execute"));
        push_member(&mut props, param("timeout", "number", "Timeout in seconds (default 120)"));
        let required = ["command"];
        assert(crate::text::slices_view(required@) =~= seq!["command"@]);
        let ghost pm = jview_members(props@);
        assert(pm =~= param_members(seq![
            ("command"@, "string"@, "The shell command to execute"@),
            ("timeout"@, "number"@, "Timeout in seconds (default 120)"@),
        ]));
        ToolDefinition {
            name: "bash".to_string(),
            description: "Execute a shell command and return the output.".to_string(),
            parameters: schema_of(props, &required),
            requires_approval: false,
        }
    }
}

pub open spec fn read_definition() -> ToolDefView {
    def_view(
        "read"@,
        "Read the contents of a file. Returns the file content with line numbers."@,
        object_schema(
            param_members(seq![
                ("path"@, "string"@, "Path to the file to read (relative or absolute)"@),
                ("offset"@, "number"@, "Line number to start reading from (1-indexed)"@),
                ("limit"@, "number"@, "Maximum number of lines to read"@),
            ]),
            seq!["path"@],
        ),
    )
}

impl ToolExecutor for ReadTool {

    fn definition(&self) -> (d: ToolDefinition)
        ensures
            d@ == read_definition(),
            !d.requires_approval,
    {
        let mut props: Vec<(String, JsonValue)> = Vec::new();
        push_member(&mut props, param("path", "string", "Path to the file to read (relative or absolute)"));
        push_member(&mut props, param("offset", "number", "Line number to start reading from (1-indexed)"));
        push_member(&mut props, param("limit", "number", "Maximum number of lines to read"));
        let required = ["path"];
        assert(crate::text::slices_view(required@) =~= seq!["path"@]);
        let ghost pm = jview_members(props@);
        assert(pm =~= param_members(seq![
            ("path"@, "string"@, "Path to the file to read (relative or absolute)"@),
            ("offset"@, "number"@, "Line number to start reading from (1-indexed)"@),
            ("limit"@, "number"@, "Maximum number of lines to read"@),
        ]));
        ToolDefinition {
            name: "read".to_string(),
            description: "Read the contents of a file. Returns the file content with line numbers.".to_string(),
            parameters: schema_of(props, &required),
            requires_approval: false,
        }
    }
}

pub open spec fn write_definition() -> ToolDefView {
    def_view(
        "write"@,
        "Write content to a file. Creates the file if it doesn't exist, overwrites if it does. Automatically creates parent directories."@,
        object_schema(
            param_members(seq![
                ("path"@, "string"@, "Path to the file to write (relative or absolute)"@),
                ("content"@, "string"@, "Content to write to the file"@),
            ]),
            seq!["path"@, "content"@],
        ),
    )
}

impl ToolExecutor for WriteTool {

    fn definition(&self) -> (d: ToolDefinition)
        ensures
            d@ == write_definition(),
            !d.requires_approval,
    {
        let mut props: Vec<(String, JsonValue)> = Vec::new();
        push_member(&mut props, param("path", "string", "Path to the file to write (relative or absolute)"));
        push_member(&mut props, param("content", "string", "Content to write to the file"));
        let required = ["path", "content"];
        assert(crate::text::slices_view(required@) =~= seq!["path"@, "content"@]);
        let ghost pm = jview_members(props@);
        assert(pm =~= param_members(seq![
            ("path"@, "string"@, "Path to the file to write (relative or absolute)"@),
            ("content"@, "string"@, "Content to write to the file"@),
        ]));
        ToolDefinition {
            name: "write".to_string(),
            description: "Write content to a file. Creates the file if it doesn't exist, overwrites if it does. Automatically creates parent directories.".to_string(),
            parameters: schema_of(props, &required),
            requires_approval: false,
        }
    }
}

pub open spec fn edit_definition() -> ToolDefView {
    def_view(
        "edit"@,
        "Make precise edits to a file using exact text replacement. The oldText must match exactly in the file."@,
        object_schema(
            param_members(seq![
                ("path"@, "string"@, "Path to the file to edit"@),
                ("oldText"@, "string"@, "Exact text to find and replace"@),
                ("newText"@, "string"@, "Replacement text"@),
            ]),
            seq!["path"@, "oldText"@, "newText"@],
        ),
    )
}

impl ToolExecutor for EditTool {

    fn definition(&self) -> (d: ToolDefinition)
        ensures
            d@ == edit_definition(),
            !d.requires_approval,
    {
        let mut props: Vec<(String, JsonValue)> = Vec::new();
        push_member(&mut props, param("path", "string", "Path to the file to edit"));
        push_member(&mut props, param("oldText", "string", "Exact text to find and replace"));
        push_member(&mut props, param("newText", "string", "Replacement text"));
        let required = ["path", "oldText", "newText"];
        assert(crate::text::slices_view(required@) =~= seq!["path"@, "oldText"@, "newText"@]);
        let ghost pm = jview_members(props@);
        assert(pm =~= param_members(seq![
            ("path"@, "string"@, "Path to the file to edit"@),
            ("oldText"@, "string"@, "Exact text to find and replace"@),
            ("newText"@, "string"@, "Replacement text"@),
        ]));
        ToolDefinition {
            name: "edit".to_string(),
            description: "Make precise edits to a file using exact text replacement. The oldText must match exactly in the file.".to_string(),
            parameters: schema_of(props, &required),
            requires_approval: false,
        }
    }
}

pub open spec fn find_definition() -> ToolDefView {
    def_view(
        "find"@,
        "Find files and directories matching a pattern. Supports glob patterns."@,
        object_schema(
            param_members(seq![
                ("pattern"@, "string"@, "Glob pattern to match (e.g. \"**/*.rs\", \"src/**/*.ts\")"@),
                ("path"@, "string"@, "Base directory to search in (default: current working directory)"@),
                ("max_depth"@, "number"@, "Maximum directory depth to search"@),
            ]),
            seq!["pattern"@],
        ),
    )
}

impl ToolExecutor for FindTool {

    fn definition(&self) -> (d: ToolDefinition)
        ensures
            d@ == find_definition(),
            !d.requires_approval,
    {
        let mut props: Vec<(String, JsonValue)> = Vec::new();
        push_member(&mut props, param("pattern", "string", "Glob pattern to match (e.g. \"**/*.rs\", \"src/**/*.ts\")"));
        push_member(&mut props, param("path", "string", "Base directory to search in (default: current working directory)"));
        push_member(&mut props, param("max_depth", "number", "Maximum directory depth to search"));
        let required = ["pattern"];
        assert(crate::text::slices_view(required@) =~= seq!["pattern"@]);
        let ghost pm = jview_members(props@);
        assert(pm =~= param_members(seq![
            ("pattern"@, "string"@, "Glob pattern to match (e.g. \"**/*.rs\", \"src/**/*.ts\")"@),
            ("path"@, "string"@, "Base directory to search in (default: current working directory)"@),
            ("max_depth"@, "number"@, "Maximum directory depth to search"@),
        ]));
        ToolDefinition {
            name: "find".to_string(),
            description: "Find files and directories matching a pattern. Supports glob patterns.".to_string(),
            parameters: schema_of(props, &required),
            requires_approval: false,
        }
    }
}

pub open spec fn grep_definition() -> ToolDefView {
    def_view(
        "grep"@,
        "Search file contents for a text pattern. Supports regex."@,
        object_schema(
            param_members(seq![
                ("pattern"@, "string"@, "Search pattern (regex supported)"@),
                ("path"@, "string"@, "File or directory to search in (default: current working directory)"@),
                ("include"@, "string"@, "File glob pattern to include (e.g. \"*.rs\", \"*.ts\")"@),
                ("case_insensitive"@, "boolean"@, "Case-insensitive search (default: false)"@),
            ]),
            seq!["pattern"@],
        ),
    )
}

impl ToolExecutor for GrepTool {

    fn definition(&self) -> (d: ToolDefinition)
        ensures
            d@ == grep_definition(),
            !d.requires_approval,
    {
        let mut props: Vec<(String, JsonValue)> = Vec::new();
        push_member(&mut props, param("pattern", "string", "Search pattern (regex supported)"));
        push_member(&mut props, param("path", "string", "File or directory to search in (default: current working directory)"));
        push_member(&mut props, param("include", "string", "File glob pattern to include (e.g. \"*.rs\", \"*.ts\")"));
        push_member(&mut props, param("case_insensitive", "boolean", "Case-insensitive search (default: false)"));
        let required = ["pattern"];
        assert(crate::text::slices_view(required@) =~= seq!["pattern"@]);
        let ghost pm = jview_members(props@);
        assert(pm =~= param_members(seq![
            ("pattern"@, "string"@, "Search pattern (regex supported)"@),
            ("path"@, "string"@, "File or directory to search in (default: current working directory)"@),
            ("include"@, "string"@, "File glob pattern to include (e.g. \"*.rs\", \"*.ts\")"@),
            ("case_insensitive"@, "boolean"@, "Case-insensitive search (default: false)"@),
        ]));
        ToolDefinition {
            name: "grep".to_string(),
            description: "Search file contents for a text pattern. Supports regex.".to_string(),
            parameters: schema_of(props, &required),
            requires_approval: false,
        }
    }
}

/// The orders a listing can be sorted in.
pub open spec fn ls_sort_schema() -> JsonView {
    JsonView::Object(seq![
        ("type"@, js("string"@)),
        ("enum"@, JsonView::Array(seq![js("name"@), js("size"@), js("modified"@)])),
        ("description"@, js("Sort entries by name, size, or modified time (default: name)"@)),
    ])
}

pub open spec fn ls_definition() -> ToolDefView {
    def_view(
        "ls"@,
        "List directory contents with file metadata. Shows name, type, size, and modified time."@,
        object_schema(
            param_members(seq![
                ("path"@, "string"@, "Directory path to list (default: current directory)"@),
                ("all"@, "boolean"@, "Show hidden files (default: false)"@),
            ]).push(("sort_by"@, ls_sort_schema())),
            Seq::empty(),
        ),
    )
}

impl ToolExecutor for LsTool {

    fn definition(&self) -> (d: ToolDefinition)
        ensures
            d@ == ls_definition(),
            !d.requires_approval,
    {
        let mut props: Vec<(String, JsonValue)> = Vec::new();
        push_member(&mut props, param("path", "string", "Directory path to list (default: current directory)"));
        push_member(&mut props, param("all", "boolean", "Show hidden files (default: false)"));
        let orders = ["name", "size", "modified"];
        let sort_by = obj3(
            "type", JsonValue::string("string"),
            "enum", names_array(&orders),
            "description", JsonValue::string("Sort entries by name, size, or modified time (default: name)"),
        );
        assert(crate::text::slices_view(orders@) =~= seq!["name"@, "size"@, "modified"@]);
        assert(crate::text::slices_view(orders@).map_values(|r: Seq<char>| js(r)) =~= seq![js("name"@), js("size"@), js("modified"@)]);
        push_member(&mut props, ("sort_by".to_string(), sort_by));
        let required: [&str; 0] = [];
        assert(crate::text::slices_view(required@) =~= Seq::<Seq<char>>::empty());
        let ghost pm = jview_members(props@);
        assert(pm =~= param_members(seq![
            ("path"@, "string"@, "Directory path to list (default: current directory)"@),
            ("all"@, "boolean"@, "Show hidden files (default: false)"@),
        ]).push(("sort_by"@, ls_sort_schema())));
        ToolDefinition {
            name: "ls".to_string(),
            description: "List directory contents with file metadata. Shows name, type, size, and modified time.".to_string(),
            parameters: schema_of(props, &required),
            requires_approval: false,
        }
    }
}

// ---------------------------------------------------------------------
// Tools provided by extensions
// ---------------------------------------------------------------------

/// The outcome of a tool call.
#[derive(Debug)]
pub struct ToolResult {
    pub tool_use_id: String,
    pub output: String,
    pub is_error: bool,
    pub duration_ms: Option<u64>,
}

/// What a tool gives for what its handler answered: the output, or the
/// error as an error result.
pub fn tool_result_from(outcome: Result<String, String>) -> (r: ToolResult)
    ensures
        r.tool_use_id@ == Seq::<char>::empty(),
        r.duration_ms is None,
        match outcome {
            Ok(o) => r.output@ == o@ && !r.is_error,
            Err(e) => r.output@ == e@ && r.is_error,
        },
{
    match outcome {
        Ok(output) => ToolResult { tool_use_id: String::new(), output, is_error: false, duration_ms: None },
        Err(e) => ToolResult { tool_use_id: String::new(), output: e, is_error: true, duration_ms: None },
    }
}

/// The definition of an extension's tool: one optional string parameter
/// `input` that carries its JSON input.
pub open spec fn extension_definition(name: Seq<char>, description: Seq<char>) -> ToolDefView {
    def_view(
        name,
        description,
        object_schema(param_members(seq![("input"@, "string"@, "JSON input"@)]), Seq::empty()),
    )
}

/// A tool that an extension provides through a handler.
pub struct ExtensionTool {
    def: ToolDefinition,
    handler: Box<dyn ToolHandler>,
}

impl ExtensionTool {
    /// A tool named `name` that answers through `handler`.
    pub fn new<H: ToolHandler + 'static>(name: &str, description: &str, handler: H) -> (t: Self)
        ensures
            t.definition_view() == extension_definition(name@, description@),
    {
        let mut props: Vec<(String, JsonValue)> = Vec::new();
        push_member(&mut props, param("input", "string", "JSON input"));
        let required: [&str; 0] = [];
        assert(crate::text::slices_view(required@) =~= Seq::<Seq<char>>::empty());
        assert(jview_members(props@) =~= param_members(seq![("input"@, "string"@, "JSON input"@)]));
        let def = ToolDefinition {
            name: name.to_string(),
            description: description.to_string(),
            parameters: schema_of(props, &required),
            requires_approval: false,
        };
        ExtensionTool { def, handler: Box::new(handler) }
    }

    pub closed spec fn definition_view(&self) -> ToolDefView {
        self.def@
    }

    /// Calls the handler with the compact JSON text of `input` and makes its
    /// answer the result. What the handler answers is its own.
    pub fn execute(&self, input: &JsonValue) -> (r: ToolResult)
        ensures
            r.tool_use_id@ == Seq::<char>::empty(),
            r.duration_ms is None,
    {
        let text = input.to_text();
        tool_result_from(self.handler.call(text.as_str()))
    }
}

impl ToolExecutor for ExtensionTool {

    fn definition(&self) -> (d: ToolDefinition)
        ensures
            d@ == self.definition_view(),
    {
        self.def.duplicate()
    }
}

// ---------------------------------------------------------------------
// The registry
// ---------------------------------------------------------------------

/// The tools of an agent, by name.
pub struct ToolRegistry<T> {
    tools: Vec<(String, T)>,
}

/// A list of registrations, each name as text.
pub open spec fn entries_of<T>(v: Seq<(String, T)>) -> Seq<(Seq<char>, T)> {
    v.map_values(|e: (String, T)| (e.0@, e.1))
}

/// The names of a list of registrations.
pub open spec fn entry_names<T>(s: Seq<(Seq<char>, T)>) -> Seq<Seq<char>> {
    s.map_values(|e: (Seq<char>, T)| e.0)
}

/// The place of the tool named `name`, if one is registered.
pub open spec fn place_of<T>(s: Seq<(Seq<char>, T)>, name: Seq<char>) -> Option<int> {
    if exists|k: int| 0 <= k < s.len() && s[k].0 == name {
        Some(choose|k: int| 0 <= k < s.len() && s[k].0 == name)
    } else {
        None
    }
}

/// The registrations after registering `t` under `name`: it replaces the
/// tool of that name in its place, or comes last.
pub open spec fn with_tool<T>(s: Seq<(Seq<char>, T)>, name: Seq<char>, t: T) -> Seq<(Seq<char>, T)> {
    match place_of(s, name) {
        Some(k) => s.update(k, (name, t)),
        None => s.push((name, t)),
    }
}

/// The registrations kept where `keep` says so, in order.
pub open spec fn kept<T>(s: Seq<(Seq<char>, T)>, keep: Seq<bool>) -> Seq<(Seq<char>, T)>
    decreases s.len(),
{
    if s.len() == 0 || keep.len() == 0 {
        Seq::empty()
    } else {
        let rest = kept(s.drop_last(), keep.drop_last());
        if keep.last() { rest.push(s.last()) } else { rest }
    }
}

/// No name is registered twice.
pub open spec fn names_unique<T>(s: Seq<(Seq<char>, T)>) -> bool {
    forall|i: int, j: int| 0 <= i < j < s.len() ==> #[trigger] s[i].0 != #[trigger] s[j].0
}

impl<T: ToolExecutor> ToolRegistry<T> {
    /// The registrations, in order: each tool under its name.
    pub closed spec fn entries(&self) -> Seq<(Seq<char>, T)> {
        entries_of(self.tools@)
    }

    /// No name is registered twice.
    pub open spec fn wf(&self) -> bool {
        names_unique(self.entries())
    }

    /// An empty registry.
    pub fn new() -> (r: Self)
        ensures
            r.wf(),
            r.entries().len() == 0,
    {
        let r = ToolRegistry { tools: Vec::new() };
        assert(r.entries() =~= Seq::<(Seq<char>, T)>::empty());
        r
    }

    fn find(&self, name: &str) -> (r: Option<usize>)
        requires
            self.wf(),
        ensures
            match r {
                Some(k) => place_of(self.entries(), name@) == Some(k as int) && k < self.entries().len(),
                None => place_of(self.entries(), name@) is None,
            },
    {
        let ghost es = self.entries();
        let mut i: usize = 0;
        while i < self.tools.len()
            invariant
                i <= self.tools.len(),
                es == self.entries(),
                es.len() == self.tools@.len(),
                names_unique(es),
                forall|k: int| 0 <= k < i ==> es[k].0 != name@,
            decreases self.tools.len() - i,
        {
            assert(es[i as int].0 == self.tools@[i as int].0@);
            if str_eq(self.tools[i].0.as_str(), name) {
                proof {
                    assert(es[i as int].0 == name@);
                    let k = choose|k: int| 0 <= k < es.len() && es[k].0 == name@;
                    if k != i {
                        if k < i {
                            assert(es[k].0 != es[i as int].0);
                        } else {
                            assert(es[i as int].0 != es[k].0);
                        }
                    }
                }
                return Some(i);
            }
            i = i + 1;
        }
        None
    }

    /// Registers `tool` under its name, in place of any tool of that name.
    pub fn register(&mut self, tool: T)
        requires
            old(self).wf(),
        ensures
            final(self).wf(),
            exists|d: ToolDefinition| {
                &&& call_ensures(T::definition, (&tool,), d)
                &&& final(self).entries() == with_tool(old(self).entries(), d.name@, tool)
            },
    {
        let get_definition = T::definition;
        let def = get_definition(&tool);
        let ghost d = def;
        let ghost es = self.entries();
        let ghost n = def.name@;
        match self.find(def.name.as_str()) {
            Some(k) => {
                self.tools.set(k, (def.name, tool));
                assert(self.entries() =~= es.update(k as int, (n, tool)));
            },
            None => {
                self.tools.push((def.name, tool));
                assert(self.entries() =~= es.push((n, tool)));
                assert forall|i: int, j: int| 0 <= i < j < self.entries().len() implies
                    #[trigger] self.entries()[i].0 != #[trigger] self.entries()[j].0 by {
                    if j == es.len() {
                        if es[i].0 == n {
                            assert(0 <= i < es.len() && es[i].0 == n);
                        }
                    }
                }
            },
        }
    }

    /// The tool named `name`.
    pub fn get(&self, name: &str) -> (r: Option<&T>)
        requires
            self.wf(),
        ensures
            match r {
                Some(t) => exists|k: int| 0 <= k < self.entries().len() && self.entries()[k] == (name@, *t),
                None => place_of(self.entries(), name@) is None,
            },
    {
        match self.find(name) {
            Some(k) => {
                assert(self.entries()[k as int] == (self.tools@[k as int].0@, self.tools@[k as int].1));
                Some(&self.tools[k].1)
            },
            None => None,
        }
    }

    /// The definition of the tool named `name`.
    pub fn get_definition(&self, name: &str) -> (r: Option<ToolDefinition>)
        requires
            self.wf(),
        ensures
            match r {
                Some(d) => place_of(self.entries(), name@) matches Some(k)
                    && call_ensures(T::definition, (&self.entries()[k].1,), d),
                None => place_of(self.entries(), name@) is None,
            },
    {
        match self.find(name) {
            Some(k) => {
                assert(self.entries()[k as int].1 == self.tools@[k as int].1);
                let get_definition = T::definition;
                Some(get_definition(&self.tools[k].1))
            },
            None => None,
        }
    }

    /// The definitions of all tools, in the order registered.
    pub fn definitions(&self) -> (r: Vec<ToolDefinition>)
        requires
            self.wf(),
        ensures
            r@.len() == self.entries().len(),
            forall|k: int| 0 <= k < r@.len() ==> call_ensures(T::definition, (&self.entries()[k].1,), #[trigger] r@[k]),
    {
        let mut r: Vec<ToolDefinition> = Vec::new();
        let mut i: usize = 0;
        while i < self.tools.len()
            invariant
                i <= self.tools.len(),
                self.wf(),
                r@.len() == i,
                forall|k: int| 0 <= k < i ==> call_ensures(T::definition, (&self.entries()[k].1,), #[trigger] r@[k]),
            decreases self.tools.len() - i,
        {
            assert(self.entries()[i as int].1 == self.tools@[i as int].1);
            let get_definition = T::definition;
            r.push(get_definition(&self.tools[i].1));
            i = i + 1;
        }
        r
    }

    /// The names of all tools, in the order registered.
    pub fn names(&self) -> (r: Vec<String>)
        ensures
            crate::text::strs_view(r@) == entry_names(self.entries()),
    {
        let mut r: Vec<String> = Vec::new();
        let mut i: usize = 0;
        while i < self.tools.len()
            invariant
                i <= self.tools.len(),
                crate::text::strs_view(r@) == entry_names(self.entries()).subrange(0, i as int),
            decreases self.tools.len() - i,
        {
            assert(entry_names(self.entries())[i as int] == self.tools@[i as int].0@);
            let ghost before = crate::text::strs_view(r@);
            r.push(self.tools[i].0.clone());
            assert(crate::text::strs_view(r@) =~= before.push(self.tools@[i as int].0@));
            assert(crate::text::strs_view(r@) =~= entry_names(self.entries()).subrange(0, i + 1));
            i = i + 1;
        }
        assert(entry_names(self.entries()).subrange(0, self.tools.len() as int) =~= entry_names(self.entries()));
        r
    }

    /// Keeps the tools whose names `f` answers true for, in order.
    pub fn retain<F: Fn(&str) -> bool>(&mut self, f: F)
        requires
            old(self).wf(),
            forall|s: &str| #[trigger] f.requires((s,)),
        ensures
            final(self).wf(),
            exists|args: Seq<&str>, keep: Seq<bool>| {
                &&& args.len() == old(self).entries().len()
                &&& keep.len() == old(self).entries().len()
                &&& forall|k: int| 0 <= k < args.len() ==> #[trigger] args[k]@ == old(self).entries()[k].0
                    && f.ensures((args[k],), keep[k])
                &&& final(self).entries() == kept(old(self).entries(), keep)
            },
    {
        let ghost es = self.entries();
        let mut old_tools: Vec<(String, T)> = Vec::new();
        old_tools.append(&mut self.tools);
        assert(entries_of(old_tools@) =~= es);
        let ghost mut args: Seq<&str> = Seq::empty();
        let ghost mut keep: Seq<bool> = Seq::empty();
        let mut k: usize = 0;
        let total = old_tools.len();
        assert(es.len() == total);
        while old_tools.len() > 0
            invariant
                es.len() <= usize::MAX,
                k + old_tools@.len() == es.len(),
                entries_of(old_tools@) == es.subrange(k as int, es.len() as int),
                args.len() == k,
                keep.len() == k,
                forall|j: int| #![trigger args[j]] 0 <= j < k ==> args[j]@ == es[j].0,
                forall|j: int| #![trigger args[j]] 0 <= j < k ==> f.ensures((args[j],), keep[j]),
                forall|s: &str| #[trigger] f.requires((s,)),
                entries_of(self.tools@) == kept(es.subrange(0, k as int), keep),
                names_unique(es),
            decreases old_tools@.len(),
        {
            let ghost ov = old_tools@;
            assert(entries_of(ov)[0] == es.subrange(k as int, es.len() as int)[0]);
            let entry = old_tools.remove(0);
            assert(es[k as int] == (entry.0@, entry.1));
            assert(entries_of(old_tools@) =~= es.subrange(k + 1, es.len() as int)) by {
                assert(old_tools@ =~= ov.subrange(1, ov.len() as int));
                assert forall|j: int| 0 <= j < old_tools@.len() implies
                    #[trigger] entries_of(old_tools@)[j] == es[k + 1 + j] by {
                    assert(entries_of(ov)[j + 1] == es.subrange(k as int, es.len() as int)[j + 1]);
                }
            }
            let name_ref: &str = entry.0.as_str();
            let b = f(name_ref);
            let ghost args0 = args;
            let ghost keep0 = keep;
            proof {
                args = args.push(name_ref);
                keep = keep.push(b);
                assert(es.subrange(0, k + 1).drop_last() =~= es.subrange(0, k as int));
                assert(keep.drop_last() =~= keep0);
                assert forall|j: int| 0 <= j < k + 1 implies #[trigger] args[j]@ == es[j].0 && f.ensures((args[j],), keep[j]) by {
                    if j < k {
                        assert(args[j] == args0[j] && keep[j] == keep0[j]);
                        assert(args0[j]@ == es[j].0);
                    } else {
                        assert(args[j] == name_ref && keep[j] == b);
                        assert(name_ref@ == entry.0@);
                        assert(f.ensures((name_ref,), b));
                    }
                }
            }
            let ghost before = self.tools@;
            if b {
                self.tools.push(entry);
                assert(entries_of(self.tools@)
                    =~= entries_of(before).push(es[k as int]));
            }
            assert(entries_of(old_tools@) =~= es.subrange(k + 1, es.len() as int));
            assert(entries_of(self.tools@) == kept(es.subrange(0, k + 1), keep));
            k = k + 1;
        }
        assert(es.subrange(0, es.len() as int) =~= es);
        proof { lemma_kept_wf(es, keep); }
    }
}

impl<T: ToolExecutor + Clone> ToolRegistry<T> {
    /// A registry of its own for another agent, with a clone of each tool
    /// under the same name, in the same order.
    pub fn clone_for_agent(&self) -> (r: Self)
        requires
            self.wf(),
        ensures
            entry_names(r.entries()) == entry_names(self.entries()),
            forall|k: int| 0 <= k < self.entries().len() ==> cloned::<T>(self.entries()[k].1, #[trigger] r.entries()[k].1),
            r.wf(),
    {
        let mut tools: Vec<(String, T)> = Vec::new();
        let mut i: usize = 0;
        while i < self.tools.len()
            invariant
                i <= self.tools.len(),
                tools@.len() == i,
                forall|k: int| 0 <= k < i ==> (#[trigger] tools@[k]).0@ == self.tools@[k].0@,
                forall|k: int| 0 <= k < i ==> cloned::<T>(self.tools@[k].1, #[trigger] tools@[k].1),
            decreases self.tools.len() - i,
        {
            let name = self.tools[i].0.clone();
            let tool = self.tools[i].1.clone();
            tools.push((name, tool));
            i = i + 1;
        }
        let r = ToolRegistry { tools };
        assert(entry_names(r.entries()) =~= entry_names(self.entries()));
        proof {
            assert forall|k: int| 0 <= k < self.entries().len() implies cloned::<T>(self.entries()[k].1, #[trigger] r.entries()[k].1) by {
                assert(self.entries()[k].1 == self.tools@[k].1);
                assert(r.entries()[k].1 == r.tools@[k].1);
            }
            assert forall|x: int, y: int| 0 <= x < y < r.entries().len() implies
                #[trigger] r.entries()[x].0 != #[trigger] r.entries()[y].0 by {
                assert(r.entries()[x].0 == self.entries()[x].0);
                assert(r.entries()[y].0 == self.entries()[y].0);
            }
        }
        r
    }
}

proof fn lemma_kept_wf<T: ToolExecutor>(s: Seq<(Seq<char>, T)>, keep: Seq<bool>)
    requires
        names_unique(s),
    ensures
        names_unique(kept(s, keep)),
        forall|j: int| 0 <= j < kept(s, keep).len() ==> s.contains(#[trigger] kept(s, keep)[j]),
    decreases s.len(),
{
    if s.len() > 0 && keep.len() > 0 {
        let t = s.drop_last();
        assert forall|i: int, j: int| 0 <= i < j < t.len() implies #[trigger] t[i].0 != #[trigger] t[j].0 by {
            assert(s[i].0 != s[j].0);
        }
        lemma_kept_wf(t, keep.drop_last());
        let rest = kept(t, keep.drop_last());
        assert forall|j: int| 0 <= j < rest.len() implies s.contains(#[trigger] rest[j]) by {
            let m = choose|m: int| 0 <= m < t.len() && t[m] == rest[j];
            assert(s[m] == rest[j]);
        }
        if keep.last() {
            let r = rest.push(s.last());
            assert forall|i: int, j: int| 0 <= i < j < r.len() implies #[trigger] r[i].0 != #[trigger] r[j].0 by {
                if j == rest.len() {
                    let m = choose|m: int| 0 <= m < t.len() && t[m] == rest[i];
                    assert(s[m].0 != s[s.len() - 1].0);
                }
            }
            assert forall|j: int| 0 <= j < r.len() implies s.contains(#[trigger] r[j]) by {
                if j == rest.len() {
                    assert(s[s.len() - 1] == r[j]);
                }
            }
        }
    }
}

} // verus!
