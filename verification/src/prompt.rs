//! Assembling the system prompt sent to the model: the role prompt (or a
//! custom one), the model's identity, the tool guides and appended text.

use vstd::prelude::*;
use crate::config::{join_path, path_join, CONFIG_DIR_NAME};
use crate::text::{join_lines, join_nl, push_owned, push_str, strs_view};

verus! {

/// The role prompt up to the working directory.
pub const ROLE_HEAD: &'static str = "You are a helpful coding assistant running in the user's terminal.\n\n## Environment\n\n- Working directory: ";

/// The role prompt between the working directory and the date.
pub const ROLE_BEFORE_DATE: &'static str = "\n- You can execute commands and edit files to help the user with their tasks.\n- Be concise and direct in your responses.\n\n## Rules\n\n- Current date: ";

/// The role prompt between the date and the working directory, again.
pub const ROLE_BEFORE_CWD: &'static str = "\n- Current working directory: ";

/// The rules that end the role prompt.
pub const ROLE_TAIL: &'static str = "\n\n- When making file edits, use the `edit` tool for precise changes. Only use `write` for new files or complete rewrites.\n- Before editing files you have not already inspected, read them first.\n- Keep edits minimal and focused on the user's request.\n- After code changes, consider running relevant tests or checks.\n- Use the `read` tool to inspect files before making wide-ranging changes.\n- Never use `git add -A` or `git add .` — always use `git add <specific-file-paths>`.\n- When you don't know something, say so. Don't make up information.\n";

/// The guide to the `bash` tool.
pub const GUIDE_BASH: &'static str = "### bash — Execute shell commands\n- Use for running build commands, tests, git operations, and other shell tasks.\n- The `command` parameter is required.\n- Default timeout is 120 seconds. Use `timeout` parameter for longer/shorter.\n- Output is truncated at 2000 lines / 1MB.\n";

/// The guide to the `read` tool.
pub const GUIDE_READ: &'static str = "### read — Read file contents\n- Returns file content with line numbers.\n- Use `offset` (1-indexed) and `limit` for pagination of large files.\n- Always read files before editing them.\n";

/// The guide to the `write` tool.
pub const GUIDE_WRITE: &'static str = "### write — Create or overwrite files\n- Creates parent directories automatically.\n- Only use for new files or complete rewrites. Use `edit` for targeted changes.\n";

/// The guide to the `edit` tool.
pub const GUIDE_EDIT: &'static str = "### edit — Make precise file edits\n- Uses exact text replacement: `oldText` must match exactly in the file.\n- `oldText` must be unique in the file (no ambiguous matches).\n- Include enough context in `oldText` to make it unique.\n- When changing multiple locations, make separate `edit` calls for each.\n";

/// The guide to the `find` tool.
pub const GUIDE_FIND: &'static str = "### find — Find files and directories\n- Supports glob patterns (e.g. `**/*.rs`, `src/**/*.ts`).\n- Automatically skips `.git`, `node_modules`, `target`, `dist`.\n- Use `path` to set base directory (default: cwd).\n";

/// The guide to the `grep` tool.
pub const GUIDE_GREP: &'static str = "### grep — Search file contents\n- Supports regex patterns.\n- Use `include` glob to filter files (e.g. `*.rs`, `*.ts`).\n- Use `case_insensitive: true` for case-insensitive search.\n- Results format: `file:line\\tcontent`.\n";

/// The heading above the tool guides.
pub const GUIDE_HEADING: &'static str = "# Tool Usage Guide";

/// The default role prompt for a working directory and a date.
pub open spec fn role_prompt(cwd: Seq<char>, date: Seq<char>) -> Seq<char> {
    ROLE_HEAD@ + cwd + ROLE_BEFORE_DATE@ + date + ROLE_BEFORE_CWD@ + cwd + ROLE_TAIL@
}

/// The built-in tool guides, in order.
pub open spec fn all_guides() -> Seq<Seq<char>> {
    seq![GUIDE_BASH@, GUIDE_READ@, GUIDE_WRITE@, GUIDE_EDIT@, GUIDE_FIND@, GUIDE_GREP@]
}

/// The sentence that names the model and its provider.
pub open spec fn model_sentence(model: Seq<char>, provider: Seq<char>) -> Seq<char> {
    "You are "@ + model + " served by "@ + provider + "."@
}

/// What a prompt builder has been told.
pub struct PromptSettings {
    pub cwd: Seq<char>,
    pub model_info: Option<Seq<char>>,
    pub custom_prompt: Option<Seq<char>>,
    pub append_prompts: Seq<Seq<char>>,
    pub tool_guides: Seq<Seq<char>>,
}

/// Each appended text preceded by an empty part.
pub open spec fn appended_parts(xs: Seq<Seq<char>>) -> Seq<Seq<char>>
    decreases xs.len(),
{
    if xs.len() == 0 {
        Seq::empty()
    } else {
        appended_parts(xs.drop_last()) + seq![Seq::empty(), xs.last()]
    }
}

/// The parts of the prompt, which are joined with newlines: the custom
/// prompt or the role prompt; the model sentence after an empty part; the
/// heading and the guides after empty parts; each appended text after an
/// empty part.
pub open spec fn prompt_parts(b: PromptSettings, date: Seq<char>) -> Seq<Seq<char>> {
    let role = match b.custom_prompt {
        Some(c) => c,
        None => role_prompt(b.cwd, date),
    };
    let model = match b.model_info {
        Some(m) => seq![Seq::<char>::empty(), m],
        None => Seq::empty(),
    };
    let guides = if b.tool_guides.len() > 0 {
        seq![Seq::<char>::empty(), GUIDE_HEADING@, Seq::<char>::empty()] + b.tool_guides
    } else {
        Seq::empty()
    };
    seq![role] + model + guides + appended_parts(b.append_prompts)
}

/// The system prompt for the settings `b` on the date `date`.
pub open spec fn prompt_text(b: PromptSettings, date: Seq<char>) -> Seq<char> {
    join_nl(prompt_parts(b, date))
}

/// Builds the system prompt step by step.
pub struct SystemPromptBuilder {
    cwd: String,
    model_info: Option<String>,
    custom_prompt: Option<String>,
    append_prompts: Vec<String>,
    tool_guides: Vec<String>,
}

/// The text of an optional string.
pub open spec fn opt_view(o: Option<String>) -> Option<Seq<char>> {
    match o {
        Some(s) => Some(s@),
        None => None,
    }
}

impl View for SystemPromptBuilder {
    type V = PromptSettings;

    closed spec fn view(&self) -> PromptSettings {
        PromptSettings {
            cwd: self.cwd@,
            model_info: opt_view(self.model_info),
            custom_prompt: opt_view(self.custom_prompt),
            append_prompts: strs_view(self.append_prompts@),
            tool_guides: strs_view(self.tool_guides@),
        }
    }
}

/// A date written `YYYY-MM-DD`: a year of at least four digits (with a
/// leading `+` past the year 9999), a dash, two digits of month, a dash and
/// two digits of day.
pub open spec fn is_date_text(d: Seq<char>) -> bool {
    let n = d.len() as int;
    &&& n >= 10
    &&& d[n - 6] == '-' && d[n - 3] == '-'
    &&& is_decimal_digit(d[n - 5]) && is_decimal_digit(d[n - 4])
    &&& is_decimal_digit(d[n - 2]) && is_decimal_digit(d[n - 1])
    &&& forall|k: int| 0 <= k < n - 6 ==> is_decimal_digit(#[trigger] d[k]) || (k == 0 && d[k] == '+')
}

/// `c` is one of `0` to `9`.
pub open spec fn is_decimal_digit(c: char) -> bool {
    '0' <= c <= '9'
}

/// Today's date in UTC (`chrono::Utc::now`, formatted with `%Y-%m-%d`).
/// Which day it is depends on the clock and is not stated; the contract
/// claims only the form that chrono's formatting gives every date from
/// 1970 on: a zero-padded year of four or more digits (signed with `+`
/// beyond 9999), then two-digit month and day.
#[verifier::external_body]
fn current_date() -> (r: String)
    ensures
        is_date_text(r@),
{
    chrono::Utc::now().format("%Y-%m-%d").to_string()
}

/// The file of a project's own prompt: `<project>/.piso/system.md`.
pub fn project_prompt_path(cwd: &str) -> (r: String)
    ensures
        r@ == path_join(path_join(cwd@, CONFIG_DIR_NAME@), "system.md"@),
{
    let d = join_path(cwd, CONFIG_DIR_NAME);
    join_path(d.as_str(), "system.md")
}

/// The default role prompt.
fn default_role_prompt(cwd: &str, date: &str) -> (s: String)
    ensures
        s@ == role_prompt(cwd@, date@),
{
    let mut s = String::new();
    push_str(&mut s, ROLE_HEAD);
    push_str(&mut s, cwd);
    push_str(&mut s, ROLE_BEFORE_DATE);
    push_str(&mut s, date);
    push_str(&mut s, ROLE_BEFORE_CWD);
    push_str(&mut s, cwd);
    push_str(&mut s, ROLE_TAIL);
    s
}

impl SystemPromptBuilder {
    /// A builder for the working directory `cwd`, told nothing else.
    pub fn new(cwd: &str) -> (b: Self)
        ensures
            b@ == (PromptSettings {
                cwd: cwd@,
                model_info: None,
                custom_prompt: None,
                append_prompts: Seq::empty(),
                tool_guides: Seq::empty(),
            }),
    {
        let b = SystemPromptBuilder {
            cwd: cwd.to_owned(),
            model_info: None,
            custom_prompt: None,
            append_prompts: Vec::new(),
            tool_guides: Vec::new(),
        };
        assert(b@.append_prompts =~= Seq::<Seq<char>>::empty());
        assert(b@.tool_guides =~= Seq::<Seq<char>>::empty());
        b
    }

    /// Names the model and its provider in the prompt.
    pub fn with_model_info(self, model_name: &str, provider: &str) -> (b: Self)
        ensures
            b@ == (PromptSettings { model_info: Some(model_sentence(model_name@, provider@)), ..self@ }),
    {
        let mut b = self;
        let mut s = String::new();
        push_str(&mut s, "You are ");
        push_str(&mut s, model_name);
        push_str(&mut s, " served by ");
        push_str(&mut s, provider);
        push_str(&mut s, ".");
        b.model_info = Some(s);
        b
    }

    /// Replaces the role prompt by `prompt`.
    pub fn with_custom_prompt(self, prompt: &str) -> (b: Self)
        ensures
            b@ == (PromptSettings { custom_prompt: Some(prompt@), ..self@ }),
    {
        let mut b = self;
        b.custom_prompt = Some(prompt.to_owned());
        b
    }

    /// Appends `prompt` at the end (may be called several times).
    pub fn append(self, prompt: &str) -> (b: Self)
        ensures
            b@ == (PromptSettings { append_prompts: self@.append_prompts.push(prompt@), ..self@ }),
    {
        let mut b = self;
        push_owned(&mut b.append_prompts, prompt);
        b
    }

    /// Appends the project's own prompt, the text of
    /// `<project>/.piso/system.md` (see `project_prompt_path`), when that
    /// file could be read; `None` leaves the builder as it is.
    pub fn with_project_prompt(self, content: Option<&str>) -> (b: Self)
        ensures
            b@ == match content {
                Some(c) => PromptSettings { append_prompts: self@.append_prompts.push(c@), ..self@ },
                None => self@,
            },
    {
        match content {
            Some(c) => self.append(c),
            None => self,
        }
    }

    /// Includes the built-in tool guides.
    pub fn with_tool_guides(self) -> (b: Self)
        ensures
            b@ == (PromptSettings { tool_guides: all_guides(), ..self@ }),
    {
        let mut b = self;
        let mut g: Vec<String> = Vec::new();
        push_owned(&mut g, GUIDE_BASH);
        push_owned(&mut g, GUIDE_READ);
        push_owned(&mut g, GUIDE_WRITE);
        push_owned(&mut g, GUIDE_EDIT);
        push_owned(&mut g, GUIDE_FIND);
        push_owned(&mut g, GUIDE_GREP);
        b.tool_guides = g;
        assert(strs_view(b.tool_guides@) =~= all_guides());
        b
    }

    /// The system prompt, with `date` as the current date.
    pub fn build_with_date(&self, date: &str) -> (s: String)
        ensures
            s@ == prompt_text(self@, date@),
    {
        proof {
            reveal_strlit("");
        }
        let mut parts: Vec<String> = Vec::new();
        match &self.custom_prompt {
            Some(c) => push_owned(&mut parts, c.as_str()),
            None => {
                let role = default_role_prompt(self.cwd.as_str(), date);
                push_owned(&mut parts, role.as_str());
            },
        }
        let ghost b = self@;
        let ghost role = match b.custom_prompt {
            Some(c) => c,
            None => role_prompt(b.cwd, date@),
        };
        let ghost model = match b.model_info {
            Some(m) => seq![Seq::<char>::empty(), m],
            None => Seq::<Seq<char>>::empty(),
        };
        let ghost guides = if b.tool_guides.len() > 0 {
            seq![Seq::<char>::empty(), GUIDE_HEADING@, Seq::<char>::empty()] + b.tool_guides
        } else {
            Seq::<Seq<char>>::empty()
        };
        let ghost p1 = strs_view(parts@);
        assert(p1 =~= seq![role]);
        match &self.model_info {
            Some(info) => {
                push_owned(&mut parts, "");
                push_owned(&mut parts, info.as_str());
                assert(""@ =~= Seq::<char>::empty());
                assert(strs_view(parts@) == p1.push(""@).push(info@));
                assert(model == seq![Seq::<char>::empty(), info@]);
            },
            None => {},
        }
        let ghost p2 = strs_view(parts@);
        assert(p2 =~= seq![role] + model);
        if self.tool_guides.len() > 0 {
            push_owned(&mut parts, "");
            push_owned(&mut parts, GUIDE_HEADING);
            push_owned(&mut parts, "");
            let ghost p3 = strs_view(parts@);
            assert(""@ =~= Seq::<char>::empty());
            assert(p3 =~= p2 + seq![Seq::<char>::empty(), GUIDE_HEADING@, Seq::<char>::empty()]);
            let mut i: usize = 0;
            while i < self.tool_guides.len()
                invariant
                    i <= self.tool_guides@.len(),
                    strs_view(parts@) == p3 + strs_view(self.tool_guides@).take(i as int),
                decreases self.tool_guides.len() - i,
            {
                push_owned(&mut parts, self.tool_guides[i].as_str());
                assert(strs_view(self.tool_guides@).take(i + 1)
                    =~= strs_view(self.tool_guides@).take(i as int).push(self.tool_guides@[i as int]@));
                i = i + 1;
            }
            assert(strs_view(self.tool_guides@).take(self.tool_guides@.len() as int)
                =~= strs_view(self.tool_guides@));
            assert(strs_view(parts@) =~= p2 + guides);
        }
        let ghost p4 = strs_view(parts@);
        assert(p4 =~= seq![role] + model + guides);
        let mut j: usize = 0;
        while j < self.append_prompts.len()
            invariant
                j <= self.append_prompts@.len(),
                strs_view(parts@) == p4 + appended_parts(strs_view(self.append_prompts@).take(j as int)),
            decreases self.append_prompts.len() - j,
        {
            let ghost before = strs_view(parts@);
            push_owned(&mut parts, "");
            push_owned(&mut parts, self.append_prompts[j].as_str());
            proof {
                reveal_strlit("");
                let xs = strs_view(self.append_prompts@);
                let e = self.append_prompts@[j as int]@;
                assert(""@ =~= Seq::<char>::empty());
                assert(strs_view(parts@) == before.push(""@).push(e));
                assert(strs_view(parts@) =~= before + seq![Seq::<char>::empty(), e]);
                assert(xs.take(j + 1).drop_last() =~= xs.take(j as int));
                assert(xs.take(j + 1).last() == e);
                assert(appended_parts(xs.take(j + 1)) == appended_parts(xs.take(j as int)) + seq![Seq::<char>::empty(), e]);
                assert(p4 + appended_parts(xs.take(j + 1)) =~= (p4 + appended_parts(xs.take(j as int))) + seq![Seq::<char>::empty(), e]);
            }
            j = j + 1;
        }
        proof {
            let xs = strs_view(self.append_prompts@);
            assert(xs.take(xs.len() as int) =~= xs);
            assert(appended_parts(strs_view(self.append_prompts@).take(0)) =~= Seq::<Seq<char>>::empty());
            assert(strs_view(parts@) =~= prompt_parts(self@, date@));
        }
        join_lines(parts.as_slice())
    }

    /// The system prompt, dated today (UTC, `YYYY-MM-DD`).
    pub fn build(&self) -> (s: String)
        ensures
            exists|date: Seq<char>| is_date_text(date) && s@ == prompt_text(self@, date),
    {
        let date = current_date();
        self.build_with_date(date.as_str())
    }
}

impl Default for SystemPromptBuilder {
    /// A builder for the current directory `.`.
    fn default() -> (b: Self)
        ensures
            b@ == (PromptSettings {
                cwd: "."@,
                model_info: None,
                custom_prompt: None,
                append_prompts: Seq::empty(),
                tool_guides: Seq::empty(),
            }),
    {
        SystemPromptBuilder::new(".")
    }
}

} // verus!
