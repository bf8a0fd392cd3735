//! The tool registry the agent offers the model: each tool's name,
//! description, parameter schema, approval level and backing claw, plus the
//! outcome a tool run reports.

use vstd::prelude::*;
use crate::claw::{builtin_name, BuiltinClaw, Claw};
use crate::text::{owned, str_eq};

verus! {

/// Whether a tool runs automatically or needs a human to approve it.
#[derive(Debug, Clone, Copy, PartialEq, Eq, Structural)]
pub enum Approval {
    /// Read-only: runs automatically.
    Auto,
    /// Mutating: a human must confirm before it executes.
    Confirm,
}

/// A tool the agent can invoke.
#[derive(Debug, Clone)]
pub struct Tool {
    pub name: &'static str,
    pub description: &'static str,
    /// JSON Schema of the parameters, as JSON text.
    pub parameters: &'static str,
    pub approval: Approval,
    /// The argument names, in the order they become positional arguments.
    pub arg_order: Vec<&'static str>,
    /// The name of the claw that backs the tool.
    pub claw: &'static str,
}

/// The result of running a tool.
#[derive(Debug, Clone)]
pub struct ToolOutcome {
    pub ok: bool,
    pub summary: String,
}

impl ToolOutcome {
    /// A successful outcome.
    pub fn ok(s: &str) -> (r: ToolOutcome)
        ensures
            r.ok,
            r.summary@ == s@,
    {
        ToolOutcome { ok: true, summary: owned(s) }
    }

    /// A failed outcome.
    pub fn failed(s: &str) -> (r: ToolOutcome)
        ensures
            !r.ok,
            r.summary@ == s@,
    {
        ToolOutcome { ok: false, summary: owned(s) }
    }

    /// An outcome blocked by a security check (a failure).
    pub fn blocked(s: &str) -> (r: ToolOutcome)
        ensures
            !r.ok,
            r.summary@ == s@,
    {
        ToolOutcome { ok: false, summary: owned(s) }
    }
}

/// An OpenAI function-calling spec of a tool.
#[derive(Debug, Clone)]
pub struct ToolSpec {
    /// Always `function`.
    pub spec_type: String,
    pub name: String,
    pub description: String,
    /// JSON Schema of the parameters, as JSON text.
    pub parameters: String,
}

impl Tool {
    /// Renders this tool as a function-calling spec.
    pub fn to_spec(&self) -> (r: ToolSpec)
        ensures
            r.spec_type@ == "function"@,
            r.name@ == self.name@,
            r.description@ == self.description@,
            r.parameters@ == self.parameters@,
    {
        ToolSpec {
            spec_type: owned("function"),
            name: owned(self.name),
            description: owned(self.description),
            parameters: owned(self.parameters),
        }
    }
}

/// The specs of a list of tools, in order.
pub fn to_specs(tools: &Vec<Tool>) -> (r: Vec<ToolSpec>)
    ensures
        r@.len() == tools@.len(),
        forall|k: int|
            0 <= k < r@.len() ==> (#[trigger] r@[k]).name@ == tools@[k].name@ && r@[k].description@
                == tools@[k].description@ && r@[k].parameters@ == tools@[k].parameters@ && r@[k].spec_type@
                == "function"@,
{
    let mut out: Vec<ToolSpec> = Vec::new();
    let mut k: usize = 0;
    while k < tools.len()
        invariant
            0 <= k <= tools@.len(),
            out@.len() == k,
            forall|j: int|
                0 <= j < k ==> (#[trigger] out@[j]).name@ == tools@[j].name@ && out@[j].description@
                    == tools@[j].description@ && out@[j].parameters@ == tools@[j].parameters@
                    && out@[j].spec_type@ == "function"@,
        decreases tools@.len() - k,
    {
        out.push(tools[k].to_spec());
        k += 1;
    }
    out
}

/// The first tool with the given name.
pub fn find<'a>(tools: &'a [Tool], name: &str) -> (r: Option<&'a Tool>)
    ensures
        r matches Some(t) ==> exists|k: int|
            0 <= k < tools@.len() && tools@[k] == *t && t.name@ == name@ && forall|j: int|
                0 <= j < k ==> (#[trigger] tools@[j]).name@ != name@,
        r is None ==> forall|k: int| 0 <= k < tools@.len() ==> (#[trigger] tools@[k]).name@ != name@,
{
    let mut k: usize = 0;
    while k < tools.len()
        invariant
            0 <= k <= tools@.len(),
            forall|j: int| 0 <= j < k ==> (#[trigger] tools@[j]).name@ != name@,
        decreases tools@.len() - k,
    {
        if str_eq(tools[k].name, name) {
            return Some(&tools[k]);
        }
        k += 1;
    }
    None
}

/// The index of the first tool with the given name.
pub fn position(tools: &Vec<Tool>, name: &str) -> (r: Option<usize>)
    ensures
        r matches Some(k) ==> k < tools@.len() && tools@[k as int].name@ == name@ && forall|j: int|
            0 <= j < k ==> (#[trigger] tools@[j]).name@ != name@,
        r is None ==> forall|k: int| 0 <= k < tools@.len() ==> (#[trigger] tools@[k]).name@ != name@,
{
    let mut k: usize = 0;
    while k < tools.len()
        invariant
            0 <= k <= tools@.len(),
            forall|j: int| 0 <= j < k ==> (#[trigger] tools@[j]).name@ != name@,
        decreases tools@.len() - k,
    {
        if str_eq(tools[k].name, name) {
            return Some(k);
        }
        k += 1;
    }
    None
}

/// JSON Schema for `{ path: string }`.
pub fn schema_path() -> (r: &'static str)
    ensures
        r@ == "{\"type\":\"object\",\"properties\":{\"path\":{\"type\":\"string\",\"description\":\"File or directory path\"}},\"required\":[\"path\"]}"@,
{
    "{\"type\":\"object\",\"properties\":{\"path\":{\"type\":\"string\",\"description\":\"File or directory path\"}},\"required\":[\"path\"]}"
}

/// A tool with the given fields.
fn tool(
    name: &'static str,
    description: &'static str,
    parameters: &'static str,
    approval: Approval,
    arg_order: Vec<&'static str>,
    claw: &'static str,
) -> (t: Tool)
    ensures
        t.name == name,
        t.description == description,
        t.parameters == parameters,
        t.approval == approval,
        t.arg_order@ == arg_order@,
        t.claw == claw,
{
    Tool { name, description, parameters, approval, arg_order, claw }
}

/// A claw of the list with the given name, if there is one.
pub open spec fn has_claw(claws: Seq<BuiltinClaw>, name: Seq<char>) -> bool {
    exists|k: int| 0 <= k < claws.len() && builtin_name(#[trigger] claws[k]) == name
}

/// What `default_tools` lists: each tool's name, approval, argument order,
/// backing claw, description and parameter schema, in order.
pub open spec fn default_tool_set(t: Seq<Tool>) -> bool {
    &&& t.len() == 6
    &&& t[0].name == "read" && t[0].approval == Approval::Auto && t[0].arg_order@ == seq!["path"]
    &&& t[1].name == "grep" && t[1].approval == Approval::Auto && t[1].arg_order@ == seq!["pattern", "path"]
    &&& t[2].name == "audit" && t[2].approval == Approval::Auto && t[2].arg_order@ == seq!["path"]
    &&& t[3].name == "edit" && t[3].approval == Approval::Confirm && t[3].arg_order@ == seq!["path", "old", "new"]
    &&& t[4].name == "write" && t[4].approval == Approval::Confirm && t[4].arg_order@ == seq!["path", "content"]
    &&& t[5].name == "bash" && t[5].approval == Approval::Confirm && t[5].arg_order@ == seq!["command"]
    &&& t[0].claw == "read" && t[1].claw == "grep" && t[2].claw == "audit"
    &&& t[3].claw == "edit" && t[4].claw == "edit" && t[5].claw == "edit"
    &&& t[0].description@ == "Read a file or list a directory contents."@
    &&& t[0].parameters@ == "{\"type\":\"object\",\"properties\":{\"path\":{\"type\":\"string\",\"description\":\"File or directory path\"}},\"required\":[\"path\"]}"@
    &&& t[1].description@ == "Search file contents for a pattern (respects .gitignore)."@
    &&& t[1].parameters@ == "{\"type\":\"object\",\"properties\":{\"pattern\":{\"type\":\"string\"},\"path\":{\"type\":\"string\",\"description\":\"defaults to current dir\"}},\"required\":[\"pattern\"]}"@
    &&& t[2].description@ == "Scan a directory for security risks (prompt injection, SSRF, path traversal)."@
    &&& t[2].parameters@ == "{\"type\":\"object\",\"properties\":{\"path\":{\"type\":\"string\",\"description\":\"defaults to current dir\"}},\"required\":[]}"@
    &&& t[3].description@ == "Replace a unique string in an existing file."@
    &&& t[3].parameters@ == "{\"type\":\"object\",\"properties\":{\"path\":{\"type\":\"string\"},\"old\":{\"type\":\"string\",\"description\":\"text to find (must match exactly once)\"},\"new\":{\"type\":\"string\",\"description\":\"replacement text\"}},\"required\":[\"path\",\"old\",\"new\"]}"@
    &&& t[4].description@ == "Create or overwrite a file with the given content."@
    &&& t[4].parameters@ == "{\"type\":\"object\",\"properties\":{\"path\":{\"type\":\"string\",\"description\":\"file path to create or overwrite\"},\"content\":{\"type\":\"string\",\"description\":\"full file content to write\"}},\"required\":[\"path\",\"content\"]}"@
    &&& t[5].description@ == "Run a shell command (gcc, make, cargo, etc.). Defender blocks dangerous commands."@
    &&& t[5].parameters@ == "{\"type\":\"object\",\"properties\":{\"command\":{\"type\":\"string\",\"description\":\"shell command to execute\"}},\"required\":[\"command\"]}"@
}

/// The default tool set over the registered claws: `read`, `grep` and
/// `audit` run automatically; `edit`, `write` and `bash` need confirmation.
/// The `read`, `grep`, `audit` and `edit` claws must be registered.
pub fn default_tools(claws: &Vec<BuiltinClaw>) -> (r: Vec<Tool>)
    requires
        has_claw(claws@, "read"@),
        has_claw(claws@, "grep"@),
        has_claw(claws@, "audit"@),
        has_claw(claws@, "edit"@),
    ensures
        default_tool_set(r@),
{
    let mut out: Vec<Tool> = Vec::new();
    out.push(tool("read", "Read a file or list a directory contents.", schema_path(), Approval::Auto, vec!["path"], "read"));
    out.push(
        tool(
            "grep",
            "Search file contents for a pattern (respects .gitignore).",
            "{\"type\":\"object\",\"properties\":{\"pattern\":{\"type\":\"string\"},\"path\":{\"type\":\"string\",\"description\":\"defaults to current dir\"}},\"required\":[\"pattern\"]}",
            Approval::Auto,
            vec!["pattern", "path"],
            "grep",
        ),
    );
    out.push(
        tool(
            "audit",
            "Scan a directory for security risks (prompt injection, SSRF, path traversal).",
            "{\"type\":\"object\",\"properties\":{\"path\":{\"type\":\"string\",\"description\":\"defaults to current dir\"}},\"required\":[]}",
            Approval::Auto,
            vec!["path"],
            "audit",
        ),
    );
    out.push(
        tool(
            "edit",
            "Replace a unique string in an existing file.",
            "{\"type\":\"object\",\"properties\":{\"path\":{\"type\":\"string\"},\"old\":{\"type\":\"string\",\"description\":\"text to find (must match exactly once)\"},\"new\":{\"type\":\"string\",\"description\":\"replacement text\"}},\"required\":[\"path\",\"old\",\"new\"]}",
            Approval::Confirm,
            vec!["path", "old", "new"],
            "edit",
        ),
    );
    out.push(
        tool(
            "write",
            "Create or overwrite a file with the given content.",
            "{\"type\":\"object\",\"properties\":{\"path\":{\"type\":\"string\",\"description\":\"file path to create or overwrite\"},\"content\":{\"type\":\"string\",\"description\":\"full file content to write\"}},\"required\":[\"path\",\"content\"]}",
            Approval::Confirm,
            vec!["path", "content"],
            "edit",
        ),
    );
    out.push(
        tool(
            "bash",
            "Run a shell command (gcc, make, cargo, etc.). Defender blocks dangerous commands.",
            "{\"type\":\"object\",\"properties\":{\"command\":{\"type\":\"string\",\"description\":\"shell command to execute\"}},\"required\":[\"command\"]}",
            Approval::Confirm,
            vec!["command"],
            "edit",
        ),
    );
    assert(out@[0].arg_order@ =~= seq!["path"]);
    assert(out@[0].arg_order@ =~= seq!["path"]);
    assert(out@[1].arg_order@ =~= seq!["pattern", "path"]);
    assert(out@[2].arg_order@ =~= seq!["path"]);
    assert(out@[3].arg_order@ =~= seq!["path", "old", "new"]);
    assert(out@[4].arg_order@ =~= seq!["path", "content"]);
    assert(out@[5].arg_order@ =~= seq!["command"]);
    out
}

/// What `skill_tools` lists, backed by `claw`.
pub open spec fn skill_tool_set(t: Seq<Tool>, claw: &'static str) -> bool {
    &&& t.len() == 2
    &&& t[0].name == "skill_list" && t[0].approval == Approval::Auto && t[0].arg_order@.len() == 0
    &&& t[1].name == "skill_run" && t[1].approval == Approval::Auto && t[1].arg_order@ == seq!["id", "args"]
    &&& t[0].claw == claw && t[1].claw == claw
    &&& t[0].description@ == "List all available skills with their descriptions."@
    &&& t[0].parameters@ == "{\"type\":\"object\",\"properties\":{}}"@
    &&& t[1].description@ == "Run a skill by id. For script-based skills it executes the script; for prompt-based skills it returns the SKILL.md body as knowledge."@
    &&& t[1].parameters@ == "{\"type\":\"object\",\"properties\":{\"id\":{\"type\":\"string\",\"description\":\"skill id (from skill_list)\"},\"args\":{\"type\":\"string\",\"description\":\"optional arguments to pass to the skill\"}},\"required\":[\"id\"]}"@
}

/// The skill tools, both automatic: `skill_list` and `skill_run`, backed by
/// the given claw.
pub fn skill_tools(claw: &'static str) -> (r: Vec<Tool>)
    ensures
        skill_tool_set(r@, claw),
{
    let mut out: Vec<Tool> = Vec::new();
    out.push(
        tool(
            "skill_list",
            "List all available skills with their descriptions.",
            "{\"type\":\"object\",\"properties\":{}}",
            Approval::Auto,
            Vec::new(),
            claw,
        ),
    );
    out.push(
        tool(
            "skill_run",
            "Run a skill by id. For script-based skills it executes the script; for prompt-based skills it returns the SKILL.md body as knowledge.",
            "{\"type\":\"object\",\"properties\":{\"id\":{\"type\":\"string\",\"description\":\"skill id (from skill_list)\"},\"args\":{\"type\":\"string\",\"description\":\"optional arguments to pass to the skill\"}},\"required\":[\"id\"]}",
            Approval::Auto,
            vec!["id", "args"],
            claw,
        ),
    );
    assert(out@[1].arg_order@ =~= seq!["id", "args"]);
    out
}

/// What `extra_tools` lists, backed by `claw`.
pub open spec fn extra_tool_set(t: Seq<Tool>, claw: &'static str) -> bool {
    &&& t.len() == 3
    &&& t[0].name == "glob" && t[0].approval == Approval::Auto && t[0].arg_order@ == seq!["pattern", "path"]
    &&& t[1].name == "fetch" && t[1].approval == Approval::Auto && t[1].arg_order@ == seq!["url"]
    &&& t[2].name == "undo" && t[2].approval == Approval::Auto && t[2].arg_order@.len() == 0
    &&& t[0].claw == claw && t[1].claw == claw && t[2].claw == claw
    &&& t[0].description@ == "List files matching a glob pattern (e.g. '**/*.rs', 'src/*.ts')."@
    &&& t[0].parameters@ == "{\"type\":\"object\",\"properties\":{\"pattern\":{\"type\":\"string\",\"description\":\"glob pattern\"},\"path\":{\"type\":\"string\",\"description\":\"root dir (defaults to cwd)\"}},\"required\":[\"pattern\"]}"@
    &&& t[1].description@ == "Download a web page and return text content. SSRF-protected."@
    &&& t[1].parameters@ == "{\"type\":\"object\",\"properties\":{\"url\":{\"type\":\"string\",\"description\":\"URL to fetch\"}},\"required\":[\"url\"]}"@
    &&& t[2].description@ == "Undo the most recent write/edit: restore the file from backup."@
    &&& t[2].parameters@ == "{\"type\":\"object\",\"properties\":{}}"@
}

/// The extra tools, all automatic: `glob`, `fetch` and `undo`, backed by the
/// given claw.
pub fn extra_tools(claw: &'static str) -> (r: Vec<Tool>)
    ensures
        extra_tool_set(r@, claw),
{
    let mut out: Vec<Tool> = Vec::new();
    out.push(
        tool(
            "glob",
            "List files matching a glob pattern (e.g. '**/*.rs', 'src/*.ts').",
            "{\"type\":\"object\",\"properties\":{\"pattern\":{\"type\":\"string\",\"description\":\"glob pattern\"},\"path\":{\"type\":\"string\",\"description\":\"root dir (defaults to cwd)\"}},\"required\":[\"pattern\"]}",
            Approval::Auto,
            vec!["pattern", "path"],
            claw,
        ),
    );
    out.push(
        tool(
            "fetch",
            "Download a web page and return text content. SSRF-protected.",
            "{\"type\":\"object\",\"properties\":{\"url\":{\"type\":\"string\",\"description\":\"URL to fetch\"}},\"required\":[\"url\"]}",
            Approval::Auto,
            vec!["url"],
            claw,
        ),
    );
    out.push(
        tool(
            "undo",
            "Undo the most recent write/edit: restore the file from backup.",
            "{\"type\":\"object\",\"properties\":{}}",
            Approval::Auto,
            Vec::new(),
            claw,
        ),
    );
    assert(out@[0].arg_order@ =~= seq!["pattern", "path"]);
    assert(out@[1].arg_order@ =~= seq!["url"]);
    out
}

} // verus!
