//! What the command line computes: the skill table and suggestions, claw
//! lookup, and the dispatch of the stdio MCP server.

use vstd::prelude::*;
use crate::claw::{builtin_name, BuiltinClaw};
use crate::skills::Skill;
use crate::stream::{join, joined};
use crate::text::{
    cat, char_count, chars_of, contains_seq, flat, owned, push_char, push_str, str_contains, str_eq, string_views,
    take_chars, trim, trim_seq,
};
use crate::tools::{
    default_tool_set, default_tools, extra_tool_set, extra_tools, has_claw, position, skill_tool_set, skill_tools, Tool,
    ToolOutcome,
};

verus! {

/// A string shortened for a table column: itself when it has at most `max`
/// characters, else its first `max - 1` characters and `…`.
pub open spec fn shortened(s: Seq<char>, max: nat) -> Seq<char> {
    if s.len() <= max {
        s
    } else {
        s.take(max - 1) + seq!['…']
    }
}

/// Shortens a string to at most `max` characters.
pub fn truncate(s: &str, max: usize) -> (r: String)
    requires
        s@.len() <= max || max >= 1,
    ensures
        r@ == shortened(s@, max as nat),
{
    if char_count(s) <= max {
        owned(s)
    } else {
        let mut out = take_chars(s, max - 1);
        push_char(&mut out, '…');
        out
    }
}

/// `s` padded on the right with spaces to at least `width` characters
/// (`format!("{:<width$}")`).
pub open spec fn pad_right(s: Seq<char>, width: nat) -> Seq<char> {
    if s.len() >= width {
        s
    } else {
        s + Seq::new((width - s.len()) as nat, |i: int| ' ')
    }
}

/// Left-aligns `s` in a field of `width` characters.
pub fn left_align(s: &str, width: usize) -> (r: String)
    ensures
        r@ == pad_right(s@, width as nat),
{
    let n = char_count(s);
    let mut out = owned(s);
    if n < width {
        let pad = width - n;
        let mut i: usize = 0;
        while i < pad
            invariant
                0 <= i <= pad,
                pad == width - s@.len(),
                out@ == s@ + Seq::new(i as nat, |k: int| ' '),
            decreases pad - i,
        {
            push_char(&mut out, ' ');
            assert(out@ =~= s@ + Seq::new((i + 1) as nat, |k: int| ' '));
            i += 1;
        }
    } else {
        assert(out@ == s@);
    }
    out
}

/// One row of the skills table: source, id, version and name, in columns of
/// 2, 28 and 10 characters (id cut to 28, name to 40).
pub open spec fn skill_row(s: Skill) -> Seq<char> {
    pad_right(
        match s.source {
            crate::skills::Source::Global => "G"@,
            crate::skills::Source::Project => "P"@,
        },
        2,
    ) + seq![' '] + pad_right(shortened(s.id@, 28), 28) + seq![' '] + pad_right(
        match s.version {
            Some(v) => v@,
            None => "-"@,
        },
        10,
    ) + seq![' '] + shortened(s.name@, 40)
}

/// Formats one row of the skills table.
pub fn skill_row_exec(s: &Skill) -> (r: String)
    ensures
        r@ == skill_row(*s),
{
    let src = left_align(s.source.label(), 2);
    let id = truncate(s.id.as_str(), 28);
    let id_col = left_align(id.as_str(), 28);
    let version = match &s.version {
        Some(v) => left_align(v.as_str(), 10),
        None => left_align("-", 10),
    };
    let name = truncate(s.name.as_str(), 40);
    let r = cat(&vec![src.as_str(), " ", id_col.as_str(), " ", version.as_str(), " ", name.as_str()]);
    proof {
        reveal_with_fuel(flat, 8);
        reveal_strlit(" ");
    }
    r
}

/// What `str::to_lowercase` gives for `s` (Unicode lower-casing of the
/// whole string).
pub uninterp spec fn str_lowercase(s: Seq<char>) -> Seq<char>;

/// Lower-cases a string with `str::to_lowercase`. Of ASCII text the
/// Unicode mapping is the ASCII one: `A`-`Z` become `a`-`z`, the rest stay.
#[verifier::external_body]
fn lowercase(s: &str) -> (r: String)
    ensures
        r@ == str_lowercase(s@),
        (forall|i: int| 0 <= i < s@.len() ==> (#[trigger] s@[i] as u32) < 128) ==> r@ == crate::text::ascii_lower(s@),
{
    s.to_lowercase()
}

/// The ids close to a query: those containing the lower-cased query or
/// contained in it, at most five, in list order.
pub open spec fn close_ids(skills: Seq<Skill>, q: Seq<char>) -> Seq<Seq<char>>
    decreases skills.len(),
{
    if skills.len() == 0 {
        Seq::empty()
    } else {
        let prev = close_ids(skills.drop_last(), q);
        let id = skills.last().id@;
        if prev.len() < 5 && (contains_seq(id, q) || contains_seq(q, id)) {
            prev.push(id)
        } else {
            prev
        }
    }
}

/// The first five ids of a list.
pub open spec fn first_ids(skills: Seq<Skill>) -> Seq<Seq<char>> {
    let n = if skills.len() < 5 { skills.len() } else { 5 };
    skills.take(n as int).map_values(|s: Skill| s.id@)
}

/// The suggestion printed when a skill id is not found: the close ids, or
/// failing those the first five ids, after `did you mean one of: `; nothing
/// when the list is empty.
pub fn suggest_closest(skills: &Vec<Skill>, query: &str) -> (r: Option<String>)
    ensures
        ({
            let close = close_ids(skills@, str_lowercase(query@));
            let shown = if close.len() > 0 { close } else { first_ids(skills@) };
            &&& (shown.len() == 0 <==> r is None)
            &&& (r matches Some(m) ==> m@ == "did you mean one of: "@ + joined(shown, ", "@))
        }),
{
    let q = lowercase(query);
    let mut hits: Vec<String> = Vec::new();
    let mut k: usize = 0;
    while k < skills.len()
        invariant
            0 <= k <= skills@.len(),
            q@ == str_lowercase(query@),
            string_views(hits@) == close_ids(skills@.take(k as int), q@),
        decreases skills@.len() - k,
    {
        assert(skills@.take(k + 1).drop_last() =~= skills@.take(k as int));
        let id = skills[k].id.as_str();
        if hits.len() < 5 && (str_contains(id, q.as_str()) || str_contains(q.as_str(), id)) {
            let ghost before = string_views(hits@);
            hits.push(owned(id));
            assert(string_views(hits@) =~= before.push(id@));
        }
        k += 1;
    }
    assert(skills@.take(k as int) =~= skills@);
    if hits.len() == 0 {
        let mut j: usize = 0;
        while j < skills.len() && j < 5
            invariant
                0 <= j <= skills@.len(),
                j <= 5,
                string_views(hits@) == skills@.take(j as int).map_values(|s: Skill| s.id@),
            decreases skills@.len() - j,
        {
            let ghost before = string_views(hits@);
            hits.push(owned(skills[j].id.as_str()));
            assert(string_views(hits@) =~= before.push(skills@[j as int].id@));
            assert(skills@.take(j + 1).map_values(|s: Skill| s.id@) =~= skills@.take(j as int).map_values(|s: Skill| s.id@).push(skills@[j as int].id@));
            j += 1;
        }
        assert(string_views(hits@) =~= first_ids(skills@));
    }
    if hits.len() == 0 {
        return None;
    }
    let list = join(&hits, ", ");
    let msg = cat(&vec!["did you mean one of: ", list.as_str()]);
    proof {
        reveal_with_fuel(flat, 3);
    }
    Some(msg)
}

/// The built-in claw with the given name, if there is one.
pub fn find_claw(claws: &Vec<BuiltinClaw>, name: &str) -> (r: Option<BuiltinClaw>)
    ensures
        r matches Some(c) ==> builtin_name(c) == name@ && claws@.contains(c),
        r is None ==> forall|k: int| 0 <= k < claws@.len() ==> builtin_name(#[trigger] claws@[k]) != name@,
{
    let mut k: usize = 0;
    while k < claws.len()
        invariant
            0 <= k <= claws@.len(),
            forall|j: int| 0 <= j < k ==> builtin_name(#[trigger] claws@[j]) != name@,
        decreases claws@.len() - k,
    {
        if str_eq(claws[k].name(), name) {
            assert(claws@.contains(claws@[k as int]));
            return Some(claws[k]);
        }
        k += 1;
    }
    None
}

/// The line listing a claw: its name in ten columns, then its description.
pub fn claw_line(c: BuiltinClaw) -> (r: String)
    ensures
        r@ == pad_right(builtin_name(c), 10) + seq![' '] + crate::claw::builtin_desc(c),
{
    let name = left_align(c.name(), 10);
    let r = cat(&vec![name.as_str(), " ", c.desc()]);
    proof {
        reveal_with_fuel(flat, 4);
        reveal_strlit(" ");
    }
    r
}

// ---------------------------------------------------------------------------
// The stdio MCP server
// ---------------------------------------------------------------------------

/// What an MCP request asks for.
#[derive(Debug, Clone, Copy, PartialEq, Eq, Structural)]
pub enum McpMethod {
    Initialize,
    ListTools,
    CallTool,
    NotFound,
}

/// The method a JSON-RPC request names.
pub fn mcp_method(method: &str) -> (r: McpMethod)
    ensures
        method@ == "initialize"@ ==> r == McpMethod::Initialize,
        method@ == "tools/list"@ ==> r == McpMethod::ListTools,
        method@ == "tools/call"@ ==> r == McpMethod::CallTool,
        method@ != "initialize"@ && method@ != "tools/list"@ && method@ != "tools/call"@ ==> r == McpMethod::NotFound,
{
    proof {
        reveal_strlit("initialize");
        reveal_strlit("tools/list");
        reveal_strlit("tools/call");
        assert("initialize"@ != "tools/list"@) by {
            assert("initialize"@[0] != "tools/list"@[0]);
        }
        assert("initialize"@ != "tools/call"@) by {
            assert("initialize"@[0] != "tools/call"@[0]);
        }
        assert("tools/list"@ != "tools/call"@) by {
            assert("tools/list"@[6] != "tools/call"@[6]);
        }
    }
    if str_eq(method, "initialize") {
        McpMethod::Initialize
    } else if str_eq(method, "tools/list") {
        McpMethod::ListTools
    } else if str_eq(method, "tools/call") {
        McpMethod::CallTool
    } else {
        McpMethod::NotFound
    }
}

/// Whether a request line is skipped: blank lines carry no request.
pub fn mcp_skip_line(line: &str) -> (b: bool)
    ensures
        b == (trim_seq(line@).len() == 0),
{
    let t = trim(line);
    t.as_str().is_empty()
}

/// The result of a `tools/call`: the tool to run, or the unknown-tool
/// message returned as an error.
pub fn mcp_call_target(tools: &Vec<Tool>, name: &str) -> (r: Result<usize, String>)
    ensures
        r matches Ok(k) ==> k < tools@.len() && tools@[k as int].name@ == name@ && forall|j: int|
            0 <= j < k ==> (#[trigger] tools@[j]).name@ != name@,
        r matches Err(m) ==> m@ == "unknown tool: "@ + name@ && forall|k: int|
            0 <= k < tools@.len() ==> (#[trigger] tools@[k]).name@ != name@,
{
    match position(tools, name) {
        Some(k) => Ok(k),
        None => Err(crate::text::concat("unknown tool: ", name)),
    }
}

/// The text and error flag of a `tools/call` response.
pub fn mcp_call_result(outcome: ToolOutcome) -> (r: (String, bool))
    ensures
        r.0 == outcome.summary,
        r.1 == !outcome.ok,
{
    (outcome.summary, !outcome.ok)
}

/// The tools the MCP server and the web agent offer: the default tools,
/// then the skill tools and the extra tools, backed by `claw`.
pub fn agent_tools(claws: &Vec<BuiltinClaw>, claw: &'static str) -> (r: Vec<Tool>)
    requires
        has_claw(claws@, "read"@),
        has_claw(claws@, "grep"@),
        has_claw(claws@, "audit"@),
        has_claw(claws@, "edit"@),
    ensures
        r@.len() == 11,
        default_tool_set(r@.take(6)),
        skill_tool_set(r@.subrange(6, 8), claw),
        extra_tool_set(r@.subrange(8, 11), claw),
{
    let mut tools = default_tools(claws);
    let mut s = skill_tools(claw);
    let mut e = extra_tools(claw);
    let ghost d = tools@;
    let ghost sv = s@;
    let ghost ev = e@;
    tools.append(&mut s);
    tools.append(&mut e);
    assert(tools@.take(6) =~= d);
    assert(tools@.subrange(6, 8) =~= sv);
    assert(tools@.subrange(8, 11) =~= ev);
    tools
}

} // verus!
