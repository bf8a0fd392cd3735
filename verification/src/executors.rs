//! What the agent's tools compute around their I/O: argument extraction,
//! output shaping (truncation, caps, joining), the sandbox and Defender
//! checks, and the messages the model reads back.

use vstd::prelude::*;
use crate::ctx::{guarded, Ctx};
use crate::defender::{scan_text, text_scan, url_scan, Action, ScanReport, ScanReportView};
use crate::fsclaws::{hit_views, hits_upto, GrepHit};
use crate::pattern::{ci_regex_error, ci_regex_match, compile_ci, find_ci};
use crate::rules::{points, severity_label, Severity};
use crate::sandbox::writable;
use crate::skills::{skill_with_id, Skill};
use crate::stream::{join, joined, lines_of};
use crate::text::{
    cat, chars_of, concat, count_matches, decimal, decimal_seq, decode_utf8_lossy, flat, is_byte_boundary, owned,
    push_str, replace_first, signed_decimal, signed_decimal_seq, str_eq, string_views, take_chars, truncate_output,
    utf8_len, utf8_len_exec, utf8_lossy, cut_to_bytes,
};
use crate::tools::{Tool, ToolOutcome};

verus! {

/// A tool call's JSON arguments, as the logic reads them: each field's name
/// and its value when that value is a string.
#[derive(Debug, Clone)]
pub struct JsonArgs {
    pub fields: Vec<(String, Option<String>)>,
}

/// The string value of the first field named `key`, if it is a string.
pub open spec fn arg_str(fields: Seq<(String, Option<String>)>, key: Seq<char>) -> Option<Seq<char>>
    decreases fields.len(),
{
    if fields.len() == 0 {
        None
    } else if fields[0].0@ == key {
        match fields[0].1 {
            Some(v) => Some(v@),
            None => None,
        }
    } else {
        arg_str(fields.drop_first(), key)
    }
}

impl JsonArgs {
    /// The string value of a field, if it is present and a string.
    pub fn get_str(&self, key: &str) -> (r: Option<String>)
        ensures
            r matches Some(v) ==> arg_str(self.fields@, key@) == Some(v@),
            r is None ==> arg_str(self.fields@, key@) is None,
    {
        let mut k: usize = 0;
        assert(self.fields@.subrange(0, self.fields@.len() as int) =~= self.fields@);
        while k < self.fields.len()
            invariant
                0 <= k <= self.fields@.len(),
                arg_str(self.fields@, key@) == arg_str(self.fields@.subrange(k as int, self.fields@.len() as int), key@),
            decreases self.fields@.len() - k,
        {
            assert(self.fields@.subrange(k as int, self.fields@.len() as int).drop_first() =~= self.fields@.subrange(
                k + 1,
                self.fields@.len() as int,
            ));
            if str_eq(self.fields[k].0.as_str(), key) {
                return match &self.fields[k].1 {
                    Some(v) => Some(owned(v.as_str())),
                    None => None,
                };
            }
            k += 1;
        }
        None
    }
}

/// The positional arguments of a tool: the string arguments named in its
/// argument order, in that order, skipping absent ones.
pub open spec fn positionals_of(order: Seq<&'static str>, fields: Seq<(String, Option<String>)>) -> Seq<Seq<char>>
    decreases order.len(),
{
    if order.len() == 0 {
        Seq::empty()
    } else {
        let prev = positionals_of(order.drop_last(), fields);
        match arg_str(fields, order.last()@) {
            Some(v) => prev.push(v),
            None => prev,
        }
    }
}

impl Tool {
    /// Extracts the positional arguments from the model's JSON arguments.
    pub fn positionals(&self, args: &JsonArgs) -> (r: Vec<String>)
        ensures
            string_views(r@) == positionals_of(self.arg_order@, args.fields@),
    {
        let mut out: Vec<String> = Vec::new();
        let mut k: usize = 0;
        while k < self.arg_order.len()
            invariant
                0 <= k <= self.arg_order@.len(),
                string_views(out@) == positionals_of(self.arg_order@.take(k as int), args.fields@),
            decreases self.arg_order@.len() - k,
        {
            assert(self.arg_order@.take(k + 1).drop_last() =~= self.arg_order@.take(k as int));
            match args.get_str(self.arg_order[k]) {
                Some(v) => {
                    let ghost before = string_views(out@);
                    out.push(v);
                    assert(string_views(out@) =~= before.push(out@.last()@));
                },
                None => {},
            }
            k += 1;
        }
        assert(self.arg_order@.take(k as int) =~= self.arg_order@);
        out
    }
}

/// The most bytes of a file the `read` tool returns.
pub const READ_MAX_BYTES: usize = 65536;

/// The `read` tool's output for a file's bytes: at most 64 KiB decoded,
/// with a marker when cut.
pub fn read_tool_output(bytes: &Vec<u8>) -> (r: ToolOutcome)
    ensures
        r.ok,
        bytes@.len() <= READ_MAX_BYTES ==> r.summary@ == utf8_lossy(bytes@),
        bytes@.len() > READ_MAX_BYTES ==> r.summary@ == utf8_lossy(bytes@.take(READ_MAX_BYTES as int))
            + "\n…[truncated at 65536 bytes]"@,
{
    if bytes.len() > READ_MAX_BYTES {
        let mut head: Vec<u8> = Vec::new();
        let mut k: usize = 0;
        while k < READ_MAX_BYTES
            invariant
                0 <= k <= READ_MAX_BYTES,
                READ_MAX_BYTES < bytes@.len(),
                head@ == bytes@.take(k as int),
            decreases READ_MAX_BYTES - k,
        {
            head.push(bytes[k]);
            assert(bytes@.take(k + 1) =~= bytes@.take(k as int).push(bytes@[k as int]));
            k += 1;
        }
        let text = decode_utf8_lossy(head.as_slice());
        ToolOutcome { ok: true, summary: concat(text.as_str(), "\n…[truncated at 65536 bytes]") }
    } else {
        ToolOutcome { ok: true, summary: decode_utf8_lossy(bytes.as_slice()) }
    }
}

/// The `read` tool's output for a directory: its sorted listing, one name
/// per line, directories with a trailing `/`.
pub fn dir_tool_output(entries: Vec<(String, bool)>) -> (r: ToolOutcome)
    ensures
        r.ok,
        r.summary@ == joined(crate::order::sort_views(crate::fsclaws::listed_names(entries@)), "\n"@),
{
    let names = crate::fsclaws::dir_listing(entries);
    ToolOutcome { ok: true, summary: join(&names, "\n") }
}

// ---------------------------------------------------------------------------
// grep, glob, audit collectors
// ---------------------------------------------------------------------------

/// The most matching lines the `grep` tool returns.
pub const GREP_CAP: usize = 50;

/// A matching line as the `grep` tool shows it: `path:line:text`.
pub open spec fn hit_line(path: Seq<char>, h: (nat, Seq<char>)) -> Seq<char> {
    path + seq![':'] + decimal_seq(h.0) + seq![':'] + h.1
}

/// The lines the `grep` tool shows for one file.
pub open spec fn file_hit_lines(path: Seq<char>, pattern: Seq<char>, text: Seq<char>) -> Seq<Seq<char>> {
    hits_upto(pattern, lines_of(text), lines_of(text).len()).map_values(|h: (nat, Seq<char>)| hit_line(path, h))
}

/// Matching lines collected across files, capped at 50.
pub struct GrepCollector {
    pub hits: Vec<String>,
    /// Set once the cap was reached and the marker appended.
    pub full: bool,
}

impl GrepCollector {
    /// No hits yet.
    pub fn new() -> (c: GrepCollector)
        ensures
            c.hits@.len() == 0,
            !c.full,
    {
        GrepCollector { hits: Vec::new(), full: false }
    }

    /// Adds one file's matching lines as `path:line:text`; on reaching 50
    /// hits appends the truncation marker and reports that the search is
    /// over.
    pub fn add_file(&mut self, path: &str, p: &crate::pattern::CiPattern, text: &str) -> (stop: bool)
        requires
            !old(self).full,
            old(self).hits@.len() < GREP_CAP,
        ensures
            stop == final(self).full,
            ({
                let added = file_hit_lines(path@, p.source(), text@);
                let room = GREP_CAP - old(self).hits@.len();
                if added.len() < room {
                    !stop && string_views(final(self).hits@) == string_views(old(self).hits@) + added
                } else {
                    stop && string_views(final(self).hits@) == string_views(old(self).hits@) + added.take(room)
                        + seq!["…[too many matches, truncated at 50]"@]
                }
            }),
    {
        let found = crate::fsclaws::grep_text(p, text);
        let ghost added = file_hit_lines(path@, p.source(), text@);
        let ghost start = string_views(self.hits@);
        assert(added =~= hit_views(found@).map_values(|h: (nat, Seq<char>)| hit_line(path@, h)));
        let mut k: usize = 0;
        while k < found.len()
            invariant
                0 <= k <= found@.len(),
                added.len() == found@.len(),
                added == file_hit_lines(path@, p.source(), text@),
                added == hit_views(found@).map_values(|h: (nat, Seq<char>)| hit_line(path@, h)),
                !self.full,
                start == string_views(old(self).hits@),
                old(self).hits@.len() + k < GREP_CAP,
                string_views(self.hits@) == start + added.take(k as int),
            decreases found@.len() - k,
        {
            let line = crate::fsclaws::grep_line(path, &found[k]);
            assert(line@ == added[k as int]);
            let ghost before = string_views(self.hits@);
            self.hits.push(line);
            assert(string_views(self.hits@) =~= before.push(line@));
            assert(added.take(k + 1) =~= added.take(k as int).push(added[k as int]));
            if self.hits.len() >= GREP_CAP {
                let ghost before2 = string_views(self.hits@);
                self.hits.push(owned("…[too many matches, truncated at 50]"));
                assert(string_views(self.hits@) =~= before2.push("…[too many matches, truncated at 50]"@));
                self.full = true;
                assert(added.take(GREP_CAP - old(self).hits@.len()) =~= added.take(k + 1));
                return true;
            }
            k += 1;
        }
        assert(added.take(k as int) =~= added);
        false
    }

    /// The tool outcome: the hits one per line, or a failure when there
    /// are none.
    pub fn outcome(&self) -> (r: ToolOutcome)
        ensures
            self.hits@.len() == 0 ==> !r.ok && r.summary@ == "no matches"@,
            self.hits@.len() > 0 ==> r.ok && r.summary@ == joined(string_views(self.hits@), "\n"@),
    {
        if self.hits.len() == 0 {
            ToolOutcome::failed("no matches")
        } else {
            ToolOutcome { ok: true, summary: join(&self.hits, "\n") }
        }
    }
}

/// The regular expression a glob stands for, anchored at both ends: `**`
/// matches anything, `*` anything but `/`, `?` one character, and regex
/// metacharacters stand for themselves.
pub open spec fn glob_regex_body(g: Seq<char>) -> Seq<char>
    decreases g.len(),
{
    if g.len() == 0 {
        Seq::empty()
    } else {
        let c = g[0];
        if c == '*' {
            if g.len() >= 2 && g[1] == '*' {
                seq!['.', '*'] + glob_regex_body(g.subrange(2, g.len() as int))
            } else {
                seq!['[', '^', '/', ']', '*'] + glob_regex_body(g.drop_first())
            }
        } else if c == '?' {
            seq!['.'] + glob_regex_body(g.drop_first())
        } else if is_meta(c) {
            seq!['\\', c] + glob_regex_body(g.drop_first())
        } else {
            seq![c] + glob_regex_body(g.drop_first())
        }
    }
}

/// The regex metacharacters a glob escapes.
pub open spec fn is_meta(c: char) -> bool {
    c == '.' || c == '+' || c == '(' || c == ')' || c == '|' || c == '[' || c == ']' || c == '{' || c == '}'
        || c == '^' || c == '$' || c == '\\'
}

/// The anchored regular expression of a glob.
pub open spec fn glob_regex(g: Seq<char>) -> Seq<char> {
    seq!['^'] + glob_regex_body(g) + seq!['$']
}

/// Translates a glob into an anchored regular expression.
pub fn glob_to_regex(pattern: &str) -> (r: String)
    ensures
        r@ == glob_regex(pattern@),
{
    let v = chars_of(pattern);
    let n = v.len();
    let mut out = String::new();
    crate::text::push_char(&mut out, '^');
    let mut i: usize = 0;
    assert(v@.subrange(0, n as int) =~= v@);
    while i < n
        invariant
            n == v@.len(),
            i <= n,
            out@ + glob_regex_body(v@.subrange(i as int, n as int)) == glob_regex(pattern@).drop_last(),
            v@ == pattern@,
        decreases n - i,
    {
        let c = v[i];
        let ghost rest = v@.subrange(i as int, n as int);
        if c == '*' {
            if i + 1 < n && v[i + 1] == '*' {
                push_str(&mut out, ".*");
                proof {
                    reveal_strlit(".*");
                }
                assert(rest.subrange(2, rest.len() as int) =~= v@.subrange(i + 2, n as int));
                i += 2;
            } else {
                push_str(&mut out, "[^/]*");
                proof {
                    reveal_strlit("[^/]*");
                }
                assert(rest.drop_first() =~= v@.subrange(i + 1, n as int));
                i += 1;
            }
        } else if c == '?' {
            crate::text::push_char(&mut out, '.');
            assert(rest.drop_first() =~= v@.subrange(i + 1, n as int));
            i += 1;
        } else if c == '.' || c == '+' || c == '(' || c == ')' || c == '|' || c == '[' || c == ']' || c == '{'
            || c == '}' || c == '^' || c == '$' || c == '\\' {
            crate::text::push_char(&mut out, '\\');
            crate::text::push_char(&mut out, c);
            assert(rest.drop_first() =~= v@.subrange(i + 1, n as int));
            i += 1;
        } else {
            crate::text::push_char(&mut out, c);
            assert(rest.drop_first() =~= v@.subrange(i + 1, n as int));
            i += 1;
        }
    }
    crate::text::push_char(&mut out, '$');
    assert(v@.subrange(n as int, n as int) =~= Seq::<char>::empty());
    out
}

/// Whether a path matches a glob (case-insensitively); a glob whose regex
/// does not compile matches nothing.
pub fn glob_match(pattern: &str, text: &str) -> (b: bool)
    ensures
        b == (ci_regex_error(glob_regex(pattern@)) is None && ci_regex_match(glob_regex(pattern@), text@) is Some),
{
    let re = glob_to_regex(pattern);
    match compile_ci(re.as_str()) {
        Ok(p) => find_ci(&p, text).is_some(),
        Err(_) => false,
    }
}

/// The most paths the `glob` tool returns.
pub const GLOB_CAP: usize = 100;

/// Matching paths collected, capped at 100.
pub struct GlobCollector {
    pub matches: Vec<String>,
    pub full: bool,
}

impl GlobCollector {
    /// No matches yet.
    pub fn new() -> (c: GlobCollector)
        ensures
            c.matches@.len() == 0,
            !c.full,
    {
        GlobCollector { matches: Vec::new(), full: false }
    }

    /// Considers one path (relative to the working directory); on reaching
    /// 100 matches appends the truncation marker and reports that the walk
    /// is over.
    pub fn add(&mut self, pattern: &str, rel: &str) -> (stop: bool)
        requires
            !old(self).full,
            old(self).matches@.len() < GLOB_CAP,
        ensures
            stop == final(self).full,
            !stop ==> final(self).matches@.len() < GLOB_CAP,
            glob_match_spec(pattern@, rel@) ==> final(self).matches@[old(self).matches@.len() as int]@ == rel@,
            !glob_match_spec(pattern@, rel@) ==> final(self).matches == old(self).matches && !stop,
            stop ==> final(self).matches@.len() == GLOB_CAP + 1 && final(self).matches@.last()@
                == "…[truncated at 100]"@,
    {
        if glob_match(pattern, rel) {
            self.matches.push(owned(rel));
            if self.matches.len() >= GLOB_CAP {
                self.matches.push(owned("…[truncated at 100]"));
                self.full = true;
                return true;
            }
        }
        false
    }

    /// The tool outcome: the matches one per line, or a failure when none.
    pub fn outcome(&self) -> (r: ToolOutcome)
        ensures
            self.matches@.len() == 0 ==> !r.ok && r.summary@ == "no files matched"@,
            self.matches@.len() > 0 ==> r.ok && r.summary@ == joined(string_views(self.matches@), "\n"@),
    {
        if self.matches.len() == 0 {
            ToolOutcome::failed("no files matched")
        } else {
            ToolOutcome { ok: true, summary: join(&self.matches, "\n") }
        }
    }
}

/// A path matches a glob.
pub open spec fn glob_match_spec(pattern: Seq<char>, text: Seq<char>) -> bool {
    ci_regex_error(glob_regex(pattern)) is None && ci_regex_match(glob_regex(pattern), text) is Some
}

/// The audit tool's findings, one line per flagged file.
pub struct AuditLines {
    pub lines: Vec<String>,
    pub any_block: bool,
}

/// The audit line of a flagged file: `path: <severity> (score <n>)`.
pub open spec fn audit_line(path: Seq<char>, r: ScanReportView) -> Seq<char> {
    path + ": "@ + severity_label(r.severity) + " (score "@ + decimal_seq(r.score as nat) + ")"@
}

impl AuditLines {
    /// Nothing flagged yet.
    pub fn new() -> (a: AuditLines)
        ensures
            a.lines@.len() == 0,
            !a.any_block,
    {
        AuditLines { lines: Vec::new(), any_block: false }
    }

    /// Takes one file's report into account: clean files add nothing.
    pub fn add(&mut self, path: &str, report: &ScanReport)
        ensures
            report.action == Action::Allow ==> final(self).lines@ == old(self).lines@ && final(self).any_block == old(
                self,
            ).any_block,
            report.action != Action::Allow ==> string_views(final(self).lines@) == string_views(old(self).lines@).push(
                audit_line(path@, report@),
            ) && final(self).any_block == (old(self).any_block || report.action == Action::Block),
    {
        if report.is_clean() {
            return;
        }
        if report.action == Action::Block {
            self.any_block = true;
        }
        let score = decimal(report.score as u64);
        let line = cat(&vec![path, ": ", report.severity.label(), " (score ", score.as_str(), ")"]);
        proof {
            reveal_with_fuel(flat, 7);
        }
        let ghost before = string_views(self.lines@);
        self.lines.push(line);
        assert(string_views(self.lines@) =~= before.push(line@));
    }

    /// The tool outcome: no issues, or the flagged files one per line (a
    /// failure when one was blocked).
    pub fn outcome(&self) -> (r: ToolOutcome)
        ensures
            self.lines@.len() == 0 ==> r.ok && r.summary@ == "no issues found"@,
            self.lines@.len() > 0 ==> r.ok == !self.any_block && r.summary@ == joined(string_views(self.lines@), "\n"@),
    {
        if self.lines.len() == 0 {
            ToolOutcome::ok("no issues found")
        } else {
            ToolOutcome { ok: !self.any_block, summary: join(&self.lines, "\n") }
        }
    }
}

// ---------------------------------------------------------------------------
// edit, write
// ---------------------------------------------------------------------------

/// What an edit or write may do once its checks passed.
pub struct EditArgs {
    pub old: String,
    pub new: String,
}

/// Checks an `edit` call: the sandbox must allow the target, and the old
/// and new texts must be given.
pub fn edit_tool_check(ctx: &Ctx, path: &str, args: &JsonArgs) -> (r: Result<EditArgs, ToolOutcome>)
    ensures
        !writable(ctx.sandbox.roots(), path@, ctx.cwd@) ==> (r matches Err(o) && !o.ok && o.summary@
            == "write denied by sandbox"@),
        writable(ctx.sandbox.roots(), path@, ctx.cwd@) && arg_str(args.fields@, "old"@) is None ==> (r matches Err(o)
            && !o.ok && o.summary@ == "missing 'old'"@),
        writable(ctx.sandbox.roots(), path@, ctx.cwd@) && arg_str(args.fields@, "old"@) is Some && arg_str(
            args.fields@,
            "new"@,
        ) is None ==> (r matches Err(o) && !o.ok && o.summary@ == "missing 'new'"@),
        r matches Ok(e) ==> writable(ctx.sandbox.roots(), path@, ctx.cwd@) && arg_str(args.fields@, "old"@)
            == Some(e.old@) && arg_str(args.fields@, "new"@) == Some(e.new@),
{
    if !ctx.sandbox.can_write(path, ctx.cwd.as_str()) {
        return Err(ToolOutcome::failed("write denied by sandbox"));
    }
    let old = match args.get_str("old") {
        Some(s) => s,
        None => return Err(ToolOutcome::failed("missing 'old'")),
    };
    let new = match args.get_str("new") {
        Some(s) => s,
        None => return Err(ToolOutcome::failed("missing 'new'")),
    };
    Ok(EditArgs { old, new })
}

/// Applies an `edit` call to the file's content: exactly one occurrence of
/// the old text is replaced; zero or several are refused.
pub fn edit_tool_apply(content: &str, old: &str, new: &str) -> (r: Result<String, ToolOutcome>)
    requires
        count_matches(content@, old@) <= usize::MAX,
    ensures
        count_matches(content@, old@) == 0 ==> (r matches Err(o) && !o.ok && o.summary@ == "no match for 'old'"@),
        count_matches(content@, old@) == 1 ==> (r matches Ok(s) && s@ == replace_first(content@, old@, new@)),
        count_matches(content@, old@) >= 2 ==> (r matches Err(o) && !o.ok && o.summary@ == "'old' matches "@
            + decimal_seq(count_matches(content@, old@)) + " times; refusing ambiguous edit"@),
{
    match crate::fsclaws::apply_edit(content, old, new) {
        Ok(s) => Ok(s),
        Err(crate::fsclaws::EditError::NoMatch) => Err(ToolOutcome::failed("no match for 'old'")),
        Err(crate::fsclaws::EditError::Ambiguous(n)) => {
            let num = decimal(n as u64);
            let msg = cat(&vec!["'old' matches ", num.as_str(), " times; refusing ambiguous edit"]);
            proof {
                reveal_with_fuel(flat, 4);
            }
            Err(ToolOutcome::failed(msg.as_str()))
        },
    }
}

/// Checks a `write` call: the sandbox must allow the target and the content
/// must be given.
pub fn write_tool_check(ctx: &Ctx, path: &str, args: &JsonArgs) -> (r: Result<String, ToolOutcome>)
    ensures
        !writable(ctx.sandbox.roots(), path@, ctx.cwd@) ==> (r matches Err(o) && !o.ok && o.summary@
            == "write denied by sandbox"@),
        writable(ctx.sandbox.roots(), path@, ctx.cwd@) && arg_str(args.fields@, "content"@) is None ==> (r matches Err(
            o,
        ) && !o.ok && o.summary@ == "missing 'content'"@),
        r matches Ok(c) ==> writable(ctx.sandbox.roots(), path@, ctx.cwd@) && arg_str(args.fields@, "content"@)
            == Some(c@),
{
    if !ctx.sandbox.can_write(path, ctx.cwd.as_str()) {
        return Err(ToolOutcome::failed("write denied by sandbox"));
    }
    match args.get_str("content") {
        Some(s) => Ok(s),
        None => Err(ToolOutcome::failed("missing 'content'")),
    }
}

/// The message of a successful write: `wrote <bytes> bytes to <path>`.
pub fn wrote_message(content: &str, path: &str) -> (r: ToolOutcome)
    requires
        utf8_len(content@) <= u64::MAX,
        utf8_len(content@) <= usize::MAX,
    ensures
        r.ok,
        r.summary@ == "wrote "@ + decimal_seq(utf8_len(content@)) + " bytes to "@ + path@,
{
    let n = utf8_len_exec(content);
    let num = decimal(n as u64);
    let msg = cat(&vec!["wrote ", num.as_str(), " bytes to ", path]);
    proof {
        reveal_with_fuel(flat, 5);
    }
    ToolOutcome { ok: true, summary: msg }
}

// ---------------------------------------------------------------------------
// bash and script output
// ---------------------------------------------------------------------------

/// The most output bytes returned from a command.
pub const OUTPUT_CAP: usize = 8192;

/// Checks a shell command with the Defender (always, whatever the context's
/// switch): a blocked command is refused, naming the first match.
pub fn bash_check(command: &str) -> (r: Result<(), ToolOutcome>)
    ensures
        text_scan(command@).action == Action::Block <==> r is Err,
        r matches Err(o) ==> !o.ok && o.summary@ == "Defender blocked command ("@ + severity_label(
            text_scan(command@).severity,
        ) + " score "@ + decimal_seq(text_scan(command@).score as nat) + "): matches '"@ + (if text_scan(
            command@,
        ).findings.len() > 0 {
            text_scan(command@).findings[0].matched
        } else {
            "?"@
        }) + "'"@,
{
    let report = scan_text(command);
    if report.action != Action::Block {
        return Ok(());
    }
    let score = decimal(report.score as u64);
    let first: String = if report.findings.len() > 0 {
        owned(report.findings[0].matched.as_str())
    } else {
        owned("?")
    };
    let msg = cat(
        &vec![
            "Defender blocked command (",
            report.severity.label(),
            " score ",
            score.as_str(),
            "): matches '",
            first.as_str(),
            "'",
        ],
    );
    proof {
        reveal_with_fuel(flat, 8);
        if report.findings@.len() > 0 {
            assert(crate::defender::findings_view(report.findings@)[0] == report.findings@[0]@);
        }
    }
    Err(ToolOutcome::blocked(msg.as_str()))
}

/// The shell's output as returned: stdout, then `\n[stderr]\n` and stderr
/// when stderr is not empty (the separator only when stdout is not empty
/// either).
pub open spec fn combined_output(stdout: Seq<char>, stderr: Seq<char>) -> Seq<char> {
    if stderr.len() == 0 {
        stdout
    } else if stdout.len() == 0 {
        stderr
    } else {
        stdout + "\n[stderr]\n"@ + stderr
    }
}

/// Combines a command's stdout and stderr.
pub fn combine_output(stdout: &str, stderr: &str) -> (r: String)
    ensures
        r@ == combined_output(stdout@, stderr@),
{
    let mut combined = owned(stdout);
    if !stderr.is_empty() {
        if !combined.as_str().is_empty() {
            push_str(&mut combined, "\n[stderr]\n");
        }
        push_str(&mut combined, stderr);
    }
    combined
}

/// The outcome of a finished shell command: `(exit <code>)`, then a newline
/// and the output (cut to 8 KiB) when there is output.
pub fn bash_outcome(combined: &str, code: i64, success: bool) -> (r: ToolOutcome)
    requires
        utf8_len(combined@) <= OUTPUT_CAP || is_byte_boundary(combined@, OUTPUT_CAP as nat),
    ensures
        r.ok == success,
        combined@.len() == 0 ==> r.summary@ == "(exit "@ + signed_decimal_seq(code as int) + ")"@,
        combined@.len() > 0 ==> forall|k: int|
            0 <= k <= combined@.len() && utf8_len(#[trigger] combined@.take(k)) == OUTPUT_CAP || (k == combined@.len()
                && utf8_len(combined@) <= OUTPUT_CAP) ==> r.summary@ == "(exit "@ + signed_decimal_seq(code as int)
                + ")\n"@ + cut_to_bytes(combined@, OUTPUT_CAP as nat, k),
{
    let cut = truncate_output(combined, OUTPUT_CAP);
    let c = signed_decimal(code);
    let summary = if combined.is_empty() {
        cat(&vec!["(exit ", c.as_str(), ")"])
    } else {
        cat(&vec!["(exit ", c.as_str(), ")\n", cut.as_str()])
    };
    proof {
        reveal_with_fuel(flat, 5);
    }
    ToolOutcome { ok: success, summary }
}

/// A skill script's output as returned: stdout, then `\n[stderr]\n` and
/// stderr when stderr is not empty.
pub open spec fn script_output(stdout: Seq<char>, stderr: Seq<char>) -> Seq<char> {
    if stderr.len() == 0 {
        stdout
    } else {
        stdout + "\n[stderr]\n"@ + stderr
    }
}

/// The outcome of a finished skill script: `(exit <code>)`, a newline and
/// its output (stdout, then `\n[stderr]\n` and stderr when there is any),
/// cut to 8 KiB.
pub fn script_outcome(stdout: &str, stderr: &str, code: i64, success: bool) -> (r: ToolOutcome)
    requires
        utf8_len(script_output(stdout@, stderr@)) <= OUTPUT_CAP || is_byte_boundary(
            script_output(stdout@, stderr@),
            OUTPUT_CAP as nat,
        ),
    ensures
        r.ok == success,
        forall|k: int|
            0 <= k <= script_output(stdout@, stderr@).len() && utf8_len(
                #[trigger] script_output(stdout@, stderr@).take(k),
            ) == OUTPUT_CAP || (k == script_output(stdout@, stderr@).len() && utf8_len(script_output(stdout@, stderr@))
                <= OUTPUT_CAP) ==> r.summary@ == "(exit "@ + signed_decimal_seq(code as int) + ")\n"@ + cut_to_bytes(
                script_output(stdout@, stderr@),
                OUTPUT_CAP as nat,
                k,
            ),
{
    let mut combined = owned(stdout);
    if !stderr.is_empty() {
        push_str(&mut combined, "\n[stderr]\n");
        push_str(&mut combined, stderr);
    }
    let cut = truncate_output(combined.as_str(), OUTPUT_CAP);
    let c = signed_decimal(code);
    let summary = cat(&vec!["(exit ", c.as_str(), ")\n", cut.as_str()]);
    proof {
        reveal_with_fuel(flat, 5);
    }
    ToolOutcome { ok: success, summary }
}

// ---------------------------------------------------------------------------
// skills
// ---------------------------------------------------------------------------

/// The line listing one skill: `- <id>: <first 80 characters of the
/// description>`, then ` [scripted]` for a scripted skill.
pub open spec fn skill_list_line(s: Skill) -> Seq<char> {
    "- "@ + s.id@ + ": "@ + (if s.description@.len() <= 80 {
        s.description@
    } else {
        s.description@.take(80)
    }) + (if s.scripts@.len() > 0 {
        " [scripted]"@
    } else {
        Seq::empty()
    })
}

/// The `skill_list` tool's output.
pub fn skill_list_output(skills: &Vec<Skill>) -> (r: ToolOutcome)
    ensures
        r.ok,
        skills@.len() == 0 ==> r.summary@ == "no skills found"@,
        skills@.len() > 0 ==> r.summary@ == decimal_seq(skills@.len() as nat) + " skill(s):\n"@ + joined(
            skills@.map_values(|s: Skill| skill_list_line(s)),
            "\n"@,
        ),
{
    if skills.len() == 0 {
        return ToolOutcome::ok("no skills found");
    }
    let mut lines: Vec<String> = Vec::new();
    let mut k: usize = 0;
    while k < skills.len()
        invariant
            0 <= k <= skills@.len(),
            string_views(lines@) == skills@.take(k as int).map_values(|s: Skill| skill_list_line(s)),
        decreases skills@.len() - k,
    {
        let s = &skills[k];
        let desc = take_chars(s.description.as_str(), 80);
        let tail = if s.is_scripted() {
            " [scripted]"
        } else {
            ""
        };
        let line = cat(&vec!["- ", s.id.as_str(), ": ", desc.as_str(), tail]);
        proof {
            reveal_with_fuel(flat, 6);
            reveal_strlit("");
        }
        let ghost before = string_views(lines@);
        lines.push(line);
        assert(string_views(lines@) =~= before.push(line@));
        assert(skills@.take(k + 1).map_values(|s: Skill| skill_list_line(s)) =~= skills@.take(k as int).map_values(
            |s: Skill| skill_list_line(s),
        ).push(skill_list_line(skills@[k as int])));
        k += 1;
    }
    assert(skills@.take(k as int) =~= skills@);
    let count = decimal(skills.len() as u64);
    let body = join(&lines, "\n");
    let summary = cat(&vec![count.as_str(), " skill(s):\n", body.as_str()]);
    proof {
        reveal_with_fuel(flat, 4);
    }
    ToolOutcome { ok: true, summary }
}

/// What a `skill_run` call leads to.
#[derive(Debug)]
pub enum SkillRunPlan {
    /// Answer with this outcome without running anything.
    Answer(ToolOutcome),
    /// Run this script, passing these arguments.
    Run { script: String, args: Vec<String> },
}

/// What a `skill_run` call leads to, as a mathematical value: an answer
/// (whether it succeeded, its text), or a script run (the script, its
/// arguments).
pub enum PlanView {
    Answer(bool, Seq<char>),
    Run(Seq<char>, Seq<Seq<char>>),
}

/// The view of a plan.
pub open spec fn plan_view(p: SkillRunPlan) -> PlanView {
    match p {
        SkillRunPlan::Answer(o) => PlanView::Answer(o.ok, o.summary@),
        SkillRunPlan::Run { script, args } => PlanView::Run(script@, string_views(args@)),
    }
}

/// The plan for a `skill_run` call with these arguments.
pub open spec fn run_plan(skills: Seq<Skill>, fields: Seq<(String, Option<String>)>, no_defender: bool) -> PlanView {
    match arg_str(fields, "id"@) {
        None => PlanView::Answer(false, "missing 'id'"@),
        Some(id) => match skill_with_id(skills, id) {
            None => PlanView::Answer(false, "no skill with id '"@ + id + "'"@),
            Some(s) => if s.scripts@.len() == 0 {
                PlanView::Answer(true, "(prompt-only skill, returning body)\n\n"@ + s.body@)
            } else {
                match arg_str(fields, "args"@) {
                    Some(e) => {
                        let rep = guarded(no_defender, text_scan(e));
                        if rep.action == Action::Block {
                            PlanView::Answer(
                                false,
                                "Defender blocked skill arg ("@ + severity_label(rep.severity) + " score "@
                                    + decimal_seq(rep.score as nat) + ")"@,
                            )
                        } else {
                            PlanView::Run(s.scripts@[0]@, crate::text::words(e))
                        }
                    },
                    None => PlanView::Run(s.scripts@[0]@, Seq::empty()),
                }
            },
        },
    }
}

/// The answer when a skill argument is blocked.
fn blocked_arg_message(report: &ScanReport) -> (r: String)
    ensures
        r@ == "Defender blocked skill arg ("@ + severity_label(report.severity) + " score "@ + decimal_seq(
            report.score as nat,
        ) + ")"@,
{
    let score = decimal(report.score as u64);
    let msg = cat(&vec!["Defender blocked skill arg (", report.severity.label(), " score ", score.as_str(), ")"]);
    proof {
        reveal_with_fuel(flat, 6);
    }
    msg
}

/// The answer when no skill has the id.
fn no_skill_message(id: &str) -> (r: String)
    ensures
        r@ == "no skill with id '"@ + id@ + "'"@,
{
    let msg = cat(&vec!["no skill with id '", id, "'"]);
    proof {
        reveal_with_fuel(flat, 4);
    }
    msg
}

/// Plans a `skill_run` call: the id must be given and name a discovered
/// skill; a prompt-only skill answers with its body; a scripted one runs its
/// main script with the white-space separated `args`, unless the Defender
/// blocks them.
pub fn skill_run_plan(skills: &Vec<Skill>, args: &JsonArgs, ctx: &Ctx) -> (r: SkillRunPlan)
    ensures
        plan_view(r) == run_plan(skills@, args.fields@, ctx.no_defender),
{
    let id = match args.get_str("id") {
        Some(s) => s,
        None => return SkillRunPlan::Answer(ToolOutcome::failed("missing 'id'")),
    };
    let skill = match crate::skills::find(skills.as_slice(), id.as_str()) {
        Some(s) => {
            s
        },
        None => {
            let msg = no_skill_message(id.as_str());
            return SkillRunPlan::Answer(ToolOutcome::failed(msg.as_str()));
        },
    };
    if !skill.is_scripted() {
        let msg = concat("(prompt-only skill, returning body)\n\n", skill.body.as_str());
        return SkillRunPlan::Answer(ToolOutcome::ok(msg.as_str()));
    }
    let script = match skill.main_script() {
        Some(p) => owned(p),
        None => return SkillRunPlan::Answer(ToolOutcome::failed("skill has no main script")),
    };
    let extra = args.get_str("args");
    match extra {
        Some(e) => {
            let report = ctx.guard_text(e.as_str());
            if report.action == Action::Block {
                let msg = blocked_arg_message(&report);
                return SkillRunPlan::Answer(ToolOutcome::blocked(msg.as_str()));
            }
            let words = crate::text::split_words(e.as_str());
            assert(arg_str(args.fields@, "args"@) == Some(e@));
            SkillRunPlan::Run { script, args: words }
        },
        None => {
            let none: Vec<String> = Vec::new();
            assert(string_views(none@) =~= Seq::<Seq<char>>::empty());
            SkillRunPlan::Run { script, args: none }
        },
    }
}


// ---------------------------------------------------------------------------
// fetch
// ---------------------------------------------------------------------------

/// The most body bytes of a fetched page returned.
pub const FETCH_CAP: usize = 8192;

/// Checks a `fetch` call: the URL must be given and not blocked by the
/// Defender's URL scan. Returns the URL.
pub fn fetch_check(ctx: &Ctx, args: &JsonArgs) -> (r: Result<String, ToolOutcome>)
    ensures
        arg_str(args.fields@, "url"@) is None ==> (r matches Err(o) && !o.ok && o.summary@ == "missing 'url'"@),
        arg_str(args.fields@, "url"@) matches Some(u) ==> (if guarded(ctx.no_defender, url_scan(u)).action
            == Action::Block {
            r matches Err(o) && !o.ok && o.summary@ == "Defender blocked URL ("@ + severity_label(
                guarded(ctx.no_defender, url_scan(u)).severity,
            ) + " score "@ + decimal_seq(guarded(ctx.no_defender, url_scan(u)).score as nat) + ")"@
        } else {
            r matches Ok(v) && v@ == u
        }),
{
    let url = match args.get_str("url") {
        Some(u) => u,
        None => return Err(ToolOutcome::failed("missing 'url'")),
    };
    let report = ctx.guard_url(url.as_str());
    if report.action == Action::Block {
        let score = decimal(report.score as u64);
        let msg = cat(&vec!["Defender blocked URL (", report.severity.label(), " score ", score.as_str(), ")"]);
        proof {
            reveal_with_fuel(flat, 6);
        }
        return Err(ToolOutcome::blocked(msg.as_str()));
    }
    Ok(url)
}

/// The summary of a fetched page: `HTTP <status>:` and the body, or, for a
/// body over 8 KiB, `HTTP <status> (truncated):` and its first 8 KiB (`k`
/// characters).
pub open spec fn fetch_summary(status: Seq<char>, body: Seq<char>, k: int) -> Seq<char> {
    if utf8_len(body) > FETCH_CAP {
        "HTTP "@ + status + " (truncated):\n"@ + body.take(k)
    } else {
        "HTTP "@ + status + ":\n"@ + body
    }
}

/// The outcome of a fetched page: successful when the status is, with the
/// body cut to 8 KiB (the cut must fall on a character boundary).
pub fn fetch_outcome(status: &str, success: bool, body: &str) -> (r: ToolOutcome)
    requires
        utf8_len(body@) <= FETCH_CAP || is_byte_boundary(body@, FETCH_CAP as nat),
    ensures
        r.ok == success,
        forall|k: int|
            0 <= k <= body@.len() && utf8_len(#[trigger] body@.take(k)) == FETCH_CAP || (k == body@.len() && utf8_len(
                body@,
            ) <= FETCH_CAP) ==> r.summary@ == fetch_summary(status@, body@, k),
{
    let v = chars_of(body);
    let (k, bytes) = crate::text::utf8_prefix(&v, FETCH_CAP);
    if k == v.len() {
        assert(v@.take(k as int) =~= v@);
        let msg = cat(&vec!["HTTP ", status, ":\n", body]);
        proof {
            reveal_with_fuel(flat, 5);
            assert forall|j: int|
                0 <= j <= body@.len() && utf8_len(#[trigger] body@.take(j)) == FETCH_CAP || (j == body@.len()
                    && utf8_len(body@) <= FETCH_CAP) implies msg@ == fetch_summary(status@, body@, j) by {
            }
        }
        return ToolOutcome { ok: success, summary: msg };
    }
    proof {
        crate::text::lemma_utf8_len_mono(v@, k + 1);
    }
    let head = crate::text::string_from_range(&v, 0, k);
    let msg = cat(&vec!["HTTP ", status, " (truncated):\n", head.as_str()]);
    proof {
        reveal_with_fuel(flat, 5);
        let j0 = choose|j: int| 0 <= j <= body@.len() && utf8_len(#[trigger] body@.take(j)) == FETCH_CAP;
        if j0 > k {
            crate::text::lemma_utf8_len_strict(v@, k + 1, j0);
        }
        if j0 < k {
            crate::text::lemma_utf8_len_strict(v@, j0, k as int);
        }
        assert forall|j: int|
            0 <= j <= body@.len() && utf8_len(#[trigger] body@.take(j)) == FETCH_CAP || (j == body@.len() && utf8_len(
                body@,
            ) <= FETCH_CAP) implies msg@ == fetch_summary(status@, body@, j) by {
            if utf8_len(body@.take(j)) == FETCH_CAP {
                if j > k {
                    crate::text::lemma_utf8_len_strict(v@, k as int, j);
                }
                if j < k {
                    crate::text::lemma_utf8_len_strict(v@, j, k as int);
                }
            }
        }
    }
    ToolOutcome { ok: success, summary: msg }
}

} // verus!
