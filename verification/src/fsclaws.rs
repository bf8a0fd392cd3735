//! The filesystem claws' logic: `read` (numbered lines, long lines cut,
//! large files truncated, directory listings), `grep` (matching lines),
//! `edit` (exactly one occurrence replaced, behind the sandbox and the
//! Defender) and `audit` (per-file Defender scans rolled up).

use vstd::prelude::*;
use crate::claw::ExitCode;
use crate::ctx::{guarded, Ctx};
use crate::defender::{text_scan, Action, ScanReport, ScanReportView};
use crate::order::{sort_strings, stable_sort};
use crate::pattern::{ci_regex_match, find_ci, CiPattern};
use crate::rules::{points, severity_label, Severity};
use crate::sandbox::{plain_pieces, writable};
use crate::stream::{lines, lines_of};
use crate::text::{
    cat, char_count, chars_of, concat, count_matches, count_matches_upto, decimal, decimal_seq, decode_utf8_lossy,
    flat, owned, pad_left, push_str, replace_first, replace_first_exec, right_align, split_char, string_views,
    take_chars, utf8_lossy, views,
};

verus! {

/// The most bytes of a file the `read` claw shows.
pub const MAX_BYTES: usize = 524288;

/// Lines longer than this many characters are cut.
pub const MAX_LINE_LEN: usize = 2000;

/// A line as displayed: lines of up to 2000 characters unchanged, longer
/// ones cut to 2000 characters followed by ` …`.
pub open spec fn displayed_line(line: Seq<char>) -> Seq<char> {
    if line.len() <= MAX_LINE_LEN {
        line
    } else {
        line.take(MAX_LINE_LEN as int) + " …"@
    }
}

/// Lines as displayed.
pub open spec fn displayed_lines(ls: Seq<Seq<char>>) -> Seq<Seq<char>> {
    ls.map_values(|l: Seq<char>| displayed_line(l))
}

/// Cuts an over-long line for display.
pub fn truncate_line(line: &str) -> (r: String)
    ensures
        r@ == displayed_line(line@),
{
    if char_count(line) <= MAX_LINE_LEN {
        owned(line)
    } else {
        let head = take_chars(line, MAX_LINE_LEN);
        concat(head.as_str(), " …")
    }
}

/// The displayed lines of a text.
pub fn collect_lines(content: &str) -> (r: Vec<String>)
    ensures
        string_views(r@) == displayed_lines(lines_of(content@)),
{
    let ls = lines(content);
    let mut out: Vec<String> = Vec::new();
    let mut k: usize = 0;
    while k < ls.len()
        invariant
            0 <= k <= ls@.len(),
            string_views(ls@) == lines_of(content@),
            string_views(out@) == displayed_lines(string_views(ls@).take(k as int)),
        decreases ls@.len() - k,
    {
        let ghost before = string_views(out@);
        out.push(truncate_line(ls[k].as_str()));
        assert(string_views(ls@)[k as int] == ls@[k as int]@);
        assert(displayed_lines(string_views(ls@).take(k + 1)) =~= before.push(displayed_line(ls@[k as int]@)));
        assert(string_views(out@) =~= before.push(out@.last()@));
        k += 1;
    }
    assert(string_views(ls@).take(k as int) =~= string_views(ls@));
    out
}

/// A file's shown text and whether it was truncated: at most 512 KiB of it,
/// decoded as UTF-8 with invalid sequences replaced.
pub fn read_text(bytes: &Vec<u8>) -> (r: (String, bool))
    ensures
        r.1 == (bytes@.len() > MAX_BYTES),
        r.0@ == utf8_lossy(if r.1 { bytes@.take(MAX_BYTES as int) } else { bytes@ }),
{
    let truncated = bytes.len() > MAX_BYTES;
    if truncated {
        let mut head: Vec<u8> = Vec::new();
        let mut k: usize = 0;
        while k < MAX_BYTES
            invariant
                0 <= k <= MAX_BYTES,
                MAX_BYTES < bytes@.len(),
                head@ == bytes@.take(k as int),
            decreases MAX_BYTES - k,
        {
            head.push(bytes[k]);
            assert(bytes@.take(k + 1) =~= bytes@.take(k as int).push(bytes@[k as int]));
            k += 1;
        }
        (decode_utf8_lossy(head.as_slice()), true)
    } else {
        (decode_utf8_lossy(bytes.as_slice()), false)
    }
}

/// One numbered output line: the 1-based number right-aligned in six
/// columns, a tab, the displayed line and a newline.
pub open spec fn numbered(n: nat, line: Seq<char>) -> Seq<char> {
    pad_left(decimal_seq(n), 6) + seq!['\t'] + displayed_line(line) + seq!['\n']
}

/// The numbered lines `from` on, numbering from `from + 1`.
pub open spec fn numbered_from(ls: Seq<Seq<char>>, k: nat) -> Seq<char>
    decreases k,
{
    if k == 0 {
        Seq::empty()
    } else {
        numbered_from(ls, (k - 1) as nat) + numbered(k, ls[k - 1])
    }
}

/// The listing the `read` claw prints for a text: each line numbered.
pub fn numbered_listing(content: &str) -> (r: String)
    ensures
        r@ == numbered_from(lines_of(content@), lines_of(content@).len()),
{
    let ls = lines(content);
    let mut out = String::new();
    let mut k: usize = 0;
    while k < ls.len()
        invariant
            0 <= k <= ls@.len(),
            string_views(ls@) == lines_of(content@),
            out@ == numbered_from(lines_of(content@), k as nat),
        decreases ls@.len() - k,
    {
        let num = decimal((k + 1) as u64);
        let col = right_align(num.as_str(), 6);
        let shown = truncate_line(ls[k].as_str());
        push_str(&mut out, col.as_str());
        push_str(&mut out, "\t");
        push_str(&mut out, shown.as_str());
        push_str(&mut out, "\n");
        proof {
            reveal_strlit("\t");
            reveal_strlit("\n");
        }
        assert(string_views(ls@)[k as int] == ls@[k as int]@);
        k += 1;
    }
    out
}

/// The names of a directory's entries as listed: directories get a
/// trailing `/`, and the list is sorted.
pub open spec fn listed_name(name: Seq<char>, is_dir: bool) -> Seq<char> {
    if is_dir {
        name.push('/')
    } else {
        name
    }
}

/// The listed names of directory entries, in the order given.
pub open spec fn listed_names(entries: Seq<(String, bool)>) -> Seq<Seq<char>> {
    entries.map_values(|e: (String, bool)| listed_name(e.0@, e.1))
}

/// The sorted listing of directory entries (name, is-directory).
pub fn dir_listing(entries: Vec<(String, bool)>) -> (r: Vec<String>)
    ensures
        string_views(r@) == crate::order::sort_views(listed_names(entries@)),
{
    let mut names: Vec<String> = Vec::new();
    let mut k: usize = 0;
    while k < entries.len()
        invariant
            0 <= k <= entries@.len(),
            string_views(names@) == listed_names(entries@).take(k as int),
        decreases entries@.len() - k,
    {
        let name = if entries[k].1 {
            concat(entries[k].0.as_str(), "/")
        } else {
            owned(entries[k].0.as_str())
        };
        proof {
            reveal_strlit("/");
            assert(name@ =~= listed_name(entries@[k as int].0@, entries@[k as int].1));
        }
        let ghost prev = names@;
        names.push(name);
        assert(string_views(names@) =~= string_views(prev).push(name@));
        assert(listed_names(entries@).take(k + 1) =~= listed_names(entries@).take(k as int).push(
            listed_name(entries@[k as int].0@, entries@[k as int].1),
        ));
        k += 1;
    }
    assert(listed_names(entries@).take(k as int) =~= listed_names(entries@));
    let ghost before = names@;
    let sorted = sort_strings(names);
    proof {
        crate::order::lemma_sort_views(before);
    }
    sorted
}

// ---------------------------------------------------------------------------
// grep
// ---------------------------------------------------------------------------

/// A matching line: its 1-based number and its text.
pub struct GrepHit {
    pub line_no: usize,
    pub text: String,
}

/// The numbered lines (1-based) of `ls[..k]` that the pattern matches.
pub open spec fn hits_upto(pattern: Seq<char>, ls: Seq<Seq<char>>, k: nat) -> Seq<(nat, Seq<char>)>
    decreases k,
{
    if k == 0 || k > ls.len() {
        Seq::empty()
    } else {
        let prev = hits_upto(pattern, ls, (k - 1) as nat);
        if ci_regex_match(pattern, ls[k - 1]) is Some {
            prev.push((k, ls[k - 1]))
        } else {
            prev
        }
    }
}

/// The views of grep hits.
pub open spec fn hit_views(hs: Seq<GrepHit>) -> Seq<(nat, Seq<char>)> {
    hs.map_values(|h: GrepHit| (h.line_no as nat, h.text@))
}

/// The lines of a text that the (case-insensitive) pattern matches, with
/// their 1-based numbers.
pub fn grep_text(p: &CiPattern, text: &str) -> (r: Vec<GrepHit>)
    ensures
        hit_views(r@) == hits_upto(p.source(), lines_of(text@), lines_of(text@).len()),
{
    let ls = lines(text);
    let mut out: Vec<GrepHit> = Vec::new();
    let mut k: usize = 0;
    while k < ls.len()
        invariant
            0 <= k <= ls@.len(),
            string_views(ls@) == lines_of(text@),
            hit_views(out@) == hits_upto(p.source(), lines_of(text@), k as nat),
        decreases ls@.len() - k,
    {
        assert(string_views(ls@)[k as int] == ls@[k as int]@);
        let found = find_ci(p, ls[k].as_str());
        if found.is_some() {
            let ghost before = hit_views(out@);
            out.push(GrepHit { line_no: k + 1, text: owned(ls[k].as_str()) });
            assert(hit_views(out@) =~= before.push(((k + 1) as nat, ls@[k as int]@)));
        }
        k += 1;
    }
    out
}

/// The output line of a hit: `path:line:text`.
pub fn grep_line(path: &str, hit: &GrepHit) -> (r: String)
    ensures
        r@ == path@ + seq![':'] + decimal_seq(hit.line_no as nat) + seq![':'] + hit.text@,
{
    let num = decimal(hit.line_no as u64);
    let parts = vec![path, ":", num.as_str(), ":", hit.text.as_str()];
    let r = cat(&parts);
    proof {
        reveal_strlit(":");
        reveal_with_fuel(flat, 6);
        assert(parts@.drop_last().drop_last().drop_last().drop_last().drop_last() =~= Seq::<&str>::empty());
    }
    r
}

/// The exit status of a search: success exactly when something matched.
pub fn grep_exit(found_any: bool) -> (r: ExitCode)
    ensures
        found_any <==> r == ExitCode::Success,
{
    if found_any {
        ExitCode::Success
    } else {
        ExitCode::Failure
    }
}

// ---------------------------------------------------------------------------
// edit
// ---------------------------------------------------------------------------

/// Why an edit was refused before the file was read.
#[derive(Debug)]
pub enum EditRefusal {
    /// The target is outside every allow-listed root.
    Denied,
    /// The Defender blocked the old or the new text (its report).
    Blocked(ScanReport),
}

/// Checks an edit before touching the file: the sandbox must allow writing
/// the target, then neither the old nor the new text may be blocked by the
/// Defender (the old text is checked first).
pub fn edit_precheck(ctx: &Ctx, path: &str, old: &str, new: &str) -> (r: Result<(), EditRefusal>)
    ensures
        !writable(ctx.sandbox.roots(), path@, ctx.cwd@) <==> r matches Err(EditRefusal::Denied),
        r is Ok <==> writable(ctx.sandbox.roots(), path@, ctx.cwd@) && guarded(ctx.no_defender, text_scan(old@)).action
            != Action::Block && guarded(ctx.no_defender, text_scan(new@)).action != Action::Block,
        r matches Err(EditRefusal::Blocked(rep)) ==> writable(ctx.sandbox.roots(), path@, ctx.cwd@) && rep.action
            == Action::Block && (rep@ == guarded(ctx.no_defender, text_scan(old@)) || (guarded(
            ctx.no_defender,
            text_scan(old@),
        ).action != Action::Block && rep@ == guarded(ctx.no_defender, text_scan(new@)))),
{
    if !ctx.sandbox.can_write(path, ctx.cwd.as_str()) {
        return Err(EditRefusal::Denied);
    }
    let r1 = ctx.guard_text(old);
    if r1.action == Action::Block {
        return Err(EditRefusal::Blocked(r1));
    }
    let r2 = ctx.guard_text(new);
    if r2.action == Action::Block {
        return Err(EditRefusal::Blocked(r2));
    }
    Ok(())
}

/// Why an edit could not be applied to the file's content.
#[derive(Debug, Clone, PartialEq, Eq)]
pub enum EditError {
    /// The old text does not occur.
    NoMatch,
    /// The old text occurs this many times (two or more).
    Ambiguous(usize),
}

/// Applies an exact edit: the old text must occur exactly once, and that
/// occurrence is replaced by the new text.
pub fn apply_edit(content: &str, old: &str, new: &str) -> (r: Result<String, EditError>)
    requires
        count_matches(content@, old@) <= usize::MAX,
    ensures
        count_matches(content@, old@) == 0 <==> r == Err::<String, EditError>(EditError::NoMatch),
        count_matches(content@, old@) == 1 <==> r is Ok,
        r matches Ok(s) ==> s@ == replace_first(content@, old@, new@),
        r matches Err(EditError::Ambiguous(n)) ==> n == count_matches(content@, old@) && n >= 2,
{
    let cv = chars_of(content);
    let ov = chars_of(old);
    let n = count_matches_upto(&cv, &ov, usize::MAX);
    if n == 0 {
        Err(EditError::NoMatch)
    } else if n == 1 {
        Ok(replace_first_exec(content, old, new))
    } else {
        Err(EditError::Ambiguous(n))
    }
}

// ---------------------------------------------------------------------------
// audit
// ---------------------------------------------------------------------------

/// The file extensions the audit scans.
pub open spec fn scanned_exts() -> Seq<Seq<char>> {
    seq!["md"@, "sh"@, "js"@, "py"@, "ts"@, "rs"@, "json"@, "yaml"@, "yml"@, "toml"@]
}

/// The file name of a path (`Path::file_name`): its last component once
/// empty and `.` segments are dropped, none when there is none or it is `..`.
pub open spec fn file_name(path: Seq<char>) -> Option<Seq<char>> {
    let ps = plain_pieces(split_char(path, '/'));
    if ps.len() == 0 || ps.last() == seq!['.', '.'] {
        None
    } else {
        Some(ps.last())
    }
}

/// The index of the last occurrence of `c` in `s`.
pub open spec fn last_index_of(s: Seq<char>, c: char) -> Option<int>
    decreases s.len(),
{
    if s.len() == 0 {
        None
    } else if s.last() == c {
        Some(s.len() - 1)
    } else {
        last_index_of(s.drop_last(), c)
    }
}

/// The extension of a path (`Path::extension`): the text after the last `.`
/// of its file name, unless that dot starts the name.
pub open spec fn path_extension(path: Seq<char>) -> Option<Seq<char>> {
    match file_name(path) {
        None => None,
        Some(name) => match last_index_of(name, '.') {
            None => None,
            Some(d) => if d == 0 {
                None
            } else {
                Some(name.subrange(d + 1, name.len() as int))
            },
        },
    }
}

/// The file name of a path.
fn file_name_exec(path: &str) -> (r: Option<Vec<char>>)
    ensures
        r matches Some(n) ==> file_name(path@) == Some(n@),
        r is None ==> file_name(path@) is None,
{
    let v = chars_of(path);
    let pieces = crate::text::split_chars(&v, '/');
    let mut last: Option<usize> = None;
    let mut k: usize = 0;
    while k < pieces.len()
        invariant
            0 <= k <= pieces@.len(),
            last matches Some(i) ==> i < k && plain_pieces(views(pieces@).take(k as int)).len() > 0
                && plain_pieces(views(pieces@).take(k as int)).last() == pieces@[i as int]@,
            last is None ==> plain_pieces(views(pieces@).take(k as int)).len() == 0,
        decreases pieces@.len() - k,
    {
        assert(views(pieces@).take(k + 1).drop_last() =~= views(pieces@).take(k as int));
        assert(views(pieces@).take(k + 1).last() == pieces@[k as int]@);
        let p = &pieces[k];
        let is_dot = p.len() == 1 && p[0] == '.';
        proof {
            if p@ == seq!['.'] {
                assert(p@[0] == '.');
            }
            if is_dot {
                assert(p@ =~= seq!['.']);
            }
        }
        if p.len() > 0 && !is_dot {
            last = Some(k);
        }
        k += 1;
    }
    assert(views(pieces@).take(k as int) =~= views(pieces@));
    match last {
        None => None,
        Some(i) => {
            let name = crate::text::copy_chars(&pieces[i]);
            let dd = name.len() == 2 && name[0] == '.' && name[1] == '.';
            proof {
                if name@ == seq!['.', '.'] {
                    assert(name@[0] == '.' && name@[1] == '.');
                }
                if dd {
                    assert(name@ =~= seq!['.', '.']);
                }
            }
            if dd {
                None
            } else {
                Some(name)
            }
        },
    }
}

/// The extension of a path.
pub fn extension(path: &str) -> (r: Option<String>)
    ensures
        r matches Some(e) ==> path_extension(path@) == Some(e@),
        r is None ==> path_extension(path@) is None,
{
    match file_name_exec(path) {
        None => None,
        Some(name) => {
            let mut k = name.len();
            assert(name@.subrange(0, k as int) =~= name@);
            while k > 0 && name[k - 1] != '.'
                invariant
                    k <= name@.len(),
                    last_index_of(name@, '.') == last_index_of(name@.subrange(0, k as int), '.'),
                decreases k,
            {
                assert(name@.subrange(0, k as int).drop_last() =~= name@.subrange(0, k - 1));
                k -= 1;
            }
            if k == 0 {
                assert(last_index_of(name@.subrange(0, 0), '.') is None);
                None
            } else if k == 1 {
                assert(name@.subrange(0, 1).last() == name@[0]);
                None
            } else {
                assert(name@.subrange(0, k as int).last() == name@[k - 1]);
                Some(crate::text::string_from_range(&name, k, name.len()))
            }
        },
    }
}

/// Whether the audit scans a file: its extension is one of `md`, `sh`,
/// `js`, `py`, `ts`, `rs`, `json`, `yaml`, `yml` or `toml`.
pub fn is_scannable(path: &str) -> (b: bool)
    ensures
        b == match path_extension(path@) {
            Some(e) => scanned_exts().contains(e),
            None => false,
        },
{
    let ext = match extension(path) {
        Some(e) => e,
        None => return false,
    };
    let exts = vec!["md", "sh", "js", "py", "ts", "rs", "json", "yaml", "yml", "toml"];
    proof {
        reveal_strlit("md");
    }
    let ghost ev = exts@.map_values(|e: &str| e@);
    assert(ev =~= scanned_exts());
    let mut k: usize = 0;
    while k < exts.len()
        invariant
            0 <= k <= exts@.len(),
            ev == exts@.map_values(|e: &str| e@),
            ev == scanned_exts(),
            path_extension(path@) == Some(ext@),
            forall|m: int| 0 <= m < k ==> scanned_exts()[m] != ext@,
        decreases exts@.len() - k,
    {
        assert(ev[k as int] == exts@[k as int]@);
        if crate::text::str_eq(exts[k], ext.as_str()) {
            assert(scanned_exts()[k as int] == ext@);
            assert(scanned_exts().contains(ext@));
            return true;
        }
        k += 1;
    }
    assert(!scanned_exts().contains(ext@)) by {
        if scanned_exts().contains(ext@) {
            let m = choose|m: int| 0 <= m < scanned_exts().len() && scanned_exts()[m] == ext@;
            assert(scanned_exts()[m] != ext@);
        }
    }
    false
}

/// The symbol printed before a finding of this severity.
pub fn severity_symbol(s: Severity) -> (r: &'static str)
    ensures
        r@ == (match s {
            Severity::Critical => "🔴"@,
            Severity::High => "🟠"@,
            Severity::Warning => "🟡"@,
            Severity::Clean => "✅"@,
        }),
{
    match s {
        Severity::Critical => "🔴",
        Severity::High => "🟠",
        Severity::Warning => "🟡",
        Severity::Clean => "✅",
    }
}

/// The audit's running totals: the highest severity seen among flagged
/// files and whether any was blocked.
pub struct AuditTally {
    pub max_severity: Severity,
    pub any_block: bool,
}

impl AuditTally {
    /// Nothing seen yet.
    pub fn new() -> (t: AuditTally)
        ensures
            t.max_severity == Severity::Clean,
            !t.any_block,
    {
        AuditTally { max_severity: Severity::Clean, any_block: false }
    }

    /// Takes one file's report into account; clean reports change nothing.
    pub fn record(&mut self, report: &ScanReport)
        ensures
            report.action == Action::Allow ==> *final(self) == *old(self),
            report.action != Action::Allow ==> points(final(self).max_severity) == (if points(report.severity) > points(
                old(self).max_severity,
            ) {
                points(report.severity)
            } else {
                points(old(self).max_severity)
            }) && final(self).any_block == (old(self).any_block || report.action == Action::Block),
    {
        if report.is_clean() {
            return;
        }
        if report.severity.score() > self.max_severity.score() {
            self.max_severity = report.severity;
        }
        if report.action == Action::Block {
            self.any_block = true;
        }
    }

    /// The exit status: failure exactly when some file was blocked.
    pub fn exit_code(&self) -> (r: ExitCode)
        ensures
            self.any_block <==> r == ExitCode::Failure,
    {
        if self.any_block {
            ExitCode::Failure
        } else {
            ExitCode::Success
        }
    }
}

/// The name `Debug` prints for a severity.
pub open spec fn severity_debug(s: Severity) -> Seq<char> {
    match s {
        Severity::Critical => "Critical"@,
        Severity::High => "High"@,
        Severity::Warning => "Warning"@,
        Severity::Clean => "Clean"@,
    }
}

/// The name `Debug` prints for a severity.
pub fn severity_name(s: Severity) -> (r: &'static str)
    ensures
        r@ == severity_debug(s),
{
    match s {
        Severity::Critical => "Critical",
        Severity::High => "High",
        Severity::Warning => "Warning",
        Severity::Clean => "Clean",
    }
}

} // verus!
