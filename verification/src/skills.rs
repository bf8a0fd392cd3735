//! Skills: directories holding a `SKILL.md` and optionally a `scripts/`
//! folder, discovered from a global and a project root. Project skills
//! override global ones with the same id; lists are kept sorted by id.

use vstd::prelude::*;
use crate::claw::{Claw, ClawArgs, ExitCode};
use crate::ctx::{guarded, Ctx};
use crate::defender::{text_scan, Action, ScanReport, ScanReportView};
use crate::identity::{opt_view, skill_id, skill_id_of};
use crate::order::{
    is_sorted, lemma_stable_sort_sorted_permutation, sort_by_key, sort_strings, stable_sort, str_less,
    SortKey, seq_less,
};
use crate::parser::{fold_description, folded, ParsedSkill};
use crate::text::{
    chars_of, contains_seq, decode_utf8, has_prefix, owned, split_char, split_chars, split_words,
    str_contains, str_eq, str_starts_with, string_from_range, trim, trim_seq, utf8_decode, words,
    lemma_split_nonempty, string_views,
};

verus! {

/// Where a skill was discovered.
#[derive(Debug, Clone, Copy, PartialEq, Eq, Structural)]
pub enum Source {
    Global,
    Project,
}

impl Source {
    /// The one-letter label of the source: `G` or `P`.
    pub fn label(self) -> (r: &'static str)
        ensures
            r@ == (match self {
                Source::Global => "G"@,
                Source::Project => "P"@,
            }),
    {
        match self {
            Source::Global => "G",
            Source::Project => "P",
        }
    }
}

/// A fully resolved skill.
#[derive(Debug, Clone)]
pub struct Skill {
    /// Canonical id (slug, else lower-cased name, else versionless dir name).
    pub id: String,
    /// Frontmatter `name`, verbatim.
    pub name: String,
    /// Frontmatter `description`, folded to one display line.
    pub description: String,
    pub version: Option<String>,
    pub slug: Option<String>,
    /// Directory the skill lives in.
    pub dir: String,
    /// Markdown body after the frontmatter.
    pub body: String,
    pub source: Source,
    /// Paths of the files under `scripts/`, sorted.
    pub scripts: Vec<String>,
}

impl SortKey for Skill {
    open spec fn sort_key(&self) -> Seq<char> {
        self.id@
    }

    fn key_less(&self, other: &Self) -> (r: bool) {
        str_less(self.id.as_str(), other.id.as_str())
    }
}

impl Skill {
    /// True if this skill ships scripts.
    pub fn is_scripted(&self) -> (b: bool)
        ensures
            b == (self.scripts@.len() > 0),
    {
        self.scripts.len() > 0
    }

    /// The main script (the first one in sorted order), if any.
    pub fn main_script(&self) -> (r: Option<&str>)
        ensures
            self.scripts@.len() == 0 ==> r is None,
            self.scripts@.len() > 0 ==> (r matches Some(p) && p@ == self.scripts@[0]@),
    {
        if self.scripts.len() > 0 {
            Some(self.scripts[0].as_str())
        } else {
            None
        }
    }
}

/// The view of an optional string.
pub open spec fn opt_string_view(o: Option<String>) -> Option<Seq<char>> {
    match o {
        Some(s) => Some(s@),
        None => None,
    }
}

/// A skill built from its parsed SKILL.md, its directory, where it was
/// found and the paths of its scripts.
pub fn build_skill(parsed: ParsedSkill, dir: &str, dir_name: &str, source: Source, scripts: Vec<String>) -> (r: Skill)
    ensures
        r.id@ == skill_id_of(opt_string_view(parsed.frontmatter.slug), Some(parsed.frontmatter.name@), dir_name@),
        r.name == parsed.frontmatter.name,
        r.description@ == folded(parsed.frontmatter.description@),
        r.version == parsed.frontmatter.version,
        r.slug == parsed.frontmatter.slug,
        r.dir@ == dir@,
        r.body == parsed.body,
        r.source == source,
        r.scripts@ == stable_sort(scripts@),
{
    let fm = parsed.frontmatter;
    let id = match &fm.slug {
        Some(s) => skill_id(Some(s.as_str()), Some(fm.name.as_str()), dir_name),
        None => skill_id(None, Some(fm.name.as_str()), dir_name),
    };
    let description = fold_description(fm.description.as_str());
    Skill {
        id,
        name: fm.name,
        description,
        version: fm.version,
        slug: fm.slug,
        dir: owned(dir),
        body: parsed.body,
        source,
        scripts: sort_strings(scripts),
    }
}

/// Whether some skill of `s` has the id `id`.
pub open spec fn has_id(s: Seq<Skill>, id: Seq<char>) -> bool {
    exists|k: int| 0 <= k < s.len() && (#[trigger] s[k]).id@ == id
}

/// The skills of `global` whose id no skill of `project` has, in order.
pub open spec fn not_overridden(global: Seq<Skill>, project: Seq<Skill>) -> Seq<Skill>
    decreases global.len(),
{
    if global.len() == 0 {
        Seq::empty()
    } else {
        let prev = not_overridden(global.drop_last(), project);
        if has_id(project, global.last().id@) {
            prev
        } else {
            prev.push(global.last())
        }
    }
}

/// The merged list: the global skills not overridden, then the project
/// skills, stably sorted by id.
pub open spec fn merged(global: Seq<Skill>, project: Seq<Skill>) -> Seq<Skill> {
    stable_sort(not_overridden(global, project) + project)
}

/// Whether some skill of `project` has the id `id`.
fn contains_id(project: &Vec<Skill>, id: &str) -> (b: bool)
    ensures
        b == has_id(project@, id@),
{
    let mut k: usize = 0;
    while k < project.len()
        invariant
            0 <= k <= project@.len(),
            forall|m: int| 0 <= m < k ==> (#[trigger] project@[m]).id@ != id@,
        decreases project@.len() - k,
    {
        if str_eq(project[k].id.as_str(), id) {
            return true;
        }
        k += 1;
    }
    false
}

/// Merges the global and project lists; the project wins on id collisions,
/// and the result is sorted by id.
pub fn merge(global: Vec<Skill>, project: Vec<Skill>) -> (r: Vec<Skill>)
    ensures
        r@ == merged(global@, project@),
{
    let ghost g = global@;
    let mut src = global;
    let mut kept: Vec<Skill> = Vec::new();
    let mut done: usize = 0;
    let n = src.len();
    assert(g.subrange(0, g.len() as int) =~= g);
    while src.len() > 0
        invariant
            n == g.len(),
            done + src@.len() == g.len(),
            src@ == g.subrange(done as int, g.len() as int),
            kept@ == not_overridden(g.take(done as int), project@),
        decreases src@.len(),
    {
        let s = src.remove(0);
        assert(g.take(done + 1).drop_last() =~= g.take(done as int));
        assert(g.take(done + 1).last() == s);
        if !contains_id(&project, s.id.as_str()) {
            kept.push(s);
        }
        done += 1;
        assert(g.subrange(done as int, g.len() as int) =~= src@);
    }
    assert(g.take(done as int) =~= g);
    let mut project = project;
    let ghost k0 = kept@;
    let ghost p0 = project@;
    kept.append(&mut project);
    assert(kept@ =~= k0 + p0);
    sort_by_key(kept)
}

/// The skills discovered under a global and a project root, given the
/// skills each root's directories held (a missing root holds none): each
/// list sorted by id, then merged with the project winning on id
/// collisions.
pub fn discover_from(global: Vec<Skill>, project: Vec<Skill>) -> (r: Vec<Skill>)
    ensures
        r@ == merged(stable_sort(global@), stable_sort(project@)),
{
    let g = sort_by_key(global);
    let p = sort_by_key(project);
    merge(g, p)
}

/// Every skill of the merged list is a project skill, or a global skill
/// whose id no project skill has; every project skill is in it; and it is
/// sorted by id.
pub proof fn lemma_project_overrides_global(global: Seq<Skill>, project: Seq<Skill>)
    ensures
        is_sorted(merged(global, project)),
        forall|k: int|
            0 <= k < merged(global, project).len() ==> project.contains(#[trigger] merged(global, project)[k])
                || (global.contains(merged(global, project)[k]) && !has_id(project, merged(global, project)[k].id@)),
        forall|k: int| 0 <= k < project.len() ==> merged(global, project).contains(#[trigger] project[k]),
{
    broadcast use vstd::seq_lib::group_to_multiset_ensures;
    let both = not_overridden(global, project) + project;
    lemma_stable_sort_sorted_permutation(both);
    lemma_not_overridden(global, project);
    let m = merged(global, project);
    assert forall|k: int| 0 <= k < m.len() implies project.contains(#[trigger] m[k]) || (global.contains(m[k])
        && !has_id(project, m[k].id@)) by {
        assert(m.to_multiset().count(m[k]) > 0);
        assert(both.to_multiset().count(m[k]) > 0);
        assert(both.contains(m[k]));
        let i = choose|i: int| 0 <= i < both.len() && both[i] == m[k];
        let no = not_overridden(global, project);
        if i < no.len() {
            assert(both[i] == no[i]);
        } else {
            assert(both[i] == project[i - no.len()]);
        }
    }
    assert forall|k: int| 0 <= k < project.len() implies m.contains(#[trigger] project[k]) by {
        let no = not_overridden(global, project);
        assert(both[no.len() + k] == project[k]);
        assert(both.contains(project[k]));
        assert(both.to_multiset().count(project[k]) > 0);
        assert(m.to_multiset().count(project[k]) > 0);
    }
}

/// Nothing is lost in a merge: every project skill is kept, and so is every
/// global skill whose id equals the id of no project skill; every merged
/// skill is a project skill or a global skill whose id no project skill
/// has.
pub proof fn lemma_merge_keeps_unshadowed(global: Seq<Skill>, project: Seq<Skill>)
    ensures
        forall|k: int|
            0 <= k < global.len() && (forall|m: int| 0 <= m < project.len() ==> (#[trigger] project[m]).id@ != global[k].id@)
                ==> merged(global, project).contains(#[trigger] global[k]),
        forall|k: int| 0 <= k < project.len() ==> merged(global, project).contains(#[trigger] project[k]),
        forall|k: int|
            0 <= k < merged(global, project).len() ==> project.contains(#[trigger] merged(global, project)[k]) || (
            global.contains(merged(global, project)[k]) && forall|m: int|
                0 <= m < project.len() ==> (#[trigger] project[m]).id@ != merged(global, project)[k].id@),
{
    broadcast use vstd::seq_lib::group_to_multiset_ensures;
    lemma_project_overrides_global(global, project);
    let both = not_overridden(global, project) + project;
    lemma_stable_sort_sorted_permutation(both);
    let m = merged(global, project);
    assert forall|k: int|
        0 <= k < global.len() && (forall|n: int| 0 <= n < project.len() ==> (#[trigger] project[n]).id@ != global[k].id@)
            implies m.contains(#[trigger] global[k]) by {
        lemma_not_overridden_keeps(global, project, k);
        let no = not_overridden(global, project);
        let i = choose|i: int| 0 <= i < no.len() && no[i] == global[k];
        assert(both[i] == global[k]);
        assert(both.contains(global[k]));
        assert(both.to_multiset().count(global[k]) > 0);
        assert(m.to_multiset().count(global[k]) > 0);
    }
    assert forall|k: int| 0 <= k < m.len() && !project.contains(#[trigger] m[k]) implies global.contains(m[k])
        && forall|n: int| 0 <= n < project.len() ==> (#[trigger] project[n]).id@ != m[k].id@ by {
        assert forall|n: int| 0 <= n < project.len() implies (#[trigger] project[n]).id@ != m[k].id@ by {
            if project[n].id@ == m[k].id@ {
                assert(has_id(project, m[k].id@));
            }
        }
    }
}

/// A global skill whose id no project skill has is kept.
proof fn lemma_not_overridden_keeps(global: Seq<Skill>, project: Seq<Skill>, k: int)
    requires
        0 <= k < global.len(),
        forall|m: int| 0 <= m < project.len() ==> (#[trigger] project[m]).id@ != global[k].id@,
    ensures
        not_overridden(global, project).contains(global[k]),
    decreases global.len(),
{
    let g0 = global.drop_last();
    let r = not_overridden(global, project);
    if k == global.len() - 1 {
        assert(!has_id(project, global[k].id@));
        assert(r[r.len() - 1] == global[k]);
    } else {
        assert(global[k] == g0[k]);
        lemma_not_overridden_keeps(g0, project, k);
        let p = not_overridden(g0, project);
        let i = choose|i: int| 0 <= i < p.len() && p[i] == g0[k];
        assert(r[i] == p[i]);
    }
}

proof fn lemma_not_overridden(global: Seq<Skill>, project: Seq<Skill>)
    ensures
        forall|k: int|
            0 <= k < not_overridden(global, project).len() ==> global.contains(
                #[trigger] not_overridden(global, project)[k],
            ) && !has_id(project, not_overridden(global, project)[k].id@),
    decreases global.len(),
{
    if global.len() > 0 {
        let g0 = global.drop_last();
        lemma_not_overridden(g0, project);
        let r = not_overridden(global, project);
        let p = not_overridden(g0, project);
        assert forall|k: int| 0 <= k < r.len() implies global.contains(#[trigger] r[k]) && !has_id(project, r[k].id@) by {
            if k < p.len() {
                assert(r[k] == p[k]);
                let i = choose|i: int| 0 <= i < g0.len() && g0[i] == p[k];
                assert(global[i] == g0[i]);
            } else {
                assert(r[k] == global[global.len() - 1]);
            }
        }
    }
}

/// The first skill of the list with the given id.
pub open spec fn skill_with_id(s: Seq<Skill>, id: Seq<char>) -> Option<Skill>
    decreases s.len(),
{
    if s.len() == 0 {
        None
    } else if s[0].id@ == id {
        Some(s[0])
    } else {
        skill_with_id(s.drop_first(), id)
    }
}

/// The first skill of the list with the given id.
pub fn find<'a>(skills: &'a [Skill], id: &str) -> (r: Option<&'a Skill>)
    ensures
        r matches Some(s) ==> skill_with_id(skills@, id@) == Some(*s),
        r is None ==> skill_with_id(skills@, id@) is None,
{
    let mut k: usize = 0;
    assert(skills@.skip(0) =~= skills@);
    while k < skills.len()
        invariant
            0 <= k <= skills@.len(),
            skill_with_id(skills@, id@) == skill_with_id(skills@.skip(k as int), id@),
        decreases skills@.len() - k,
    {
        assert(skills@.skip(k as int)[0] == skills@[k as int]);
        if str_eq(skills[k].id.as_str(), id) {
            return Some(&skills[k]);
        }
        assert(skills@.skip(k as int).drop_first() =~= skills@.skip(k + 1));
        k += 1;
    }
    None
}

// ---------------------------------------------------------------------------
// Running script-based skills
// ---------------------------------------------------------------------------

/// The index of the first `\n` in `bytes`, or its length.
pub open spec fn first_line_end(bytes: Seq<u8>) -> int
    decreases bytes.len(),
{
    if bytes.len() == 0 {
        0
    } else if bytes[0] == 10u8 {
        0
    } else {
        1 + first_line_end(bytes.drop_first())
    }
}

/// The interpreter named by the `#!` line of a script: the last word when
/// the line goes through `/env`, else the file name of the first word.
pub open spec fn shebang_of(bytes: Seq<u8>) -> Option<Seq<char>> {
    match utf8_decode(bytes.take(first_line_end(bytes))) {
        None => None,
        Some(line) => {
            let t = trim_seq(line);
            if !has_prefix(t, seq!['#', '!']) {
                None
            } else {
                let s = trim_seq(t.skip(2));
                let ws = words(s);
                if s.len() == 0 || ws.len() == 0 {
                    None
                } else if contains_seq(s, seq!['/', 'e', 'n', 'v']) {
                    Some(ws.last())
                } else {
                    Some(split_char(ws[0], '/').last())
                }
            }
        },
    }
}

/// Reads the interpreter from a script's `#!` line, e.g. `bash` for
/// `#!/bin/bash` or `#!/usr/bin/env bash`.
pub fn read_shebang_interpreter(bytes: &Vec<u8>) -> (r: Option<String>)
    ensures
        r matches Some(s) ==> shebang_of(bytes@) == Some(s@),
        r is None ==> shebang_of(bytes@) is None,
{
    let n = bytes.len();
    let mut line: Vec<u8> = Vec::new();
    let mut k: usize = 0;
    assert(bytes@.subrange(0, n as int) =~= bytes@);
    while k < n && bytes[k] != 10u8
        invariant
            n == bytes@.len(),
            0 <= k <= n,
            line@ == bytes@.take(k as int),
            first_line_end(bytes@) == k + first_line_end(bytes@.subrange(k as int, n as int)),
        decreases n - k,
    {
        assert(bytes@.subrange(k as int, n as int).drop_first() =~= bytes@.subrange(k + 1, n as int));
        line.push(bytes[k]);
        assert(bytes@.take(k + 1) =~= bytes@.take(k as int).push(bytes@[k as int]));
        k += 1;
    }
    proof {
        if k == 0 {
            assert(bytes@.subrange(0, n as int) =~= bytes@);
        }
    }
    let decoded = match decode_utf8(line.as_slice()) {
        Some(d) => d,
        None => return None,
    };
    let t = trim(decoded.as_str());
    let tv = chars_of(t.as_str());
    if !(tv.len() >= 2 && tv[0] == '#' && tv[1] == '!') {
        proof {
            if has_prefix(t@, seq!['#', '!']) {
                assert(t@.subrange(0, 2)[0] == t@[0] && t@.subrange(0, 2)[1] == t@[1]);
            }
        }
        return None;
    }
    assert(tv@.subrange(0, 2) =~= seq!['#', '!']);
    let after = string_from_range(&tv, 2, tv.len());
    assert(after@ =~= t@.skip(2));
    let s = trim(after.as_str());
    let ws = split_words(s.as_str());
    assert(string_views(ws@).len() == ws@.len());
    if s.as_str().is_empty() || ws.len() == 0 {
        return None;
    }
    let env = vec!['/', 'e', 'n', 'v'];
    let sv = chars_of(s.as_str());
    assert(env@ =~= seq!['/', 'e', 'n', 'v']);
    if crate::text::contains_exec(&sv, &env) {
        let last = ws.len() - 1;
        assert(string_views(ws@)[last as int] == ws@[last as int]@);
        Some(owned(ws[last].as_str()))
    } else {
        assert(string_views(ws@)[0] == ws@[0]@);
        let first = chars_of(ws[0].as_str());
        let pieces = split_chars(&first, '/');
        proof {
            lemma_split_nonempty(first@, '/');
        }
        let last = pieces.len() - 1;
        let piece = string_from_range(&pieces[last], 0, pieces[last].len());
        assert(pieces[last as int]@.subrange(0, pieces[last as int]@.len() as int) =~= pieces[last as int]@);
        Some(piece)
    }
}

/// A claw that runs a script-based skill.
pub struct SkillClaw {
    pub skill: Skill,
}

impl SkillClaw {
    /// A claw running the given skill.
    pub fn new(skill: Skill) -> (c: SkillClaw)
        ensures
            c.skill == skill,
    {
        SkillClaw { skill }
    }

    /// Checks that the skill can run with these arguments: it must have a
    /// script, and no argument may be blocked by the Defender. Returns the
    /// main script.
    pub fn check_run(&self, args: &ClawArgs, ctx: &Ctx) -> (r: Result<String, SkillRunError>)
        ensures
            self.skill.scripts@.len() == 0 <==> r == Err::<String, SkillRunError>(SkillRunError::NoScripts),
            r matches Ok(p) ==> p@ == self.skill.scripts@[0]@ && forall|k: int|
                0 <= k < args.positionals@.len() ==> guarded(ctx.no_defender, text_scan(
                    #[trigger] args.positionals@[k]@,
                )).action != Action::Block,
            r matches Err(SkillRunError::Blocked(rep)) ==> self.skill.scripts@.len() > 0 && exists|k: int|
                0 <= k < args.positionals@.len() && rep@ == guarded(ctx.no_defender, text_scan(
                    #[trigger] args.positionals@[k]@,
                )) && rep.action == Action::Block && forall|j: int|
                    0 <= j < k ==> guarded(ctx.no_defender, text_scan(#[trigger] args.positionals@[j]@)).action
                        != Action::Block,
    {
        let script = match self.skill.main_script() {
            Some(s) => owned(s),
            None => return Err(SkillRunError::NoScripts),
        };
        let mut k: usize = 0;
        while k < args.positionals.len()
            invariant
                0 <= k <= args.positionals@.len(),
                self.skill.scripts@.len() > 0,
                script@ == self.skill.scripts@[0]@,
                forall|j: int|
                    0 <= j < k ==> guarded(ctx.no_defender, text_scan(#[trigger] args.positionals@[j]@)).action
                        != Action::Block,
            decreases args.positionals@.len() - k,
        {
            let report = ctx.guard_text(args.positionals[k].as_str());
            if report.action == Action::Block {
                assert(report@ == guarded(ctx.no_defender, text_scan(args.positionals@[k as int]@)));
                return Err(SkillRunError::Blocked(report));
            }
            k += 1;
        }
        Ok(script)
    }
}

impl Claw for SkillClaw {
    fn name(&self) -> (r: &'static str)
        ensures
            r@ == "skill-run"@,
    {
        "skill-run"
    }

    fn desc(&self) -> (r: &'static str)
        ensures
            r@ == "Run a script-based skill"@,
    {
        "Run a script-based skill"
    }
}

/// Why a skill could not be run.
#[derive(Debug)]
pub enum SkillRunError {
    /// The skill ships no scripts.
    NoScripts,
    /// The Defender blocked one of the arguments (its report).
    Blocked(ScanReport),
}

/// The program to start for a script and the arguments that go before the
/// user's: the script itself when it is executable, else an interpreter
/// (the one its `#!` line names, `bash` by default) given the script.
pub fn script_command(script: &str, is_exec: bool, interpreter: Option<String>) -> (r: (String, Vec<String>))
    ensures
        is_exec ==> r.0@ == script@ && r.1@.len() == 0,
        !is_exec ==> r.1@.len() == 1 && r.1@[0]@ == script@ && r.0@ == (match interpreter {
            Some(i) => i@,
            None => "bash"@,
        }),
{
    if is_exec {
        (owned(script), Vec::new())
    } else {
        let program = match interpreter {
            Some(i) => i,
            None => owned("bash"),
        };
        let mut args: Vec<String> = Vec::new();
        args.push(owned(script));
        (program, args)
    }
}

/// The exit status of a finished script: success exactly when it succeeded.
pub fn exit_for_status(success: bool) -> (r: ExitCode)
    ensures
        success <==> r == ExitCode::Success,
{
    if success {
        ExitCode::Success
    } else {
        ExitCode::Failure
    }
}

} // verus!
