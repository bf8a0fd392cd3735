//! Hooks around tool execution and the backups they keep.
//!
//! A pre-use hook may veto a call; the Defender is one. The backup hook
//! snapshots a file before `write` or `edit` changes it, and `undo` restores
//! the most recent snapshot from the backup index (one `backup\toriginal`
//! line per snapshot).

use vstd::prelude::*;
use crate::ctx::{guarded, Ctx};
use crate::defender::{text_scan, url_scan, Action, ScanReportView};
use crate::rules::severity_label;
use crate::stream::{lines, lines_of};
use crate::text::{
    cat, decimal, decimal_seq, flat, owned, split_char, split_chars, chars_of, str_eq, string_from_range,
    string_views, trim_seq, views,
};

verus! {

/// What a pre-use hook decides.
#[derive(Debug, Clone)]
pub enum PreToolVerdict {
    /// Let the tool run, with replacement arguments (as JSON text) if any.
    Allow { modified_args: Option<String> },
    /// Refuse the call; the reason becomes the outcome's summary.
    Block { reason: String },
}

/// Where a run of pre-use hooks stands.
#[derive(Debug, Clone)]
pub enum ChainState {
    /// No hook has blocked; the arguments the hooks replaced so far (JSON
    /// text), none while the call's own arguments stand.
    Running(Option<String>),
    /// A hook blocked the call, for this reason.
    Blocked(String),
}

/// The state after the verdicts of the hooks run so far, in order: the
/// first block decides, and each replacement of the arguments stands until
/// the next one.
pub open spec fn chain_after(verdicts: Seq<PreToolVerdict>) -> ChainState
    decreases verdicts.len(),
{
    if verdicts.len() == 0 {
        ChainState::Running(None)
    } else {
        match chain_after(verdicts.drop_last()) {
            ChainState::Blocked(reason) => ChainState::Blocked(reason),
            ChainState::Running(current) => match verdicts.last() {
                PreToolVerdict::Block { reason } => ChainState::Blocked(reason),
                PreToolVerdict::Allow { modified_args } => match modified_args {
                    Some(m) => ChainState::Running(Some(m)),
                    None => ChainState::Running(current),
                },
            },
        }
    }
}

impl ChainState {
    /// Before any hook ran.
    pub fn start() -> (r: ChainState)
        ensures
            r == chain_after(Seq::empty()),
    {
        ChainState::Running(None)
    }

    /// Takes the next hook's verdict.
    pub fn step(self, verdict: PreToolVerdict) -> (r: ChainState)
        ensures
            forall|vs: Seq<PreToolVerdict>| self == chain_after(vs) ==> r == chain_after(#[trigger] vs.push(verdict)),
    {
        let r = match self {
            ChainState::Blocked(reason) => ChainState::Blocked(reason),
            ChainState::Running(current) => match verdict {
                PreToolVerdict::Block { reason } => ChainState::Blocked(reason),
                PreToolVerdict::Allow { modified_args } => match modified_args {
                    Some(m) => ChainState::Running(Some(m)),
                    None => ChainState::Running(current),
                },
            },
        };
        assert forall|vs: Seq<PreToolVerdict>| self == chain_after(vs) implies r == chain_after(
            #[trigger] vs.push(verdict),
        ) by {
            assert(vs.push(verdict).drop_last() =~= vs);
        }
        r
    }

    /// Whether a hook blocked the call; the hooks after it are not run.
    pub fn is_blocked(&self) -> (b: bool)
        ensures
            b == (*self is Blocked),
    {
        match self {
            ChainState::Blocked(_) => true,
            ChainState::Running(_) => false,
        }
    }

    /// The arguments the next hook sees, when hooks replaced them: the
    /// latest replacement.
    pub fn current_args(&self) -> (r: Option<String>)
        ensures
            match *self {
                ChainState::Running(c) => r == c,
                ChainState::Blocked(_) => r is None,
            },
    {
        match self {
            ChainState::Running(c) => c.clone(),
            ChainState::Blocked(_) => None,
        }
    }
}

/// The first block wins: when hook `k` is the first to block, the run ends
/// blocked with its reason, whatever the later hooks decide.
pub proof fn lemma_first_block_wins(verdicts: Seq<PreToolVerdict>, k: int)
    requires
        0 <= k < verdicts.len(),
        verdicts[k] is Block,
        forall|j: int| 0 <= j < k ==> (#[trigger] verdicts[j]) is Allow,
    ensures
        chain_after(verdicts) == ChainState::Blocked(verdicts[k]->reason),
    decreases verdicts.len(),
{
    if verdicts.len() - 1 > k {
        lemma_first_block_wins(verdicts.drop_last(), k);
    } else {
        lemma_none_blocks(verdicts.drop_last());
    }
}

/// With no block, the run ends running with the last replacement of the
/// arguments, if any hook made one.
pub proof fn lemma_none_blocks(verdicts: Seq<PreToolVerdict>)
    requires
        forall|j: int| 0 <= j < verdicts.len() ==> (#[trigger] verdicts[j]) is Allow,
    ensures
        chain_after(verdicts) is Running,
        forall|j: int|
            0 <= j < verdicts.len() && (#[trigger] verdicts[j])->modified_args is Some && (forall|i: int|
                j < i < verdicts.len() ==> (#[trigger] verdicts[i])->modified_args is None) ==> chain_after(verdicts)
                == ChainState::Running(verdicts[j]->modified_args),
        (forall|i: int| 0 <= i < verdicts.len() ==> (#[trigger] verdicts[i])->modified_args is None) ==> chain_after(
            verdicts,
        ) == ChainState::Running(None),
    decreases verdicts.len(),
{
    if verdicts.len() > 0 {
        let u = verdicts.drop_last();
        assert forall|j: int| 0 <= j < u.len() implies (#[trigger] u[j]) is Allow by {
            assert(u[j] == verdicts[j]);
        }
        lemma_none_blocks(u);
        assert forall|j: int|
            0 <= j < verdicts.len() && (#[trigger] verdicts[j])->modified_args is Some && (forall|i: int|
                j < i < verdicts.len() ==> (#[trigger] verdicts[i])->modified_args is None) implies chain_after(
            verdicts,
        ) == ChainState::Running(verdicts[j]->modified_args) by {
            if j < verdicts.len() - 1 {
                assert(u[j] == verdicts[j]);
                assert forall|i: int| j < i < u.len() implies (#[trigger] u[i])->modified_args is None by {
                    assert(u[i] == verdicts[i]);
                }
                assert(verdicts[verdicts.len() - 1]->modified_args is None);
            }
        }
        if forall|i: int| 0 <= i < verdicts.len() ==> (#[trigger] verdicts[i])->modified_args is None {
            assert forall|i: int| 0 <= i < u.len() implies (#[trigger] u[i])->modified_args is None by {
                assert(u[i] == verdicts[i]);
            }
            assert(verdicts[verdicts.len() - 1]->modified_args is None);
        }
    }
}

/// The Defender hook: scans a call's arguments and, for `fetch`, its URL.
pub struct DefenderHook;

/// The logging hook (it reports each call after it ran).
pub struct LogHook;

/// The backup hook: snapshots files before `write` and `edit`.
pub struct BackupHook;

/// The reason a report gives for a block: `<prefix> (<severity> score <n>)`.
pub open spec fn block_reason(prefix: Seq<char>, r: ScanReportView) -> Seq<char> {
    prefix + " ("@ + severity_label(r.severity) + " score "@ + decimal_seq(r.score as nat) + ")"@
}

/// The reason a report gives for a block.
pub fn block_reason_exec(prefix: &str, report: &crate::defender::ScanReport) -> (r: String)
    ensures
        r@ == block_reason(prefix@, report@),
{
    let score = decimal(report.score as u64);
    let r = cat(&vec![prefix, " (", report.severity.label(), " score ", score.as_str(), ")"]);
    proof {
        reveal_with_fuel(flat, 7);
    }
    r
}

impl DefenderHook {
    /// The hook's name.
    pub fn name(&self) -> (r: &'static str)
        ensures
            r@ == "defender"@,
    {
        "defender"
    }

    /// Checks a call: the arguments' JSON text must not be blocked, and for
    /// `fetch` the `url` argument (when it is a string) must not be blocked
    /// by the URL scan.
    pub fn pre_tool_use(&self, tool_name: &str, args_json: &str, url: Option<&str>, ctx: &Ctx) -> (r: PreToolVerdict)
        ensures
            guarded(ctx.no_defender, text_scan(args_json@)).action == Action::Block ==> (r matches PreToolVerdict::Block {
                reason,
            } && reason@ == block_reason("Defender blocked"@, guarded(ctx.no_defender, text_scan(args_json@)))),
            guarded(ctx.no_defender, text_scan(args_json@)).action != Action::Block && tool_name@ == "fetch"@
                && url is Some && guarded(ctx.no_defender, url_scan(url->0@)).action == Action::Block ==> (r matches PreToolVerdict::Block {
                reason,
            } && reason@ == block_reason("Defender URL blocked"@, guarded(ctx.no_defender, url_scan(url->0@)))),
            r is Allow ==> guarded(ctx.no_defender, text_scan(args_json@)).action != Action::Block && (tool_name@
                == "fetch"@ && url is Some ==> guarded(ctx.no_defender, url_scan(url->0@)).action != Action::Block),
            r matches PreToolVerdict::Allow { modified_args } ==> modified_args is None,
    {
        let report = ctx.guard_text(args_json);
        if report.action == Action::Block {
            let reason = block_reason_exec("Defender blocked", &report);
            return PreToolVerdict::Block { reason };
        }
        if str_eq(tool_name, "fetch") {
            if let Some(u) = url {
                let url_report = ctx.guard_url(u);
                if url_report.action == Action::Block {
                    let reason = block_reason_exec("Defender URL blocked", &url_report);
                    return PreToolVerdict::Block { reason };
                }
            }
        }
        PreToolVerdict::Allow { modified_args: None }
    }
}

impl LogHook {
    /// The hook's name.
    pub fn name(&self) -> (r: &'static str)
        ensures
            r@ == "log"@,
    {
        "log"
    }

    /// The line logged after a call: `[hook:log] <tool> called`.
    pub fn post_line(&self, tool_name: &str) -> (r: String)
        ensures
            r@ == "[hook:log] "@ + tool_name@ + " called"@,
    {
        let r = cat(&vec!["[hook:log] ", tool_name, " called"]);
        proof {
            reveal_with_fuel(flat, 4);
        }
        r
    }
}

impl BackupHook {
    /// The hook's name.
    pub fn name(&self) -> (r: &'static str)
        ensures
            r@ == "backup"@,
    {
        "backup"
    }

    /// The file a call would change and so must be backed up first: the
    /// `path` argument of a `write` or `edit` call.
    pub fn target<'a>(&self, tool_name: &str, path_arg: Option<&'a str>) -> (r: Option<&'a str>)
        ensures
            (tool_name@ == "write"@ || tool_name@ == "edit"@) ==> r == path_arg,
            !(tool_name@ == "write"@ || tool_name@ == "edit"@) ==> r is None,
    {
        if str_eq(tool_name, "write") || str_eq(tool_name, "edit") {
            path_arg
        } else {
            None
        }
    }
}

/// The file name of a backup: the timestamp, `_` and the original's name.
pub fn backup_name(ts_millis: u64, file_name: &str) -> (r: String)
    ensures
        r@ == decimal_seq(ts_millis as nat) + seq!['_'] + file_name@,
{
    let ts = decimal(ts_millis);
    let r = cat(&vec![ts.as_str(), "_", file_name]);
    proof {
        reveal_with_fuel(flat, 4);
        reveal_strlit("_");
    }
    r
}

/// The index line recording a backup: `backup\toriginal\n`.
pub fn index_line(backup: &str, original: &str) -> (r: String)
    ensures
        r@ == backup@ + seq!['\t'] + original@ + seq!['\n'],
{
    let r = cat(&vec![backup, "\t", original, "\n"]);
    proof {
        reveal_with_fuel(flat, 5);
        reveal_strlit("\t");
        reveal_strlit("\n");
    }
    r
}

/// What the undo step found in the backup index.
#[derive(Debug)]
pub enum UndoPlan {
    /// No backup is recorded.
    Nothing,
    /// The last record does not have exactly two tab-separated fields.
    Corrupt,
    /// Restore `original` from `backup`; on success the index becomes
    /// `remaining`.
    Restore { backup: String, original: String, remaining: String },
}

/// The index of the last line whose trimmed text is not empty.
pub open spec fn last_record(ls: Seq<Seq<char>>) -> Option<int>
    decreases ls.len(),
{
    if ls.len() == 0 {
        None
    } else if trim_seq(ls.last()).len() > 0 {
        Some(ls.len() - 1)
    } else {
        last_record(ls.drop_last())
    }
}

/// The index kept after an undo: every line but those equal to the restored
/// record, each followed by a newline.
pub open spec fn remaining_index(ls: Seq<Seq<char>>, record: Seq<char>) -> Seq<char>
    decreases ls.len(),
{
    if ls.len() == 0 {
        Seq::empty()
    } else {
        let prev = remaining_index(ls.drop_last(), record);
        if ls.last() == record {
            prev
        } else {
            prev + ls.last() + seq!['\n']
        }
    }
}

/// The test for a line other than `record`.
pub open spec fn differs_from(record: Seq<char>) -> spec_fn(Seq<char>) -> bool {
    |l: Seq<char>| l != record
}

/// A line with its newline.
pub open spec fn with_newline() -> spec_fn(Seq<char>) -> Seq<char> {
    |l: Seq<char>| l.push('\n')
}

/// An undo keeps every other record: the remaining index is exactly the
/// index's lines that differ from the restored record, in their order,
/// each followed by a newline.
pub proof fn lemma_undo_keeps_other_lines(ls: Seq<Seq<char>>, record: Seq<char>)
    ensures
        remaining_index(ls, record) == ls.filter(differs_from(record)).map_values(with_newline()).flatten(),
    decreases ls.len(),
{
    reveal(Seq::filter);
    if ls.len() > 0 {
        let u = ls.drop_last();
        lemma_undo_keeps_other_lines(u, record);
        let f0 = u.filter(differs_from(record));
        let m0 = f0.map_values(with_newline());
        m0.lemma_flatten_and_flatten_alt_are_equivalent();
        if ls.last() != record {
            let line = ls.last().push('\n');
            assert(ls.filter(differs_from(record)) == f0.push(ls.last()));
            assert(ls.filter(differs_from(record)).map_values(with_newline()) =~= m0.push(line));
            m0.lemma_flatten_push(line);
            assert(remaining_index(u, record) + ls.last() + seq!['\n'] =~= remaining_index(u, record) + line);
        } else {
            assert(ls.filter(differs_from(record)) == f0);
        }
    }
}

/// Reads the backup index: the last non-blank line must be `backup\toriginal`.
pub fn plan_undo(index: &str) -> (r: UndoPlan)
    ensures
        last_record(lines_of(index@)) is None <==> r is Nothing,
        r is Corrupt <==> (last_record(lines_of(index@)) matches Some(i) && split_char(lines_of(index@)[i], '\t').len() != 2),
        r matches UndoPlan::Restore { backup, original, remaining } ==> last_record(lines_of(index@)) matches Some(i)
            && split_char(lines_of(index@)[i], '\t') == seq![backup@, original@] && remaining@ == remaining_index(
            lines_of(index@),
            lines_of(index@)[i],
        ),
{
    let ls = lines(index);
    let mut k = ls.len();
    let mut found = false;
    assert(lines_of(index@).take(k as int) =~= lines_of(index@));
    while k > 0 && !found
        invariant
            k <= ls@.len(),
            string_views(ls@) == lines_of(index@),
            last_record(lines_of(index@)) == last_record(lines_of(index@).take(k as int)),
            found ==> k > 0 && trim_seq(lines_of(index@)[k - 1]).len() > 0,
        decreases k + if found { 0int } else { 1int },
    {
        let t = crate::text::trim(ls[k - 1].as_str());
        assert(lines_of(index@).take(k as int).last() == ls@[k - 1]@);
        if !t.as_str().is_empty() {
            found = true;
        } else {
            assert(lines_of(index@).take(k as int).drop_last() =~= lines_of(index@).take(k - 1));
            k -= 1;
        }
    }
    proof {
        if found {
            assert(lines_of(index@).take(k as int).last() == lines_of(index@)[k - 1]);
        }
    }
    if k == 0 {
        assert(lines_of(index@).take(0) =~= Seq::<Seq<char>>::empty());
        return UndoPlan::Nothing;
    }
    let i = k - 1;
    assert(last_record(lines_of(index@)) == Some(i as int));
    let record = &ls[i];
    let rv = chars_of(record.as_str());
    let parts = split_chars(&rv, '\t');
    if parts.len() != 2 {
        return UndoPlan::Corrupt;
    }
    let backup = string_from_range(&parts[0], 0, parts[0].len());
    let original = string_from_range(&parts[1], 0, parts[1].len());
    assert(parts@[0]@.subrange(0, parts@[0]@.len() as int) =~= parts@[0]@);
    assert(parts@[1]@.subrange(0, parts@[1]@.len() as int) =~= parts@[1]@);
    assert(views(parts@) =~= seq![backup@, original@]);
    let mut remaining = String::new();
    let mut j: usize = 0;
    while j < ls.len()
        invariant
            0 <= j <= ls@.len(),
            string_views(ls@) == lines_of(index@),
            i < ls@.len(),
            remaining@ == remaining_index(lines_of(index@).take(j as int), lines_of(index@)[i as int]),
        decreases ls@.len() - j,
    {
        assert(lines_of(index@).take(j + 1).drop_last() =~= lines_of(index@).take(j as int));
        assert(lines_of(index@).take(j + 1).last() == ls@[j as int]@);
        assert(string_views(ls@)[i as int] == ls@[i as int]@);
        if !str_eq(ls[j].as_str(), ls[i].as_str()) {
            crate::text::push_str(&mut remaining, ls[j].as_str());
            crate::text::push_str(&mut remaining, "\n");
            proof {
                reveal_strlit("\n");
            }
        }
        j += 1;
    }
    assert(lines_of(index@).take(j as int) =~= lines_of(index@));
    UndoPlan::Restore { backup, original, remaining }
}

/// The message after a successful restore.
pub fn restored_message(original: &str) -> (r: String)
    ensures
        r@ == "restored "@ + original@ + " from backup"@,
{
    let r = cat(&vec!["restored ", original, " from backup"]);
    proof {
        reveal_with_fuel(flat, 4);
    }
    r
}

} // verus!
