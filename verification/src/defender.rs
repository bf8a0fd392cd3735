//! The Defender security kernel: scans text and URLs against the rule table
//! and reduces the hits to a report.
//!
//! The score of a report is the maximum score across its findings (scores do
//! not add up). Thresholds: 90 and above blocks as critical, 70 and above
//! blocks as high, 40 and above warns, anything lower is allowed.

use vstd::prelude::*;
use crate::pattern::{ci_search, search_ci};
use crate::rules::{
    all_rules, allowed_domain_list, allowed_domains, command_injection, points, prompt_injection_critical,
    prompt_injection_warning, severity_for, group, rule_table, Module, Rule, Severity,
};
use crate::text::{
    ascii_lower, ascii_lowercase, chars_of, contains_seq, find_first, find_from_exec, has_suffix,
    is_white, owned, str_eq, str_ends_with, concat, string_from_range, trim_bounds, trim_seq,
};

verus! {

/// What the engine recommends doing with the scanned input.
#[derive(Debug, Clone, Copy, PartialEq, Eq, Structural)]
pub enum Action {
    Allow,
    Warn,
    Block,
}

/// The label printed for an action.
pub open spec fn action_label(a: Action) -> Seq<char> {
    match a {
        Action::Allow => "allow"@,
        Action::Warn => "warn"@,
        Action::Block => "block"@,
    }
}

impl Action {
    /// The label printed for this action.
    pub fn label(self) -> (r: &'static str)
        ensures
            r@ == action_label(self),
    {
        match self {
            Action::Allow => "allow",
            Action::Warn => "warn",
            Action::Block => "block",
        }
    }
}

/// The action recommended for a severity.
pub open spec fn action_for(s: Severity) -> Action {
    match s {
        Severity::Critical | Severity::High => Action::Block,
        Severity::Warning => Action::Warn,
        Severity::Clean => Action::Allow,
    }
}

/// A single detection hit.
#[derive(Debug, Clone)]
pub struct Finding {
    pub module: Module,
    pub severity: Severity,
    /// The pattern that fired.
    pub pattern: String,
    /// The piece of the input that matched.
    pub matched: String,
}

/// A finding, with its strings taken as character sequences.
pub struct FindingView {
    pub module: Module,
    pub severity: Severity,
    pub pattern: Seq<char>,
    pub matched: Seq<char>,
}

impl View for Finding {
    type V = FindingView;

    open spec fn view(&self) -> FindingView {
        FindingView {
            module: self.module,
            severity: self.severity,
            pattern: self.pattern@,
            matched: self.matched@,
        }
    }
}

/// The aggregated result of a scan.
#[derive(Debug, Clone)]
pub struct ScanReport {
    /// Every individual finding, in rule order.
    pub findings: Vec<Finding>,
    /// Aggregate severity (the bucket of the score).
    pub severity: Severity,
    /// The maximum score across the findings.
    pub score: u32,
    /// Recommended action.
    pub action: Action,
}

/// A report, with its findings taken by their views.
pub struct ScanReportView {
    pub findings: Seq<FindingView>,
    pub severity: Severity,
    pub score: u32,
    pub action: Action,
}

/// The views of a sequence of findings.
pub open spec fn findings_view(fs: Seq<Finding>) -> Seq<FindingView> {
    fs.map_values(|f: Finding| f@)
}

impl View for ScanReport {
    type V = ScanReportView;

    open spec fn view(&self) -> ScanReportView {
        ScanReportView {
            findings: findings_view(self.findings@),
            severity: self.severity,
            score: self.score,
            action: self.action,
        }
    }
}

/// The largest score among the findings, 0 when there are none.
pub open spec fn max_points(fs: Seq<FindingView>) -> u32
    decreases fs.len(),
{
    if fs.len() == 0 {
        0
    } else {
        let rest = max_points(fs.drop_last());
        let p = points(fs.last().severity);
        if p > rest {
            p
        } else {
            rest
        }
    }
}

/// The report made of a list of findings.
pub open spec fn report_of(fs: Seq<FindingView>) -> ScanReportView {
    ScanReportView {
        findings: fs,
        severity: severity_for(max_points(fs)),
        score: max_points(fs),
        action: action_for(severity_for(max_points(fs))),
    }
}

/// The report with no findings.
pub open spec fn clean_report() -> ScanReportView {
    report_of(Seq::empty())
}

/// The findings that a list of rules produces on an input: one per rule
/// whose pattern compiles and matches, in rule order.
pub open spec fn findings_for(rules: Seq<Rule>, input: Seq<char>) -> Seq<FindingView>
    decreases rules.len(),
{
    if rules.len() == 0 {
        Seq::empty()
    } else {
        let prev = findings_for(rules.drop_last(), input);
        let r = rules.last();
        match ci_search(r.pattern@, input) {
            Ok(Some(m)) => prev.push(
                FindingView { module: r.module, severity: r.severity, pattern: r.pattern@, matched: m },
            ),
            _ => prev,
        }
    }
}

/// The rules of a list whose module is (or is not) the SSRF module, in order.
pub open spec fn rules_where_ssrf(rules: Seq<Rule>, ssrf: bool) -> Seq<Rule>
    decreases rules.len(),
{
    if rules.len() == 0 {
        Seq::empty()
    } else {
        let prev = rules_where_ssrf(rules.drop_last(), ssrf);
        if (rules.last().module == Module::Ssrf) == ssrf {
            prev.push(rules.last())
        } else {
            prev
        }
    }
}

/// The rules used to scan text: every rule but the SSRF ones.
pub open spec fn text_rule_table() -> Seq<Rule> {
    rules_where_ssrf(rule_table(), false)
}

/// The rules used to scan URLs: the SSRF rules.
pub open spec fn ssrf_rule_table() -> Seq<Rule> {
    rules_where_ssrf(rule_table(), true)
}

/// The report `scan_text` gives for an input.
pub open spec fn text_scan(input: Seq<char>) -> ScanReportView {
    report_of(findings_for(text_rule_table(), input))
}

// ---------------------------------------------------------------------------
// URL allow-list
// ---------------------------------------------------------------------------

/// The characters that end the host part of a URL.
pub open spec fn is_host_end(c: char) -> bool {
    c == '/' || c == ':' || c == '?' || c == '#'
}

/// The index of the first host-ending character of `s`, or its length.
pub open spec fn host_end(s: Seq<char>) -> int
    decreases s.len(),
{
    if s.len() == 0 {
        0
    } else if is_host_end(s[0]) {
        0
    } else {
        1 + host_end(s.drop_first())
    }
}

/// The text after the first `://`, or the whole URL when there is none.
pub open spec fn after_scheme(url: Seq<char>) -> Seq<char> {
    match find_first(url, seq![':', '/', '/']) {
        Some(i) => url.subrange(i + 3, url.len() as int),
        None => url,
    }
}

/// The host of a URL: the text after the scheme up to the first `/`, `:`,
/// `?` or `#`, trimmed; none when that is empty.
pub open spec fn url_host(url: Seq<char>) -> Option<Seq<char>> {
    let rest = after_scheme(url);
    let h = trim_seq(rest.take(host_end(rest)));
    if h.len() == 0 {
        None
    } else {
        Some(h)
    }
}

/// The host (lower-cased) is an allowed domain or a subdomain of one.
pub open spec fn host_allowed(host: Seq<char>) -> bool {
    exists|i: int|
        0 <= i < allowed_domains().len() && {
            let d = ascii_lower(#[trigger] allowed_domains()[i]@);
            ascii_lower(host) == d || has_suffix(ascii_lower(host), seq!['.'] + d)
        }
}

/// The URL's host is on the allow-list.
pub open spec fn url_allowed(url: Seq<char>) -> bool {
    match url_host(url) {
        Some(h) => host_allowed(h),
        None => false,
    }
}

/// The report `scan_url` gives for a URL.
pub open spec fn url_scan(url: Seq<char>) -> ScanReportView {
    if url_allowed(url) {
        clean_report()
    } else {
        report_of(findings_for(ssrf_rule_table(), url))
    }
}

impl ScanReport {
    /// A clean report with no findings.
    pub fn clean() -> (r: ScanReport)
        ensures
            r@ == clean_report(),
    {
        let r = ScanReport {
            findings: Vec::new(),
            severity: Severity::Clean,
            score: 0,
            action: Action::Allow,
        };
        assert(findings_view(r.findings@) =~= Seq::<FindingView>::empty());
        r
    }

    /// True when the input passed cleanly.
    pub fn is_clean(&self) -> (b: bool)
        ensures
            b == (self.action == Action::Allow),
    {
        self.action == Action::Allow
    }
}

/// Reduces raw findings to a report: the maximum score, its severity and
/// the recommended action.
pub fn finalize(findings: Vec<Finding>) -> (r: ScanReport)
    ensures
        r@ == report_of(findings_view(findings@)),
{
    let mut max_score: u32 = 0;
    let mut i: usize = 0;
    while i < findings.len()
        invariant
            0 <= i <= findings@.len(),
            max_score == max_points(findings_view(findings@.take(i as int))),
        decreases findings@.len() - i,
    {
        let p = findings[i].severity.score();
        assert(findings_view(findings@.take(i + 1)).drop_last() =~= findings_view(findings@.take(i as int)));
        if p > max_score {
            max_score = p;
        }
        i += 1;
    }
    assert(findings@.take(findings@.len() as int) =~= findings@);
    let severity = Severity::from_score(max_score);
    let action = match severity {
        Severity::Critical | Severity::High => Action::Block,
        Severity::Warning => Action::Warn,
        Severity::Clean => Action::Allow,
    };
    ScanReport { findings, severity, score: max_score, action }
}

/// The rules of the table whose module is (or is not) the SSRF module.
fn rules_by_ssrf(ssrf: bool) -> (r: Vec<Rule>)
    ensures
        r@ == rules_where_ssrf(rule_table(), ssrf),
{
    let all = all_rules();
    let mut out: Vec<Rule> = Vec::new();
    let mut i: usize = 0;
    while i < all.len()
        invariant
            0 <= i <= all@.len(),
            all@ == rule_table(),
            out@ == rules_where_ssrf(all@.take(i as int), ssrf),
        decreases all@.len() - i,
    {
        let rule = all[i];
        assert(all@.take(i + 1).drop_last() =~= all@.take(i as int));
        let is_ssrf = match rule.module {
            Module::Ssrf => true,
            _ => false,
        };
        if is_ssrf == ssrf {
            out.push(rule);
        }
        i += 1;
    }
    assert(all@.take(all@.len() as int) =~= all@);
    out
}

/// Runs each rule on the input and collects a finding for each match.
fn collect_findings(rules: &Vec<Rule>, input: &str) -> (r: Vec<Finding>)
    ensures
        findings_view(r@) == findings_for(rules@, input@),
{
    let mut findings: Vec<Finding> = Vec::new();
    let mut i: usize = 0;
    while i < rules.len()
        invariant
            0 <= i <= rules@.len(),
            findings_view(findings@) == findings_for(rules@.take(i as int), input@),
        decreases rules@.len() - i,
    {
        let rule = rules[i];
        assert(rules@.take(i + 1).drop_last() =~= rules@.take(i as int));
        let ghost before = findings@;
        match search_ci(rule.pattern, input) {
            Ok(Some(m)) => {
                findings.push(
                    Finding { module: rule.module, severity: rule.severity, pattern: owned(rule.pattern), matched: m },
                );
                assert(findings_view(findings@) =~= findings_view(before).push(findings@.last()@));
            },
            _ => {},
        }
        i += 1;
    }
    assert(rules@.take(rules@.len() as int) =~= rules@);
    findings
}

/// Scans arbitrary text against every rule but the URL-only SSRF rules.
pub fn scan_text(input: &str) -> (r: ScanReport)
    ensures
        r@ == text_scan(input@),
{
    let rules = rules_by_ssrf(false);
    finalize(collect_findings(&rules, input))
}

/// Scans a URL for SSRF targets; a URL whose host is on the allow-list is
/// clean without any rule being run.
pub fn scan_url(url: &str) -> (r: ScanReport)
    ensures
        r@ == url_scan(url@),
{
    if is_allowed_domain(url) {
        return ScanReport::clean();
    }
    let rules = rules_by_ssrf(true);
    finalize(collect_findings(&rules, url))
}

/// The index of the first host-ending character of `v[from..]`, relative to
/// `from`.
fn host_end_exec(v: &Vec<char>, from: usize) -> (r: usize)
    requires
        from <= v@.len(),
    ensures
        from + r <= v@.len(),
        r == host_end(v@.subrange(from as int, v@.len() as int)),
{
    let n = v.len();
    let mut k: usize = from;
    while k < n && !(v[k] == '/' || v[k] == ':' || v[k] == '?' || v[k] == '#')
        invariant
            n == v@.len(),
            from <= k <= n,
            host_end(v@.subrange(from as int, n as int)) == (k - from) + host_end(
                v@.subrange(k as int, n as int),
            ),
        decreases n - k,
    {
        assert(v@.subrange(k as int, n as int).drop_first() =~= v@.subrange(k + 1, n as int));
        k += 1;
    }
    k - from
}

/// The host of a URL: the text after the scheme up to the first `/`, `:`,
/// `?` or `#`, trimmed; none when that is empty.
fn extract_host(url: &str) -> (r: Option<String>)
    ensures
        r matches Some(h) ==> url_host(url@) == Some(h@),
        r is None ==> url_host(url@) is None,
{
    let v = chars_of(url);
    let sep = vec![':', '/', '/'];
    assert(sep@ =~= seq![':', '/', '/']);
    proof {
        crate::text::lemma_find_from(v@, sep@, 0);
    }
    let n = v.len();
    let start = match find_from_exec(&v, &sep, 0) {
        Some(i) => {
            assert(crate::text::occurs_at(v@, sep@, i as int));
            i + 3
        },
        None => 0,
    };
    let len = host_end_exec(&v, start);
    let end = start + len;
    let ghost rest = after_scheme(url@);
    assert(rest =~= v@.subrange(start as int, v@.len() as int));
    assert(rest.take(host_end(rest)) =~= v@.subrange(start as int, end as int));
    let piece = string_from_range(&v, start, end);
    let pv = chars_of(piece.as_str());
    let (a, b) = trim_bounds(&pv);
    if a == b {
        None
    } else {
        Some(string_from_range(&pv, a, b))
    }
}

/// The host is an allowed domain or a subdomain of one (anchored, so a
/// domain elsewhere in the URL does not count).
fn is_allowed_domain(url: &str) -> (b: bool)
    ensures
        b == url_allowed(url@),
{
    let host = match extract_host(url) {
        Some(h) => ascii_lowercase(h.as_str()),
        None => return false,
    };
    let domains = allowed_domain_list();
    let mut i: usize = 0;
    while i < domains.len()
        invariant
            0 <= i <= domains@.len(),
            domains@ == allowed_domains(),
            url_host(url@) is Some,
            host@ == ascii_lower(url_host(url@)->0),
            forall|j: int|
                0 <= j < i ==> {
                    let d = ascii_lower(#[trigger] allowed_domains()[j]@);
                    !(host@ == d || has_suffix(host@, seq!['.'] + d))
                },
        decreases domains@.len() - i,
    {
        let allowed = ascii_lowercase(domains[i]);
        let dotted = concat(".", allowed.as_str());
        proof {
            reveal_strlit(".");
        }
        assert(dotted@ =~= seq!['.'] + allowed@);
        if str_eq(host.as_str(), allowed.as_str()) || str_ends_with(host.as_str(), dotted.as_str()) {
            return true;
        }
        i += 1;
    }
    false
}

// ---------------------------------------------------------------------------
// Laws
// ---------------------------------------------------------------------------

/// The score of a report is the largest score among its findings: every
/// finding scores at most that much, and when there are findings one of them
/// scores exactly that.
pub proof fn lemma_score_is_max(fs: Seq<FindingView>)
    ensures
        forall|i: int| 0 <= i < fs.len() ==> points(#[trigger] fs[i].severity) <= max_points(fs),
        fs.len() > 0 ==> exists|i: int| 0 <= i < fs.len() && points(#[trigger] fs[i].severity) == max_points(fs),
        fs.len() == 0 ==> max_points(fs) == 0,
    decreases fs.len(),
{
    if fs.len() > 0 {
        let rest = fs.drop_last();
        lemma_score_is_max(rest);
        assert forall|i: int| 0 <= i < fs.len() implies points(#[trigger] fs[i].severity) <= max_points(fs) by {
            if i < fs.len() - 1 {
                assert(fs[i] == rest[i]);
            }
        }
        if points(fs.last().severity) > max_points(rest) {
            assert(points(fs[fs.len() - 1].severity) == max_points(fs));
        } else if rest.len() == 0 {
            assert(points(fs[0].severity) == max_points(fs));
        } else {
            let k = choose|k: int| 0 <= k < rest.len() && points(#[trigger] rest[k].severity) == max_points(rest);
            assert(fs[k] == rest[k]);
        }
    }
}

/// A report blocks exactly when its score is 70 or more, warns when it is
/// between 40 and 69, and allows otherwise.
pub proof fn lemma_action_thresholds(fs: Seq<FindingView>)
    ensures
        (report_of(fs).action == Action::Block) <==> max_points(fs) >= 70,
        (report_of(fs).action == Action::Warn) <==> (40 <= max_points(fs) < 70),
        (report_of(fs).action == Action::Allow) <==> max_points(fs) < 40,
{
}

/// Every finding a rule list yields comes from one of its rules and carries
/// that rule's module, severity and pattern.
pub proof fn lemma_findings_from_rules(rules: Seq<Rule>, input: Seq<char>)
    ensures
        findings_for(rules, input).len() <= rules.len(),
        forall|i: int|
            0 <= i < findings_for(rules, input).len() ==> exists|j: int|
                0 <= j < rules.len() && #[trigger] findings_for(rules, input)[i].severity == rules[j].severity
                    && findings_for(rules, input)[i].module == rules[j].module
                    && findings_for(rules, input)[i].pattern == rules[j].pattern@,
    decreases rules.len(),
{
    if rules.len() > 0 {
        let prev = rules.drop_last();
        lemma_findings_from_rules(prev, input);
        let fs = findings_for(rules, input);
        let ps = findings_for(prev, input);
        assert forall|i: int| 0 <= i < fs.len() implies exists|j: int|
            0 <= j < rules.len() && #[trigger] fs[i].severity == rules[j].severity && fs[i].module == rules[j].module
                && fs[i].pattern == rules[j].pattern@ by {
            if i < ps.len() {
                assert(fs[i] == ps[i]);
                let j = choose|j: int|
                    0 <= j < prev.len() && #[trigger] ps[i].severity == prev[j].severity && ps[i].module == prev[j].module
                        && ps[i].pattern == prev[j].pattern@;
                assert(rules[j] == prev[j]);
            } else {
                assert(fs[i].severity == rules[rules.len() - 1].severity);
            }
        }
    }
}

/// No rule of the table has the clean severity.
proof fn lemma_table_never_clean()
    ensures
        forall|i: int| 0 <= i < rule_table().len() ==> #[trigger] rule_table()[i].severity != Severity::Clean,
{
    let pic = group(crate::rules::prompt_injection_critical(), Module::PromptInjection, Severity::Critical);
    let piw = group(crate::rules::prompt_injection_warning(), Module::PromptInjection, Severity::Warning);
    let cmd = group(crate::rules::command_injection(), Module::CommandInjection, Severity::Critical);
    let cred = group(crate::rules::credential_exfil(), Module::CredentialExfil, Severity::Critical);
    let ssrf = group(crate::rules::ssrf_patterns(), Module::Ssrf, Severity::Critical);
    let path = group(crate::rules::path_traversal(), Module::PathTraversal, Severity::High);
    let sens = group(crate::rules::sensitive_files(), Module::SensitiveFiles, Severity::Warning);
    let t = rule_table();
    assert forall|i: int| 0 <= i < t.len() implies #[trigger] t[i].severity != Severity::Clean by {
        let a = pic.len();
        let b = a + piw.len();
        let c = b + cmd.len();
        let d = c + cred.len();
        let e = d + ssrf.len();
        let f = e + path.len();
        if i < a {
            assert(t[i] == pic[i]);
        } else if i < b {
            assert(t[i] == piw[i - a]);
        } else if i < c {
            assert(t[i] == cmd[i - b]);
        } else if i < d {
            assert(t[i] == cred[i - c]);
        } else if i < e {
            assert(t[i] == ssrf[i - d]);
        } else if i < f {
            assert(t[i] == path[i - e]);
        } else {
            assert(t[i] == sens[i - f]);
        }
    }
}

/// Filtering by module keeps only rules of the list.
proof fn lemma_filtered_from(rules: Seq<Rule>, ssrf: bool)
    ensures
        forall|i: int|
            0 <= i < rules_where_ssrf(rules, ssrf).len() ==> exists|j: int|
                0 <= j < rules.len() && #[trigger] rules_where_ssrf(rules, ssrf)[i] == rules[j],
    decreases rules.len(),
{
    if rules.len() > 0 {
        let prev = rules.drop_last();
        lemma_filtered_from(prev, ssrf);
        let out = rules_where_ssrf(rules, ssrf);
        let po = rules_where_ssrf(prev, ssrf);
        assert forall|i: int| 0 <= i < out.len() implies exists|j: int|
            0 <= j < rules.len() && #[trigger] out[i] == rules[j] by {
            if i < po.len() {
                let j = choose|j: int| 0 <= j < prev.len() && #[trigger] po[i] == prev[j];
                assert(out[i] == po[i]);
                assert(rules[j] == prev[j]);
            } else {
                assert(out[i] == rules[rules.len() - 1]);
            }
        }
    }
}

/// A rule of the kind kept by the filter is kept.
proof fn lemma_filter_keeps(rules: Seq<Rule>, ssrf: bool, j: int)
    requires
        0 <= j < rules.len(),
        (rules[j].module == Module::Ssrf) == ssrf,
    ensures
        exists|i: int| 0 <= i < rules_where_ssrf(rules, ssrf).len() && #[trigger] rules_where_ssrf(rules, ssrf)[i] == rules[j],
    decreases rules.len(),
{
    let prev = rules.drop_last();
    let out = rules_where_ssrf(rules, ssrf);
    if j == rules.len() - 1 {
        assert(out[out.len() - 1] == rules[j]);
    } else {
        lemma_filter_keeps(prev, ssrf, j);
        let i = choose|i: int| 0 <= i < rules_where_ssrf(prev, ssrf).len() && #[trigger] rules_where_ssrf(prev, ssrf)[i]
            == prev[j];
        assert(out[i] == rules_where_ssrf(prev, ssrf)[i]);
    }
}

/// A rule whose pattern is found in the input yields a finding of its own.
proof fn lemma_rule_fires(rules: Seq<Rule>, input: Seq<char>, j: int)
    requires
        0 <= j < rules.len(),
        ci_search(rules[j].pattern@, input) matches Ok(Some(_)),
    ensures
        exists|i: int|
            0 <= i < findings_for(rules, input).len() && (#[trigger] findings_for(rules, input)[i]).module == rules[j].module
                && findings_for(rules, input)[i].severity == rules[j].severity && findings_for(rules, input)[i].pattern
                == rules[j].pattern@,
    decreases rules.len(),
{
    let prev = rules.drop_last();
    let fs = findings_for(rules, input);
    let ps = findings_for(prev, input);
    if j == rules.len() - 1 {
        assert(fs[fs.len() - 1].pattern == rules[j].pattern@);
    } else {
        lemma_rule_fires(prev, input, j);
        let i = choose|i: int|
            0 <= i < ps.len() && (#[trigger] ps[i]).module == prev[j].module && ps[i].severity == prev[j].severity
                && ps[i].pattern == prev[j].pattern@;
        assert(fs[i] == ps[i]);
    }
}

/// The destructive and remote-shell commands the Defender promises to stop
/// (`rm -rf /`, `mkfs`, reverse shells over `/dev/tcp` or `nc -e`).
pub open spec fn blocked_commands() -> Seq<Seq<char>> {
    seq!["rm -rf /"@, "mkfs\\."@, "bash -i >& /dev/tcp"@, "/dev/tcp/"@, "nc -e"@]
}

/// Text in which one of the promised command patterns is found is blocked,
/// with a critical command-injection finding for that pattern.
pub proof fn lemma_dangerous_commands_block(input: Seq<char>, k: int)
    requires
        0 <= k < blocked_commands().len(),
        ci_search(blocked_commands()[k], input) matches Ok(Some(_)),
    ensures
        text_scan(input).action == Action::Block,
        text_scan(input).severity == Severity::Critical,
        exists|i: int|
            0 <= i < text_scan(input).findings.len() && (#[trigger] text_scan(input).findings[i]).module
                == Module::CommandInjection && text_scan(input).findings[i].severity == Severity::Critical
                && text_scan(input).findings[i].pattern == blocked_commands()[k],
{
    let ci = command_injection();
    let c = if k == 0 {
        0int
    } else if k == 1 {
        3int
    } else if k == 2 {
        8int
    } else if k == 3 {
        9int
    } else {
        6int
    };
    assert(ci[c]@ == blocked_commands()[k]);
    let off = prompt_injection_critical().len() + prompt_injection_warning().len();
    let table = rule_table();
    let g1 = group(prompt_injection_critical(), Module::PromptInjection, Severity::Critical);
    let g2 = group(prompt_injection_warning(), Module::PromptInjection, Severity::Warning);
    let g3 = group(ci, Module::CommandInjection, Severity::Critical);
    assert(table[off + c] == g3[c]);
    let j = off + c;
    lemma_filter_keeps(table, false, j);
    let rules = text_rule_table();
    let i = choose|i: int| 0 <= i < rules.len() && #[trigger] rules[i] == table[j];
    lemma_rule_fires(rules, input, i);
    let fs = findings_for(rules, input);
    let f = choose|f: int|
        0 <= f < fs.len() && (#[trigger] fs[f]).module == rules[i].module && fs[f].severity == rules[i].severity
            && fs[f].pattern == rules[i].pattern@;
    lemma_score_is_max(fs);
    assert(points(fs[f].severity) <= max_points(fs));
    assert(text_scan(input).findings == fs);
    assert(rules[i].pattern@ == blocked_commands()[k]);
    assert(text_scan(input).findings[f].pattern == blocked_commands()[k]);
}

/// A text scan is clean exactly when no rule fired: every rule of the
/// table scores at least a warning.
pub proof fn lemma_text_scan_clean_iff_no_findings(input: Seq<char>)
    ensures
        (text_scan(input).action == Action::Allow) <==> text_scan(input).findings.len() == 0,
{
    let rules = text_rule_table();
    let fs = findings_for(rules, input);
    lemma_score_is_max(fs);
    lemma_findings_from_rules(rules, input);
    lemma_table_never_clean();
    lemma_filtered_from(rule_table(), false);
    if fs.len() > 0 {
        let j = choose|j: int|
            0 <= j < rules.len() && #[trigger] fs[0].severity == rules[j].severity && fs[0].module == rules[j].module
                && fs[0].pattern == rules[j].pattern@;
        let k = choose|k: int| 0 <= k < rule_table().len() && #[trigger] rules[j] == rule_table()[k];
        assert(rule_table()[k].severity != Severity::Clean);
        assert(points(fs[0].severity) >= 40);
    }
}

} // verus!
