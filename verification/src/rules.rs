//! Defender rule tables: the detection patterns, grouped by module, with the
//! severity each group carries. Patterns are regular expressions matched
//! case-insensitively by the scan engine.

use vstd::prelude::*;

verus! {

/// Severity class of a finding, ordered from harmless to critical.
#[derive(Debug, Clone, Copy, PartialEq, Eq, Structural, PartialOrd, Ord, Hash)]
pub enum Severity {
    /// Score below 40: no action.
    Clean,
    /// Score 40 to 69: warn but allow.
    Warning,
    /// Score 70 to 89: block.
    High,
    /// Score 90 and above: block immediately.
    Critical,
}

/// The number of points a severity stands for.
pub open spec fn points(s: Severity) -> u32 {
    match s {
        Severity::Clean => 0,
        Severity::Warning => 40,
        Severity::High => 70,
        Severity::Critical => 90,
    }
}

/// The severity bucket of an arbitrary score.
pub open spec fn severity_for(score: u32) -> Severity {
    if score >= 90 {
        Severity::Critical
    } else if score >= 70 {
        Severity::High
    } else if score >= 40 {
        Severity::Warning
    } else {
        Severity::Clean
    }
}

/// The label printed for a severity.
pub open spec fn severity_label(s: Severity) -> Seq<char> {
    match s {
        Severity::Critical => "critical"@,
        Severity::High => "high"@,
        Severity::Warning => "warning"@,
        Severity::Clean => "clean"@,
    }
}

impl Severity {
    /// The numeric score of this severity.
    pub fn score(self) -> (r: u32)
        ensures
            r == points(self),
    {
        match self {
            Severity::Clean => 0,
            Severity::Warning => 40,
            Severity::High => 70,
            Severity::Critical => 90,
        }
    }

    /// Classifies an arbitrary numeric score into a severity bucket.
    pub fn from_score(score: u32) -> (r: Severity)
        ensures
            r == severity_for(score),
    {
        if score >= Severity::Critical.score() {
            Severity::Critical
        } else if score >= Severity::High.score() {
            Severity::High
        } else if score >= Severity::Warning.score() {
            Severity::Warning
        } else {
            Severity::Clean
        }
    }

    /// The label printed for this severity.
    pub fn label(self) -> (r: &'static str)
        ensures
            r@ == severity_label(self),
    {
        match self {
            Severity::Critical => "critical",
            Severity::High => "high",
            Severity::Warning => "warning",
            Severity::Clean => "clean",
        }
    }
}

/// Reading a severity's score back through `from_score` gives the severity.
pub proof fn lemma_score_round_trip(s: Severity)
    ensures
        severity_for(points(s)) == s,
{
}

/// A detection module: the family a rule belongs to.
#[derive(Debug, Clone, Copy, PartialEq, Eq, Structural, Hash)]
pub enum Module {
    PromptInjection,
    CommandInjection,
    CredentialExfil,
    Ssrf,
    PathTraversal,
    SensitiveFiles,
}

/// The label printed for a module.
pub open spec fn module_label(m: Module) -> Seq<char> {
    match m {
        Module::PromptInjection => "prompt_injection"@,
        Module::CommandInjection => "command_injection"@,
        Module::CredentialExfil => "credential_exfil"@,
        Module::Ssrf => "ssrf"@,
        Module::PathTraversal => "path_traversal"@,
        Module::SensitiveFiles => "sensitive_files"@,
    }
}

impl Module {
    /// The label printed for this module.
    pub fn label(self) -> (r: &'static str)
        ensures
            r@ == module_label(self),
    {
        match self {
            Module::PromptInjection => "prompt_injection",
            Module::CommandInjection => "command_injection",
            Module::CredentialExfil => "credential_exfil",
            Module::Ssrf => "ssrf",
            Module::PathTraversal => "path_traversal",
            Module::SensitiveFiles => "sensitive_files",
        }
    }
}

/// One detection rule: its module, its severity and its pattern.
#[derive(Debug, Clone, Copy)]
pub struct Rule {
    pub module: Module,
    pub severity: Severity,
    pub pattern: &'static str,
}

/// The rules made of one pattern list, all with the same module and severity.
pub open spec fn group(patterns: Seq<&'static str>, module: Module, severity: Severity) -> Seq<Rule> {
    patterns.map_values(|p: &'static str| Rule { module, severity, pattern: p })
}

/// The whole rule table, in scanning order.
pub open spec fn rule_table() -> Seq<Rule> {
    group(prompt_injection_critical(), Module::PromptInjection, Severity::Critical)
        + group(prompt_injection_warning(), Module::PromptInjection, Severity::Warning)
        + group(command_injection(), Module::CommandInjection, Severity::Critical)
        + group(credential_exfil(), Module::CredentialExfil, Severity::Critical)
        + group(ssrf_patterns(), Module::Ssrf, Severity::Critical)
        + group(path_traversal(), Module::PathTraversal, Severity::High)
        + group(sensitive_files(), Module::SensitiveFiles, Severity::Warning)
}

/// Prompt-injection phrases that are blocked outright.
pub open spec fn prompt_injection_critical() -> Seq<&'static str> {
    seq![
        "show.*your.*api.?key",
        "send.*api.?key",
        "read.*config.*key",
        "what.*your.*api.?key",
        "tell me.*password",
        "show.*password",
        "read.*[.]env",
        "contents of.*[.]env",
        "show.*secret",
        "send.*credentials",
        "what.*credentials",
        "dump.*credential",
        "paste.*[.]env",
        "[.]env.*content",
        "what.*openclaw",
        "what.*.openclaw",
        "what.*.clawdbot",
        "what.*clawdbot",
        "show.*clawdbot",
        "send.*clawdbot",
        "read.*clawdbot",
        "read.*.clawdbot",
        "show.*openclaw",
        "read.*openclaw",
        "read.*.openclaw",
        "list.*credentials",
        "dump.*credentials",
        "send.*[.]env",
        "contents.*[.]env",
        "show.*[.]env",
        "what.*in.*config",
        "ignore previous instructions",
        "ignore all previous",
        "ignore your instructions",
        "disregard above",
        "disregard.*instructions",
        "disregard.*prompt",
        "disregard previous",
        "forget.*instructions",
        "forget everything",
        "forget your instructions",
        "forget everything above",
        "override your instructions",
        "new system prompt",
        "reset to default",
        "new instructions",
        "you are no longer",
        "disable.*safety",
        "disable.*filter",
        "no restrictions",
        "without.*restrictions",
        "remove.*restrictions",
        "without.*guidelines",
        "no.*ethical",
        "reveal.*system prompt",
        "show.*system prompt",
        "print.*system prompt",
        "what.*instructions.*given",
        "what.*your instructions",
        "print.*conversation",
        "show.*conversation history",
        "export.*history",
        "export all.*data",
        "export.*user.*data",
    ]
}

fn prompt_injection_critical_list() -> (v: Vec<&'static str>)
    ensures
        v@ == prompt_injection_critical(),
{
    vec![
        "show.*your.*api.?key",
        "send.*api.?key",
        "read.*config.*key",
        "what.*your.*api.?key",
        "tell me.*password",
        "show.*password",
        "read.*[.]env",
        "contents of.*[.]env",
        "show.*secret",
        "send.*credentials",
        "what.*credentials",
        "dump.*credential",
        "paste.*[.]env",
        "[.]env.*content",
        "what.*openclaw",
        "what.*.openclaw",
        "what.*.clawdbot",
        "what.*clawdbot",
        "show.*clawdbot",
        "send.*clawdbot",
        "read.*clawdbot",
        "read.*.clawdbot",
        "show.*openclaw",
        "read.*openclaw",
        "read.*.openclaw",
        "list.*credentials",
        "dump.*credentials",
        "send.*[.]env",
        "contents.*[.]env",
        "show.*[.]env",
        "what.*in.*config",
        "ignore previous instructions",
        "ignore all previous",
        "ignore your instructions",
        "disregard above",
        "disregard.*instructions",
        "disregard.*prompt",
        "disregard previous",
        "forget.*instructions",
        "forget everything",
        "forget your instructions",
        "forget everything above",
        "override your instructions",
        "new system prompt",
        "reset to default",
        "new instructions",
        "you are no longer",
        "disable.*safety",
        "disable.*filter",
        "no restrictions",
        "without.*restrictions",
        "remove.*restrictions",
        "without.*guidelines",
        "no.*ethical",
        "reveal.*system prompt",
        "show.*system prompt",
        "print.*system prompt",
        "what.*instructions.*given",
        "what.*your instructions",
        "print.*conversation",
        "show.*conversation history",
        "export.*history",
        "export all.*data",
        "export.*user.*data",
    ]
}

/// Prompt-injection phrases that only raise a warning.
pub open spec fn prompt_injection_warning() -> Seq<&'static str> {
    seq![
        "you are now",
        "your new role",
        "pretend to be",
        "act as if",
        "roleplay as",
        "hypothetically",
        "for educational purposes",
        "SYSTEM:",
        "\\[INST\\]",
        "<<SYS>>",
        "jailbreak",
        "DAN mode",
        "pretend.*DAN",
        "you're DAN",
        "for academic",
        "in a fictional",
        "in a hypothetical",
        "imagine a world",
        "translate.*then execute",
        "translate.*then run",
        "base64.*decode",
        "rot13",
        "developer mode",
        "---END",
        "END OF SYSTEM",
        "END OF PROMPT",
        "<\\|endoftext\\|>",
        "###.*SYSTEM",
        "BEGIN NEW INSTRUCTIONS",
        "STOP IGNORE",
    ]
}

fn prompt_injection_warning_list() -> (v: Vec<&'static str>)
    ensures
        v@ == prompt_injection_warning(),
{
    vec![
        "you are now",
        "your new role",
        "pretend to be",
        "act as if",
        "roleplay as",
        "hypothetically",
        "for educational purposes",
        "SYSTEM:",
        "\\[INST\\]",
        "<<SYS>>",
        "jailbreak",
        "DAN mode",
        "pretend.*DAN",
        "you're DAN",
        "for academic",
        "in a fictional",
        "in a hypothetical",
        "imagine a world",
        "translate.*then execute",
        "translate.*then run",
        "base64.*decode",
        "rot13",
        "developer mode",
        "---END",
        "END OF SYSTEM",
        "END OF PROMPT",
        "<\\|endoftext\\|>",
        "###.*SYSTEM",
        "BEGIN NEW INSTRUCTIONS",
        "STOP IGNORE",
    ]
}

/// Destructive or remote-shell command fragments.
pub open spec fn command_injection() -> Seq<&'static str> {
    seq![
        "rm -rf /",
        "rm -rf \\*",
        "chmod 777",
        "mkfs\\.",
        "dd if=/dev",
        ":\\(\\)\\{ :\\|:& \\};:",
        "nc -e",
        "ncat -e",
        "bash -i >& /dev/tcp",
        "/dev/tcp/",
        "/dev/udp/",
        "\\| bash",
        "\\| sh",
        "curl.*\\| bash",
        "wget.*\\| sh",
        "base64 -d \\| bash",
        "base64 --decode \\| sh",
        "eval.*\\$\\(",
        "python -c.*exec",
    ]
}

fn command_injection_list() -> (v: Vec<&'static str>)
    ensures
        v@ == command_injection(),
{
    vec![
        "rm -rf /",
        "rm -rf \\*",
        "chmod 777",
        "mkfs\\.",
        "dd if=/dev",
        ":\\(\\)\\{ :\\|:& \\};:",
        "nc -e",
        "ncat -e",
        "bash -i >& /dev/tcp",
        "/dev/tcp/",
        "/dev/udp/",
        "\\| bash",
        "\\| sh",
        "curl.*\\| bash",
        "wget.*\\| sh",
        "base64 -d \\| bash",
        "base64 --decode \\| sh",
        "eval.*\\$\\(",
        "python -c.*exec",
    ]
}

/// Known exfiltration endpoints and upload idioms.
pub open spec fn credential_exfil() -> Seq<&'static str> {
    seq![
        "webhook\\.site",
        "requestbin\\.com",
        "requestbin\\.net",
        "pipedream\\.net",
        "hookbin\\.com",
        "beeceptor\\.com",
        "ngrok\\.io",
        "curl.*-d.*[.]env",
        "curl.*--data.*[.]env",
        "cat.*[.]env.*curl",
        "POST.*webhook\\.site.*API_KEY",
        "POST.*webhook\\.site.*SECRET",
        "POST.*webhook\\.site.*TOKEN",
    ]
}

fn credential_exfil_list() -> (v: Vec<&'static str>)
    ensures
        v@ == credential_exfil(),
{
    vec![
        "webhook\\.site",
        "requestbin\\.com",
        "requestbin\\.net",
        "pipedream\\.net",
        "hookbin\\.com",
        "beeceptor\\.com",
        "ngrok\\.io",
        "curl.*-d.*[.]env",
        "curl.*--data.*[.]env",
        "cat.*[.]env.*curl",
        "POST.*webhook\\.site.*API_KEY",
        "POST.*webhook\\.site.*SECRET",
        "POST.*webhook\\.site.*TOKEN",
    ]
}

/// Loopback, private-range and cloud-metadata hosts (URL scans only).
pub open spec fn ssrf_patterns() -> Seq<&'static str> {
    seq![
        "localhost",
        "127\\.0\\.0\\.1",
        "0\\.0\\.0\\.0",
        "10\\.\\d+\\.\\d+\\.\\d+",
        "172\\.(1[6-9]|2[0-9]|3[01])\\.\\d+\\.\\d+",
        "192\\.168\\.\\d+\\.\\d+",
        "169\\.254\\.169\\.254",
        "metadata\\.google",
        "\\[::1\\]",
    ]
}

fn ssrf_patterns_list() -> (v: Vec<&'static str>)
    ensures
        v@ == ssrf_patterns(),
{
    vec![
        "localhost",
        "127\\.0\\.0\\.1",
        "0\\.0\\.0\\.0",
        "10\\.\\d+\\.\\d+\\.\\d+",
        "172\\.(1[6-9]|2[0-9]|3[01])\\.\\d+\\.\\d+",
        "192\\.168\\.\\d+\\.\\d+",
        "169\\.254\\.169\\.254",
        "metadata\\.google",
        "\\[::1\\]",
    ]
}

/// Traversal sequences and paths to secrets.
pub open spec fn path_traversal() -> Seq<&'static str> {
    seq![
        ".config/openclaw",
        ".openclaw",
        "the .openclaw",
        ".openclaw directory",
        ".openclaw folder",
        "openclaw.json",
        ".config/gog",
        "cat.*[.]env",
        "read.*[.]env",
        "show.*[.]env",
        "/.env",
        "config.yaml",
        "config.json",
        ".ssh/id_",
        ".gnupg",
        "\\.\\./\\.\\./\\.\\.",
        "/etc/passwd",
        "/etc/shadow",
        "/root/",
        "~/.ssh/",
        "~/.aws/",
        "~/.gnupg/",
        "%2e%2e%2f",
        "\\.\\.%2f",
        "%2e%2e/",
    ]
}

fn path_traversal_list() -> (v: Vec<&'static str>)
    ensures
        v@ == path_traversal(),
{
    vec![
        ".config/openclaw",
        ".openclaw",
        "the .openclaw",
        ".openclaw directory",
        ".openclaw folder",
        "openclaw.json",
        ".config/gog",
        "cat.*[.]env",
        "read.*[.]env",
        "show.*[.]env",
        "/.env",
        "config.yaml",
        "config.json",
        ".ssh/id_",
        ".gnupg",
        "\\.\\./\\.\\./\\.\\.",
        "/etc/passwd",
        "/etc/shadow",
        "/root/",
        "~/.ssh/",
        "~/.aws/",
        "~/.gnupg/",
        "%2e%2e%2f",
        "\\.\\.%2f",
        "%2e%2e/",
    ]
}

/// Names of files and values that usually hold secrets.
pub open spec fn sensitive_files() -> Seq<&'static str> {
    seq![
        "[.]env",
        "id_rsa",
        "\\.pem",
        "secret",
        "password",
        "api.key",
        "token",
    ]
}

fn sensitive_files_list() -> (v: Vec<&'static str>)
    ensures
        v@ == sensitive_files(),
{
    vec![
        "[.]env",
        "id_rsa",
        "\\.pem",
        "secret",
        "password",
        "api.key",
        "token",
    ]
}

/// Hosts whose URLs skip the SSRF rules (a host may also be a subdomain of one).
pub open spec fn allowed_domains() -> Seq<&'static str> {
    seq![
        "github.com",
        "api.github.com",
        "api.openai.com",
        "api.anthropic.com",
        "googleapis.com",
        "google.com",
        "npmjs.org",
        "pypi.org",
        "wttr.in",
        "signalwire.com",
        "usetrmnl.com",
    ]
}

fn allowed_domains_list() -> (v: Vec<&'static str>)
    ensures
        v@ == allowed_domains(),
{
    vec![
        "github.com",
        "api.github.com",
        "api.openai.com",
        "api.anthropic.com",
        "googleapis.com",
        "google.com",
        "npmjs.org",
        "pypi.org",
        "wttr.in",
        "signalwire.com",
        "usetrmnl.com",
    ]
}

/// The allow-listed domains, as a vector.
pub fn allowed_domain_list() -> (v: Vec<&'static str>)
    ensures
        v@ == allowed_domains(),
{
    allowed_domains_list()
}

/// Appends one rule per pattern, all with the given module and severity.
fn push_rules(rules: &mut Vec<Rule>, patterns: Vec<&'static str>, module: Module, severity: Severity)
    ensures
        final(rules)@ == old(rules)@ + group(patterns@, module, severity),
{
    let mut i: usize = 0;
    while i < patterns.len()
        invariant
            0 <= i <= patterns@.len(),
            rules@ == old(rules)@ + group(patterns@.take(i as int), module, severity),
        decreases patterns@.len() - i,
    {
        rules.push(Rule { module, severity, pattern: patterns[i] });
        assert(group(patterns@.take(i + 1), module, severity) =~= group(patterns@.take(i as int), module, severity).push(
            Rule { module, severity, pattern: patterns@[i as int] },
        ));
        i += 1;
    }
    assert(patterns@.take(patterns@.len() as int) =~= patterns@);
}

/// Builds the full rule table, in scanning order.
pub fn all_rules() -> (r: Vec<Rule>)
    ensures
        r@ == rule_table(),
{
    let mut rules: Vec<Rule> = Vec::new();
    push_rules(&mut rules, prompt_injection_critical_list(), Module::PromptInjection, Severity::Critical);
    push_rules(&mut rules, prompt_injection_warning_list(), Module::PromptInjection, Severity::Warning);
    push_rules(&mut rules, command_injection_list(), Module::CommandInjection, Severity::Critical);
    push_rules(&mut rules, credential_exfil_list(), Module::CredentialExfil, Severity::Critical);
    push_rules(&mut rules, ssrf_patterns_list(), Module::Ssrf, Severity::Critical);
    push_rules(&mut rules, path_traversal_list(), Module::PathTraversal, Severity::High);
    push_rules(&mut rules, sensitive_files_list(), Module::SensitiveFiles, Severity::Warning);
    assert(rules@ =~= rule_table());
    rules
}

} // verus!
