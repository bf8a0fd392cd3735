//! The contract shared by every claw (tool / subcommand), and the registry
//! of the built-in ones.

use vstd::prelude::*;

verus! {

/// The argument bag passed to every claw: its positional arguments.
#[derive(Debug, Clone)]
pub struct ClawArgs {
    /// Free-form positional arguments after the subcommand.
    pub positionals: Vec<String>,
}

impl ClawArgs {
    /// An argument bag holding the given positional arguments.
    pub fn new(positionals: Vec<String>) -> (a: ClawArgs)
        ensures
            a.positionals@ == positionals@,
    {
        ClawArgs { positionals }
    }
}

/// The process exit status a claw reports.
#[derive(Debug, Clone, Copy, PartialEq, Eq, Structural)]
pub enum ExitCode {
    Success,
    Failure,
}

/// Every claw has a stable name (its subcommand) and a one-line description.
pub trait Claw {
    /// Stable identifier used as the subcommand name.
    fn name(&self) -> &'static str;

    /// One-line human description.
    fn desc(&self) -> &'static str;
}

/// The `read` claw: read a file or list a directory.
pub struct ReadClaw;

/// The `grep` claw: search file contents.
pub struct GrepClaw;

/// The `edit` claw: replace a unique string in a file.
pub struct EditClaw;

/// The `audit` claw: scan a directory for security risks.
pub struct AuditClaw;

impl Claw for ReadClaw {
    fn name(&self) -> (r: &'static str)
        ensures
            r@ == "read"@,
    {
        "read"
    }

    fn desc(&self) -> (r: &'static str)
        ensures
            r@ == "Read a file (or list a directory) with line numbers and safety guards"@,
    {
        "Read a file (or list a directory) with line numbers and safety guards"
    }
}

impl Claw for GrepClaw {
    fn name(&self) -> (r: &'static str)
        ensures
            r@ == "grep"@,
    {
        "grep"
    }

    fn desc(&self) -> (r: &'static str)
        ensures
            r@ == "Search file contents (respects .gitignore)"@,
    {
        "Search file contents (respects .gitignore)"
    }
}

impl Claw for EditClaw {
    fn name(&self) -> (r: &'static str)
        ensures
            r@ == "edit"@,
    {
        "edit"
    }

    fn desc(&self) -> (r: &'static str)
        ensures
            r@ == "Replace a unique string in a file (exact match)"@,
    {
        "Replace a unique string in a file (exact match)"
    }
}

impl Claw for AuditClaw {
    fn name(&self) -> (r: &'static str)
        ensures
            r@ == "audit"@,
    {
        "audit"
    }

    fn desc(&self) -> (r: &'static str)
        ensures
            r@ == "Scan a directory for prompt injection / SSRF / path traversal risks"@,
    {
        "Scan a directory for prompt injection / SSRF / path traversal risks"
    }
}

/// One of the built-in claws.
#[derive(Debug, Clone, Copy, PartialEq, Eq, Structural)]
pub enum BuiltinClaw {
    Read,
    Grep,
    Edit,
    Audit,
}

impl BuiltinClaw {
    /// The subcommand name of this claw.
    pub fn name(&self) -> (r: &'static str)
        ensures
            r@ == builtin_name(*self),
    {
        match self {
            BuiltinClaw::Read => ReadClaw.name(),
            BuiltinClaw::Grep => GrepClaw.name(),
            BuiltinClaw::Edit => EditClaw.name(),
            BuiltinClaw::Audit => AuditClaw.name(),
        }
    }

    /// The one-line description of this claw.
    pub fn desc(&self) -> (r: &'static str)
        ensures
            r@ == builtin_desc(*self),
    {
        match self {
            BuiltinClaw::Read => ReadClaw.desc(),
            BuiltinClaw::Grep => GrepClaw.desc(),
            BuiltinClaw::Edit => EditClaw.desc(),
            BuiltinClaw::Audit => AuditClaw.desc(),
        }
    }
}

/// The subcommand name of a built-in claw.
pub open spec fn builtin_name(c: BuiltinClaw) -> Seq<char> {
    match c {
        BuiltinClaw::Read => "read"@,
        BuiltinClaw::Grep => "grep"@,
        BuiltinClaw::Edit => "edit"@,
        BuiltinClaw::Audit => "audit"@,
    }
}

/// The description of a built-in claw.
pub open spec fn builtin_desc(c: BuiltinClaw) -> Seq<char> {
    match c {
        BuiltinClaw::Read => "Read a file (or list a directory) with line numbers and safety guards"@,
        BuiltinClaw::Grep => "Search file contents (respects .gitignore)"@,
        BuiltinClaw::Edit => "Replace a unique string in a file (exact match)"@,
        BuiltinClaw::Audit => "Scan a directory for prompt injection / SSRF / path traversal risks"@,
    }
}

/// Every claw enabled in this build, in dispatch order.
pub fn all_claws() -> (r: Vec<BuiltinClaw>)
    ensures
        r@ == seq![BuiltinClaw::Read, BuiltinClaw::Grep, BuiltinClaw::Edit, BuiltinClaw::Audit],
{
    vec![BuiltinClaw::Read, BuiltinClaw::Grep, BuiltinClaw::Edit, BuiltinClaw::Audit]
}

} // verus!
