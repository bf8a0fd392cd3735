//! The execution context shared by every claw in one invocation: the
//! sandbox, the output mode, the Defender switch and the working directory.

use vstd::prelude::*;
use crate::defender::{clean_report, scan_text, scan_url, text_scan, url_scan, ScanReport, ScanReportView};
use crate::sandbox::Sandbox;

verus! {

/// The runtime context shared by all claws in a single invocation.
#[derive(Debug, Clone)]
pub struct Ctx {
    /// What filesystem and network access is permitted.
    pub sandbox: Sandbox,
    /// When true, claws emit JSON instead of human-readable text.
    pub json: bool,
    /// When true, the Defender pre-check is skipped entirely.
    pub no_defender: bool,
    /// Working directory claws operate in.
    pub cwd: String,
}

/// The report a guard gives: clean when the Defender is switched off.
pub open spec fn guarded(no_defender: bool, report: ScanReportView) -> ScanReportView {
    if no_defender {
        clean_report()
    } else {
        report
    }
}

impl Ctx {
    /// Builds a context from the usual global flags.
    pub fn new(cwd: String, sandbox: Sandbox, json: bool, no_defender: bool) -> (c: Ctx)
        ensures
            c.cwd == cwd,
            c.sandbox == sandbox,
            c.json == json,
            c.no_defender == no_defender,
    {
        Ctx { sandbox, json, no_defender, cwd }
    }

    /// Runs the Defender text pre-check unless it is switched off.
    pub fn guard_text(&self, input: &str) -> (r: ScanReport)
        ensures
            r@ == guarded(self.no_defender, text_scan(input@)),
    {
        if self.no_defender {
            return ScanReport::clean();
        }
        scan_text(input)
    }

    /// Runs the Defender URL pre-check unless it is switched off.
    pub fn guard_url(&self, url: &str) -> (r: ScanReport)
        ensures
            r@ == guarded(self.no_defender, url_scan(url@)),
    {
        if self.no_defender {
            return ScanReport::clean();
        }
        scan_url(url)
    }
}

} // verus!
