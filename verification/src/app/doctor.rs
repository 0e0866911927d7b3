//! One-shot diagnostics: the last report, and whether a run is under way.
use vstd::prelude::*;

use crate::message::string_view;

verus! {

/// How a check went.
#[derive(Debug, Clone, Copy, PartialEq, Eq, Structural)]
pub enum CheckStatus {
    Pass,
    Warn,
    Fail,
}

/// One check of a report.
#[derive(Debug, Clone, PartialEq, Eq)]
pub struct Check {
    pub name: String,
    pub status: CheckStatus,
    pub latency_ms: u64,
    pub message: Option<String>,
    pub hint: Option<String>,
}

/// A check, as a mathematical value.
pub struct CheckModel {
    pub name: Seq<char>,
    pub status: CheckStatus,
    pub latency_ms: u64,
    pub message: Option<Seq<char>>,
    pub hint: Option<Seq<char>>,
}

impl View for Check {
    type V = CheckModel;

    open spec fn view(&self) -> CheckModel {
        CheckModel {
            name: self.name@,
            status: self.status,
            latency_ms: self.latency_ms,
            message: string_view(self.message),
            hint: string_view(self.hint),
        }
    }
}

/// The models of a list of checks.
pub open spec fn check_models(v: Seq<Check>) -> Seq<CheckModel> {
    v.map_values(|c: Check| c@)
}

/// A report: the checks, and how they went overall.
#[derive(Debug, Clone, PartialEq, Eq)]
pub struct DoctorReport {
    pub status: CheckStatus,
    pub checks: Vec<Check>,
}

/// A report, as a mathematical value.
pub struct ReportModel {
    pub status: CheckStatus,
    pub checks: Seq<CheckModel>,
}

impl View for DoctorReport {
    type V = ReportModel;

    open spec fn view(&self) -> ReportModel {
        ReportModel { status: self.status, checks: check_models(self.checks@) }
    }
}

/// The view of an optional report.
pub open spec fn report_view(r: Option<DoctorReport>) -> Option<ReportModel> {
    match r {
        Some(r) => Some(r@),
        None => None,
    }
}

/// The diagnostics.
pub struct Doctor {
    pub doctor_report: Option<DoctorReport>,
    pub doctor_running: bool,
    pub doctor_scroll: u16,
    /// A run was asked for.
    pub pending_doctor_request: bool,
}

/// The diagnostics, as a mathematical value.
pub struct DoctorModel {
    pub doctor_report: Option<ReportModel>,
    pub doctor_running: bool,
    pub doctor_scroll: u16,
    pub pending_doctor_request: bool,
}

impl View for Doctor {
    type V = DoctorModel;

    open spec fn view(&self) -> DoctorModel {
        DoctorModel {
            doctor_report: report_view(self.doctor_report),
            doctor_running: self.doctor_running,
            doctor_scroll: self.doctor_scroll,
            pending_doctor_request: self.pending_doctor_request,
        }
    }
}

impl DoctorModel {
    /// After the overlay was opened, which asks for a run.
    pub open spec fn opened(self) -> DoctorModel {
        DoctorModel { doctor_scroll: 0, pending_doctor_request: true, ..self }
    }

    /// After a report came.
    pub open spec fn reported(self, report: ReportModel) -> DoctorModel {
        DoctorModel { doctor_report: Some(report), doctor_running: false, ..self }
    }

    /// No run yet.
    pub open spec fn fresh() -> DoctorModel {
        DoctorModel {
            doctor_report: None,
            doctor_running: false,
            doctor_scroll: 0,
            pending_doctor_request: false,
        }
    }
}

impl Doctor {
    /// No run yet.
    pub fn new() -> (d: Doctor)
        ensures
            d@ == DoctorModel::fresh(),
    {
        Doctor {
            doctor_report: None,
            doctor_running: false,
            doctor_scroll: 0,
            pending_doctor_request: false,
        }
    }

    /// The overlay opens, and asks for a run.
    pub fn open(&mut self)
        ensures
            final(self)@ == old(self)@.opened(),
    {
        self.doctor_scroll = 0;
        self.pending_doctor_request = true;
    }

    /// A report came.
    pub fn report(&mut self, report: DoctorReport)
        ensures
            final(self)@ == old(self)@.reported(report@),
    {
        self.doctor_report = Some(report);
        self.doctor_running = false;
    }
}

/// How many of the first `n` checks failed, or did not pass.
pub open spec fn counted(checks: Seq<CheckModel>, warnings_too: bool, n: nat) -> nat
    decreases n,
{
    if n == 0 {
        0
    } else {
        let before = counted(checks, warnings_too, (n - 1) as nat);
        let status = checks[n - 1].status;
        if status == CheckStatus::Fail || (warnings_too && status == CheckStatus::Warn) {
            before + 1
        } else {
            before
        }
    }
}

impl DoctorReport {
    /// How many checks failed, or, with the warnings, how many did not pass.
    pub fn count_bad(&self, warnings_too: bool) -> (r: usize)
        ensures
            r == counted(self@.checks, warnings_too, self@.checks.len()),
    {
        let ghost checks = self@.checks;
        let mut r: usize = 0;
        let mut i: usize = 0;
        while i < self.checks.len()
            invariant
                i <= self.checks.len(),
                checks == self@.checks,
                r == counted(checks, warnings_too, i as nat),
                r <= i,
            decreases self.checks.len() - i,
        {
            let status = self.checks[i].status;
            assert(checks[i as int].status == status);
            if status == CheckStatus::Fail || (warnings_too && status == CheckStatus::Warn) {
                r = r + 1;
            }
            i = i + 1;
        }
        r
    }
}

} // verus!
