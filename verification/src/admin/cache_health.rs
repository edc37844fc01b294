//! Cache health checks: the verdict of each check from what the program
//! observed, the overall status, and the report's text.
use vstd::prelude::*;
use crate::text::{decimal, find_sub, owned, push_decimal, push_str, string_of};

verus! {

/// How serious a failed check is.
#[derive(Debug, Clone, Copy, PartialEq, Eq, Structural)]
pub enum Severity {
    Info,
    Warning,
    Critical,
}

/// The overall state of the cache.
#[derive(Debug, Clone, Copy, PartialEq, Eq, Structural)]
pub enum HealthStatus {
    Healthy,
    Degraded,
    Critical,
}

/// The result of one check.
#[derive(Debug, Clone)]
pub struct HealthCheck {
    pub name: String,
    pub passed: bool,
    pub message: String,
    pub severity: Severity,
}

/// The mathematical value of a `HealthCheck`.
pub struct HealthCheckView {
    pub name: Seq<char>,
    pub passed: bool,
    pub message: Seq<char>,
    pub severity: Severity,
}

impl View for HealthCheck {
    type V = HealthCheckView;

    open spec fn view(&self) -> HealthCheckView {
        HealthCheckView {
            name: self.name@,
            passed: self.passed,
            message: self.message@,
            severity: self.severity,
        }
    }
}

/// The checks and the overall status.
#[derive(Debug)]
pub struct HealthReport {
    pub overall_status: HealthStatus,
    pub checks: Vec<HealthCheck>,
}

/// The views of checks.
pub open spec fn check_views(v: Seq<HealthCheck>) -> Seq<HealthCheckView> {
    v.map_values(|c: HealthCheck| c@)
}

/// The overall status: critical when a critical check failed, degraded when
/// another failed, healthy when all passed.
pub open spec fn overall(checks: Seq<HealthCheckView>) -> HealthStatus {
    if exists|i: int| 0 <= i < checks.len() && !#[trigger] checks[i].passed && checks[i].severity
        == Severity::Critical {
        HealthStatus::Critical
    } else if exists|i: int| 0 <= i < checks.len() && !#[trigger] checks[i].passed {
        HealthStatus::Degraded
    } else {
        HealthStatus::Healthy
    }
}

/// The overall status of `checks` (see `overall`).
pub fn overall_status(checks: &Vec<HealthCheck>) -> (s: HealthStatus)
    ensures
        s == overall(check_views(checks@)),
{
    let ghost cv = check_views(checks@);
    let mut critical = false;
    let mut failed = false;
    let mut i: usize = 0;
    while i < checks.len()
        invariant
            i <= checks@.len(),
            cv == check_views(checks@),
            critical == exists|j: int| 0 <= j < i && !(#[trigger] cv[j]).passed && cv[j].severity
                == Severity::Critical,
            failed == exists|j: int| 0 <= j < i && !(#[trigger] cv[j]).passed,
        decreases checks@.len() - i,
    {
        proof {
            assert(cv[i as int] == checks@[i as int]@);
        }
        if !checks[i].passed {
            failed = true;
            if checks[i].severity == Severity::Critical {
                critical = true;
            }
        }
        i = i + 1;
    }
    if critical {
        HealthStatus::Critical
    } else if failed {
        HealthStatus::Degraded
    } else {
        HealthStatus::Healthy
    }
}

impl HealthReport {
    /// The report of `checks`, with their overall status.
    pub fn new(checks: Vec<HealthCheck>) -> (r: Self)
        ensures
            check_views(r.checks@) == check_views(checks@),
            r.overall_status == overall(check_views(checks@)),
    {
        let overall_status = overall_status(&checks);
        HealthReport { overall_status, checks }
    }
}

fn check(name: &str, passed: bool, message: Vec<char>, severity: Severity) -> (c: HealthCheck)
    ensures
        c@ == (HealthCheckView { name: name@, passed, message: message@, severity }),
{
    HealthCheck { name: owned(name), passed, message: string_of(&message), severity }
}

fn text2(a: &str, b: &str) -> (v: Vec<char>)
    ensures
        v@ == a@ + b@,
{
    let mut v: Vec<char> = Vec::new();
    push_str(&mut v, a);
    push_str(&mut v, b);
    v
}

fn text1(a: &str) -> (v: Vec<char>)
    ensures
        v@ == a@,
{
    let mut v: Vec<char> = Vec::new();
    push_str(&mut v, a);
    proof {
        assert(v@ =~= a@);
    }
    v
}

/// The check that the cache directory `dir` exists and takes a file:
/// `write_error` is the error of writing a test file into it, if any.
pub fn directory_check(dir: &str, exists: bool, write_error: Option<&str>) -> (c: HealthCheck)
    ensures
        c@.name == "directory_access"@,
        !exists ==> !c@.passed && c@.severity == Severity::Critical && c@.message
            == "Directory does not exist: "@ + dir@,
        exists && write_error is None ==> c@.passed && c@.severity == Severity::Info && c@.message
            == "Directory accessible: "@ + dir@,
        exists && write_error is Some ==> !c@.passed && c@.severity == Severity::Critical
            && c@.message == "Directory not writable: "@ + write_error->0@,
{
    if !exists {
        return check("directory_access", false, text2("Directory does not exist: ", dir), Severity::Critical);
    }
    match write_error {
        None => check("directory_access", true, text2("Directory accessible: ", dir), Severity::Info),
        Some(e) => check("directory_access", false, text2("Directory not writable: ", e), Severity::Critical),
    }
}

/// The check of the index database: whether it exists, and the number of
/// entries once opened or the error of opening it.
pub fn index_check(exists: bool, opened: Result<usize, &str>) -> (c: HealthCheck)
    ensures
        c@.name == "sled_database"@,
        !exists ==> c@.passed && c@.severity == Severity::Info && c@.message
            == "Database not initialized yet"@,
        exists ==> match opened {
            Ok(n) => c@.passed && c@.severity == Severity::Info && c@.message == decimal(n as nat)
                + " entries, no corruption detected"@,
            Err(e) => !c@.passed && c@.severity == Severity::Critical && c@.message
                == "Database error: "@ + e@,
        },
{
    if !exists {
        return check("sled_database", true, text1("Database not initialized yet"), Severity::Info);
    }
    match opened {
        Ok(n) => {
            let mut v: Vec<char> = Vec::new();
            push_decimal(&mut v, n as u64);
            push_str(&mut v, " entries, no corruption detected");
            check("sled_database", true, v, Severity::Info)
        },
        Err(e) => check("sled_database", false, text2("Database error: ", e), Severity::Critical),
    }
}

/// The most blobs whose hashes a health check verifies.
pub const MAX_BLOB_SAMPLES: u64 = 10;

/// The check of the blob store: whether it exists, and of the blobs sampled
/// (at most `MAX_BLOB_SAMPLES`) how many had their hash as their name.
pub fn blob_check(exists: bool, checked: u64, valid: u64) -> (c: HealthCheck)
    requires
        valid <= checked,
    ensures
        c@.name == "blob_store"@,
        !exists ==> c@.passed && c@.severity == Severity::Info && c@.message
            == "Blob store not initialized yet"@,
        exists && checked == 0 ==> c@.passed && c@.severity == Severity::Info && c@.message
            == "No blobs to verify"@,
        exists && checked > 0 && valid == checked ==> c@.passed && c@.severity == Severity::Info
            && c@.message == decimal(valid as nat) + "/"@ + decimal(checked as nat)
            + " sampled blobs verified"@,
        exists && valid < checked ==> !c@.passed && c@.severity == Severity::Warning && c@.message
            == decimal((checked - valid) as nat) + "/"@ + decimal(checked as nat)
            + " blobs failed verification"@,
{
    if !exists {
        return check("blob_store", true, text1("Blob store not initialized yet"), Severity::Info);
    }
    if checked == 0 {
        check("blob_store", true, text1("No blobs to verify"), Severity::Info)
    } else if valid == checked {
        let mut v: Vec<char> = Vec::new();
        push_decimal(&mut v, valid);
        push_str(&mut v, "/");
        push_decimal(&mut v, checked);
        push_str(&mut v, " sampled blobs verified");
        check("blob_store", true, v, Severity::Info)
    } else {
        let mut v: Vec<char> = Vec::new();
        push_decimal(&mut v, checked - valid);
        push_str(&mut v, "/");
        push_decimal(&mut v, checked);
        push_str(&mut v, " blobs failed verification");
        check("blob_store", false, v, Severity::Warning)
    }
}

/// Whether the error of a test write tells of a full disk: an error of kind
/// `Other`, or a text that names space or a quota.
pub open spec fn out_of_space(kind_other: bool, text: Seq<char>) -> bool {
    kind_other || find_sub(text, "space"@) is Some || find_sub(text, "quota"@) is Some
}

/// The check of free space: `write_error` is the error of writing a test
/// file (whether its kind is `Other`, and its text), if any.
pub fn disk_space_check(write_error: Option<(bool, &str)>) -> (c: HealthCheck)
    ensures
        c@.name == "disk_space"@,
        write_error is None ==> c@.passed && c@.severity == Severity::Info && c@.message
            == "Disk space available"@,
        write_error matches Some((k, t)) ==> if out_of_space(k, t@) {
            !c@.passed && c@.severity == Severity::Critical && c@.message == "Low disk space: "@ + t@
        } else {
            c@.passed && c@.severity == Severity::Info && c@.message == "Disk space check skipped"@
        },
{
    match write_error {
        None => check("disk_space", true, text1("Disk space available"), Severity::Info),
        Some((kind_other, t)) => {
            let tc = crate::text::chars_of(t);
            let sp = crate::text::chars_of("space");
            let qu = crate::text::chars_of("quota");
            proof {
                reveal_strlit("space");
                reveal_strlit("quota");
            }
            let full = kind_other || crate::text::index_of_sub(&tc, &sp).is_some()
                || crate::text::index_of_sub(&tc, &qu).is_some();
            if full {
                check("disk_space", false, text2("Low disk space: ", t), Severity::Critical)
            } else {
                check("disk_space", true, text1("Disk space check skipped"), Severity::Info)
            }
        },
    }
}

// ---------------------------------------------------------------------------
// The report's text
// ---------------------------------------------------------------------------

/// The mark of a check's severity in the report.
pub open spec fn severity_mark(s: Severity) -> Seq<char> {
    match s {
        Severity::Info => ""@,
        Severity::Warning => " (warning)"@,
        Severity::Critical => " (critical)"@,
    }
}

/// The name of an overall status in the report.
pub open spec fn status_name(s: HealthStatus) -> Seq<char> {
    match s {
        HealthStatus::Healthy => "HEALTHY"@,
        HealthStatus::Degraded => "DEGRADED"@,
        HealthStatus::Critical => "CRITICAL"@,
    }
}

/// The line of one check: `  [PASS] name: message` with the severity mark.
pub open spec fn check_line(c: HealthCheckView) -> Seq<char> {
    "  ["@ + (if c.passed {
        "PASS"@
    } else {
        "FAIL"@
    }) + "] "@ + c.name + ": "@ + c.message + severity_mark(c.severity) + "\n"@
}

/// The lines of the checks, in order.
pub open spec fn check_lines(cs: Seq<HealthCheckView>) -> Seq<char>
    decreases cs.len(),
{
    if cs.len() == 0 {
        Seq::empty()
    } else {
        check_lines(cs.drop_last()) + check_line(cs.last())
    }
}

/// The number of failed checks.
pub open spec fn failed_count(cs: Seq<HealthCheckView>) -> nat
    decreases cs.len(),
{
    if cs.len() == 0 {
        0
    } else {
        failed_count(cs.drop_last()) + if cs.last().passed {
            0nat
        } else {
            1nat
        }
    }
}

/// The text of a report as the tool prints it.
pub open spec fn report_text(status: HealthStatus, cs: Seq<HealthCheckView>) -> Seq<char> {
    "Cache Health Check:\n"@ + check_lines(cs) + "\n"@ + "Overall: "@ + status_name(status) + (
    if failed_count(cs) > 0 {
        " ("@ + decimal(failed_count(cs)) + " issue(s))"@
    } else {
        ""@
    }) + "\n"@
}

fn severity_text(s: Severity) -> (t: &'static str)
    ensures
        t@ == severity_mark(s),
{
    match s {
        Severity::Info => "",
        Severity::Warning => " (warning)",
        Severity::Critical => " (critical)",
    }
}

fn status_text(s: HealthStatus) -> (t: &'static str)
    ensures
        t@ == status_name(s),
{
    match s {
        HealthStatus::Healthy => "HEALTHY",
        HealthStatus::Degraded => "DEGRADED",
        HealthStatus::Critical => "CRITICAL",
    }
}

proof fn lemma_failed_bound(cs: Seq<HealthCheckView>)
    ensures
        failed_count(cs) <= cs.len(),
    decreases cs.len(),
{
    if cs.len() > 0 {
        lemma_failed_bound(cs.drop_last());
    }
}

impl HealthReport {
    /// The report as the tool prints it (see `report_text`).
    pub fn to_text(&self) -> (s: String)
        ensures
            s@ == report_text(self.overall_status, check_views(self.checks@)),
    {
        let ghost cv = check_views(self.checks@);
        let mut v: Vec<char> = Vec::new();
        push_str(&mut v, "Cache Health Check:\n");
        let ghost head = v@;
        let mut failed: usize = 0;
        let mut i: usize = 0;
        proof {
            assert(cv.take(0) =~= Seq::<HealthCheckView>::empty());
            assert(v@ =~= head + check_lines(cv.take(0)));
        }
        while i < self.checks.len()
            invariant
                i <= self.checks@.len(),
                cv == check_views(self.checks@),
                v@ == head + check_lines(cv.take(i as int)),
                failed == failed_count(cv.take(i as int)),
            decreases self.checks@.len() - i,
        {
            let c = &self.checks[i];
            let ghost v0 = v@;
            proof {
                let t = cv.take(i + 1);
                assert(t.drop_last() =~= cv.take(i as int));
                assert(t.last() == c@);
                lemma_failed_bound(t);
            }
            push_str(&mut v, "  [");
            push_str(&mut v, if c.passed { "PASS" } else { "FAIL" });
            push_str(&mut v, "] ");
            push_str(&mut v, c.name.as_str());
            push_str(&mut v, ": ");
            push_str(&mut v, c.message.as_str());
            push_str(&mut v, severity_text(c.severity));
            push_str(&mut v, "\n");
            proof {
                assert(v@ =~= v0 + check_line(c@));
            }
            if !c.passed {
                failed = failed + 1;
            }
            i = i + 1;
        }
        proof {
            assert(cv.take(i as int) =~= cv);
        }
        push_str(&mut v, "\n");
        push_str(&mut v, "Overall: ");
        push_str(&mut v, status_text(self.overall_status));
        if failed > 0 {
            push_str(&mut v, " (");
            push_decimal(&mut v, failed as u64);
            push_str(&mut v, " issue(s))");
        } else {
            push_str(&mut v, "");
        }
        push_str(&mut v, "\n");
        string_of(&v)
    }
}

} // verus!
