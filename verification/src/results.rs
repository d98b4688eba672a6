//! Per-student results, the batch report, and its JSON serialization.
//!
//! A worker's outcome — a parsed test suite, or a contained failure — is
//! turned into one [`StudentResult`]; the aggregator collects those into a
//! [`TestResult`] and serializes it.  The serialized document has the shape
//! `{"results":[{"tests":[{"name","passed","message"}],"student_id",
//! "student_name","diagnostic"}]}`; the `diagnostic` field carries the
//! failure detail of a submission whose tests never ran, and is empty
//! otherwise.  A canonical parser for that document is provided and proved
//! to invert the serializer field-for-field.

use vstd::prelude::*;

use crate::errors::{message_of, GradeError};
use crate::junit_xml::{TestSuite, TestSuiteChildView, TestSuiteView};
use crate::parse::parse_report;

verus! {

/// The outcome of one unit test as reported to the student.
pub struct UnitTestResult {
    pub name: String,
    pub passed: bool,
    pub message: String,
}

/// Mathematical model of a unit-test result.
pub ghost struct UnitTestResultView {
    pub name: Seq<char>,
    pub passed: bool,
    pub message: Seq<char>,
}

impl View for UnitTestResult {
    type V = UnitTestResultView;

    open spec fn view(&self) -> UnitTestResultView {
        UnitTestResultView { name: self.name@, passed: self.passed, message: self.message@ }
    }
}

/// One submission's outcome: its unit-test results, the student's identity,
/// and a diagnostic that is non-empty exactly when the submission failed
/// before any test outcome existed.
pub struct StudentResult {
    pub tests: Vec<UnitTestResult>,
    pub student_id: String,
    pub student_name: String,
    pub diagnostic: String,
}

/// Mathematical model of a student result.
pub ghost struct StudentResultView {
    pub tests: Seq<UnitTestResultView>,
    pub student_id: Seq<char>,
    pub student_name: Seq<char>,
    pub diagnostic: Seq<char>,
}

impl View for StudentResult {
    type V = StudentResultView;

    open spec fn view(&self) -> StudentResultView {
        StudentResultView {
            tests: self.tests@.map(|i: int, u: UnitTestResult| u@),
            student_id: self.student_id@,
            student_name: self.student_name@,
            diagnostic: self.diagnostic@,
        }
    }
}

/// The aggregated batch report of one run.
pub struct TestResult {
    pub results: Vec<StudentResult>,
}

/// Mathematical model of a batch report.
pub ghost struct TestResultView {
    pub results: Seq<StudentResultView>,
}

impl View for TestResult {
    type V = TestResultView;

    open spec fn view(&self) -> TestResultView {
        TestResultView { results: self.results@.map(|i: int, r: StudentResult| r@) }
    }
}

/// The unit-test result derived from one test case: `passed` exactly when
/// the case classifies as passed, and the message of its failure (which
/// takes precedence) or error, empty when it passed.
pub open spec fn unit_result_of_case(c: crate::junit_xml::TestCaseView) -> UnitTestResultView {
    match crate::junit_xml::classification(c) {
        crate::junit_xml::TestOutcomeView::Passed => UnitTestResultView {
            name: c.name,
            passed: true,
            message: Seq::empty(),
        },
        crate::junit_xml::TestOutcomeView::Failed(m) => UnitTestResultView {
            name: c.name,
            passed: false,
            message: m,
        },
        crate::junit_xml::TestOutcomeView::Errored(m) => UnitTestResultView {
            name: c.name,
            passed: false,
            message: m,
        },
    }
}

/// One unit-test result per `<testcase>` child at or after position `i`,
/// in report order; other children contribute nothing.
pub open spec fn unit_results(children: Seq<TestSuiteChildView>, i: int) -> Seq<UnitTestResultView>
    decreases children.len() - i,
{
    if 0 <= i && i < children.len() {
        let rest = unit_results(children, i + 1);
        match children[i] {
            TestSuiteChildView::TestCase(c) => seq![unit_result_of_case(c)].add(rest),
            _ => rest,
        }
    } else {
        Seq::empty()
    }
}

/// The student's display name: first name, a space, last name.
pub open spec fn full_name(first: Seq<char>, last: Seq<char>) -> Seq<char> {
    first + " "@ + last
}

/// The result of a submission whose suite was parsed: one entry per test
/// case and an empty diagnostic.
pub open spec fn suite_result_spec(
    id: Seq<char>,
    first: Seq<char>,
    last: Seq<char>,
    suite: TestSuiteView,
) -> StudentResultView {
    StudentResultView {
        tests: unit_results(suite.children, 0),
        student_id: id,
        student_name: full_name(first, last),
        diagnostic: Seq::empty(),
    }
}

/// The placeholder result of a submission that failed before any test
/// outcome existed: no test entries, and the failure's diagnostic text.
pub open spec fn error_result_spec(
    id: Seq<char>,
    first: Seq<char>,
    last: Seq<char>,
    diagnostic: Seq<char>,
) -> StudentResultView {
    StudentResultView {
        tests: Seq::empty(),
        student_id: id,
        student_name: full_name(first, last),
        diagnostic: diagnostic,
    }
}

/// Builds the display name of a student.
fn full_name_x(first: &String, last: &String) -> (r: String)
    ensures
        r@ == full_name(first@, last@),
{
    let mut r = first.clone();
    r.append(" ");
    r.append(last.as_str());
    r
}

/// Turns a parsed suite into a student's result: one entry per test case,
/// `passed` and `message` derived from the case's classification, and an
/// empty diagnostic.
pub fn student_result_of_suite(
    id: &String,
    first: &String,
    last: &String,
    suite: &TestSuite,
) -> (r: StudentResult)
    ensures
        r@ == suite_result_spec(id@, first@, last@, suite@),
{
    let ghost cv = suite@.children;
    let mut tests: Vec<UnitTestResult> = Vec::new();
    let mut i = suite.children.len();
    proof {
        assert(tests@.map(|k: int, u: UnitTestResult| u@) =~= unit_results(cv, i as int));
    }
    while i > 0
        invariant
            cv == suite@.children,
            cv.len() == suite.children.len(),
            i <= suite.children.len(),
            tests@.map(|k: int, u: UnitTestResult| u@) == unit_results(cv, i as int),
        decreases i,
    {
        i = i - 1;
        match &suite.children[i] {
            crate::junit_xml::TestSuiteChild::TestCase(c) => {
                let u = match c.classify() {
                    crate::junit_xml::TestOutcome::Passed => UnitTestResult {
                        name: c.name.clone(),
                        passed: true,
                        message: String::new(),
                    },
                    crate::junit_xml::TestOutcome::Failed(m) => UnitTestResult {
                        name: c.name.clone(),
                        passed: false,
                        message: m,
                    },
                    crate::junit_xml::TestOutcome::Errored(m) => UnitTestResult {
                        name: c.name.clone(),
                        passed: false,
                        message: m,
                    },
                };
                let ghost old_tests = tests@;
                let ghost uv = u@;
                tests.insert(0, u);
                proof {
                    assert(uv == unit_result_of_case(cv[i as int]->TestCase_0));
                    assert(tests@.map(|k: int, x: UnitTestResult| x@) =~= seq![uv].add(
                        old_tests.map(|k: int, x: UnitTestResult| x@),
                    ));
                }
            },
            _ => {},
        }
    }
    StudentResult {
        tests,
        student_id: id.clone(),
        student_name: full_name_x(first, last),
        diagnostic: String::new(),
    }
}

/// Turns a contained failure into a student's placeholder result: no test
/// entries, and the error's diagnostic text.
pub fn student_result_of_error(
    id: &String,
    first: &String,
    last: &String,
    e: &GradeError,
) -> (r: StudentResult)
    ensures
        r@ == error_result_spec(id@, first@, last@, message_of(*e)),
{
    let r = StudentResult {
        tests: Vec::new(),
        student_id: id.clone(),
        student_name: full_name_x(first, last),
        diagnostic: e.message(),
    };
    proof {
        assert(r@.tests =~= Seq::<UnitTestResultView>::empty());
    }
    r
}

/// The external build tool's outcome: whether it exited zero, and its
/// captured stderr.
pub struct BuildResult {
    pub success: bool,
    pub stderr: String,
}

/// What a worker's result must be, given its build outcome and, when the
/// build succeeded, the text of the report file the runner left (or `None`
/// when it crashed or left none): a failed build skips testing and records
/// the compiler's diagnostic; a missing report records a runner failure; an
/// unparsable report records a parse error; a parsed report yields one
/// entry per test case.
pub open spec fn worker_result_spec(
    id: Seq<char>,
    first: Seq<char>,
    last: Seq<char>,
    build_success: bool,
    build_stderr: Seq<char>,
    report: Option<Seq<char>>,
) -> StudentResultView {
    if !build_success {
        error_result_spec(id, first, last, "Build failed: "@ + build_stderr)
    } else {
        match report {
            None => error_result_spec(
                id,
                first,
                last,
                message_of(GradeError::TestRunnerFailure),
            ),
            Some(text) => match parse_report(text) {
                Some(suite) => suite_result_spec(
                    id,
                    first,
                    last,
                    suite,
                ),
                None => error_result_spec(id, first, last, message_of(GradeError::ReportParseError)),
            },
        }
    }
}

/// The whole decision pipeline of one worker, from the outcomes of its
/// external steps to its student result.  Every failure is contained here:
/// whatever the build, the runner and the report file did, the worker
/// yields a result and never aborts the batch.
pub fn worker_result(
    sub: &crate::discover::Submission,
    build: &BuildResult,
    report_text: Option<&String>,
) -> (r: StudentResult)
    ensures
        r@ == worker_result_spec(
            sub@.id,
            sub@.first_name,
            sub@.last_name,
            build.success,
            build.stderr@,
            match report_text {
                Some(t) => Some(t@),
                None => None,
            },
        ),
{
    if !build.success {
        student_result_of_error(
            &sub.id,
            &sub.first_name,
            &sub.last_name,
            &GradeError::BuildFailure(build.stderr.clone()),
        )
    } else {
        match report_text {
            None => student_result_of_error(
                &sub.id,
                &sub.first_name,
                &sub.last_name,
                &GradeError::TestRunnerFailure,
            ),
            Some(text) => match crate::parse::parse_report_str(text.as_str()) {
                Ok(suite) => student_result_of_suite(
                    &sub.id,
                    &sub.first_name,
                    &sub.last_name,
                    &suite,
                ),
                Err(_) => student_result_of_error(
                    &sub.id,
                    &sub.first_name,
                    &sub.last_name,
                    &GradeError::ReportParseError,
                ),
            },
        }
    }
}

/// Collects completed worker results into the batch report, in the order
/// they are handed in (completion order).
pub fn collect_results(results: Vec<StudentResult>) -> (r: TestResult)
    ensures
        r@.results == results@.map(|i: int, s: StudentResult| s@),
{
    TestResult { results }
}

/// Relies on std's String::push: appends exactly the given character.
#[verifier::external_body]
fn push_char(s: &mut String, c: char)
    ensures
        final(s)@ == old(s)@.push(c),
{
    s.push(c);
}

/// A character as it appears inside a serialized JSON string: quotes and
/// backslashes get a backslash escape, everything else is itself.
pub open spec fn esc_char(c: char) -> Seq<char> {
    if c == '"' || c == '\\' {
        seq!['\\', c]
    } else {
        seq![c]
    }
}

/// A string's characters as they appear inside a serialized JSON string.
pub open spec fn esc(s: Seq<char>) -> Seq<char>
    decreases s.len(),
{
    if s.len() == 0 {
        Seq::empty()
    } else {
        esc_char(s[0]).add(esc(s.drop_first()))
    }
}

/// A serialized JSON string: the escaped characters between quotes.
pub open spec fn jstr(t: Seq<char>) -> Seq<char> {
    seq!['"'].add(esc(t)).add(seq!['"'])
}

/// The serialized form of one unit-test result.
pub open spec fn json_of_utr(u: UnitTestResultView) -> Seq<char> {
    "{\"name\":"@ + jstr(u.name) + ",\"passed\":"@ + (if u.passed {
        "true"@
    } else {
        "false"@
    }) + ",\"message\":"@ + jstr(u.message) + "}"@
}

/// The serialized unit-test results at or after position `i`, joined by
/// commas.
pub open spec fn json_of_utrs(l: Seq<UnitTestResultView>, i: int) -> Seq<char>
    decreases l.len() - i,
{
    if 0 <= i && i < l.len() {
        if i + 1 == l.len() {
            json_of_utr(l[i])
        } else {
            json_of_utr(l[i]) + ","@ + json_of_utrs(l, i + 1)
        }
    } else {
        Seq::empty()
    }
}

/// The serialized form of one student result.
pub open spec fn json_of_sr(r: StudentResultView) -> Seq<char> {
    "{\"tests\":["@ + json_of_utrs(r.tests, 0) + "],\"student_id\":"@ + jstr(r.student_id)
        + ",\"student_name\":"@ + jstr(r.student_name) + ",\"diagnostic\":"@ + jstr(r.diagnostic)
        + "}"@
}

/// The serialized student results at or after position `i`, joined by
/// commas.
pub open spec fn json_of_srs(l: Seq<StudentResultView>, i: int) -> Seq<char>
    decreases l.len() - i,
{
    if 0 <= i && i < l.len() {
        if i + 1 == l.len() {
            json_of_sr(l[i])
        } else {
            json_of_sr(l[i]) + ","@ + json_of_srs(l, i + 1)
        }
    } else {
        Seq::empty()
    }
}

/// The serialized form of a whole batch report.
pub open spec fn json_of_batch(b: TestResultView) -> Seq<char> {
    "{\"results\":["@ + json_of_srs(b.results, 0) + "]}"@
}

/// Escapes the characters of `s` from position `i` on.
fn escape_str(s: &str, i: usize, n: usize) -> (r: String)
    requires
        n == s@.len(),
        i <= n,
    ensures
        r@ == esc(s@.skip(i as int)),
    decreases n - i,
{
    if i == n {
        let r = String::new();
        proof {
            assert(s@.skip(i as int).len() == 0);
        }
        r
    } else {
        let c = s.get_char(i);
        let rest = escape_str(s, i + 1, n);
        let mut out = String::new();
        if c == '"' || c == '\\' {
            push_char(&mut out, '\\');
        }
        push_char(&mut out, c);
        out.append(rest.as_str());
        proof {
            assert(s@.skip(i as int)[0] == s@[i as int]);
            assert(s@.skip(i as int).drop_first() =~= s@.skip(i as int + 1));
            assert(out@ =~= esc_char(s@[i as int]).add(esc(s@.skip(i as int + 1))));
        }
        out
    }
}

/// Serializes one JSON string: quotes around the escaped characters.
fn jstr_x(t: &str) -> (r: String)
    ensures
        r@ == jstr(t@),
{
    let n = t.unicode_len();
    let mut out = String::new();
    push_char(&mut out, '"');
    let e = escape_str(t, 0, n);
    out.append(e.as_str());
    push_char(&mut out, '"');
    proof {
        assert(t@.skip(0) =~= t@);
        assert(out@ =~= jstr(t@));
    }
    out
}

/// Serializes one unit-test result.
fn json_of_utr_x(u: &UnitTestResult) -> (r: String)
    ensures
        r@ == json_of_utr(u@),
{
    let mut out = "{\"name\":".to_owned();
    let s1 = jstr_x(u.name.as_str());
    out.append(s1.as_str());
    out.append(",\"passed\":");
    if u.passed {
        out.append("true");
    } else {
        out.append("false");
    }
    out.append(",\"message\":");
    let s2 = jstr_x(u.message.as_str());
    out.append(s2.as_str());
    out.append("}");
    out
}

/// Serializes the unit-test results from position `i` on.
fn json_of_utrs_x(l: &Vec<UnitTestResult>, i: usize) -> (r: String)
    requires
        i <= l.len(),
    ensures
        r@ == json_of_utrs(l@.map(|k: int, u: UnitTestResult| u@), i as int),
    decreases l.len() - i,
{
    let ghost lv = l@.map(|k: int, u: UnitTestResult| u@);
    if i == l.len() {
        String::new()
    } else {
        let mut out = json_of_utr_x(&l[i]);
        if i + 1 < l.len() {
            out.append(",");
            let rest = json_of_utrs_x(l, i + 1);
            out.append(rest.as_str());
        }
        out
    }
}

/// Serializes one student result.
fn json_of_sr_x(r: &StudentResult) -> (out: String)
    ensures
        out@ == json_of_sr(r@),
{
    let mut out = "{\"tests\":[".to_owned();
    let s0 = json_of_utrs_x(&r.tests, 0);
    out.append(s0.as_str());
    out.append("],\"student_id\":");
    let s1 = jstr_x(r.student_id.as_str());
    out.append(s1.as_str());
    out.append(",\"student_name\":");
    let s2 = jstr_x(r.student_name.as_str());
    out.append(s2.as_str());
    out.append(",\"diagnostic\":");
    let s3 = jstr_x(r.diagnostic.as_str());
    out.append(s3.as_str());
    out.append("}");
    out
}

/// Serializes the student results from position `i` on.
fn json_of_srs_x(l: &Vec<StudentResult>, i: usize) -> (r: String)
    requires
        i <= l.len(),
    ensures
        r@ == json_of_srs(l@.map(|k: int, s: StudentResult| s@), i as int),
    decreases l.len() - i,
{
    if i == l.len() {
        String::new()
    } else {
        let mut out = json_of_sr_x(&l[i]);
        if i + 1 < l.len() {
            out.append(",");
            let rest = json_of_srs_x(l, i + 1);
            out.append(rest.as_str());
        }
        out
    }
}

/// Serializes a whole batch report into the uploaded JSON document.
pub fn serialize_batch(b: &TestResult) -> (r: String)
    ensures
        r@ == json_of_batch(b@),
{
    let mut out = "{\"results\":[".to_owned();
    let s0 = json_of_srs_x(&b.results, 0);
    out.append(s0.as_str());
    out.append("]}");
    out
}

/// The position after `lit` when it appears verbatim at `i`.
pub open spec fn expect_lit(s: Seq<char>, i: int, lit: Seq<char>) -> Option<int> {
    if 0 <= i && i + lit.len() <= s.len() && s.subrange(i, i + lit.len()) == lit {
        Some(i + lit.len())
    } else {
        None
    }
}

/// A serialized JSON string read from right after its opening quote:
/// unescapes `\"` and `\\` and stops at the first unescaped quote.  Yields
/// the content and the position after the closing quote.
pub open spec fn parse_jstring(s: Seq<char>, i: int) -> Option<(Seq<char>, int)>
    decreases s.len() - i,
{
    if 0 <= i && i < s.len() {
        if s[i] == '"' {
            Some((Seq::empty(), i + 1))
        } else if s[i] == '\\' {
            if i + 1 < s.len() && (s[i + 1] == '"' || s[i + 1] == '\\') {
                match parse_jstring(s, i + 2) {
                    Some(r) => Some((seq![s[i + 1]].add(r.0), r.1)),
                    None => None,
                }
            } else {
                None
            }
        } else {
            match parse_jstring(s, i + 1) {
                Some(r) => Some((seq![s[i]].add(r.0), r.1)),
                None => None,
            }
        }
    } else {
        None
    }
}

/// A serialized boolean.
pub open spec fn parse_jbool(s: Seq<char>, i: int) -> Option<(bool, int)> {
    match expect_lit(s, i, "true"@) {
        Some(e) => Some((true, e)),
        None => match expect_lit(s, i, "false"@) {
            Some(e) => Some((false, e)),
            None => None,
        },
    }
}

/// One serialized unit-test result starting at `i`.
pub open spec fn parse_utr_j(s: Seq<char>, i: int) -> Option<(UnitTestResultView, int)> {
    match expect_lit(s, i, "{\"name\":"@) {
        Some(i1) => if 0 <= i1 && i1 < s.len() && s[i1] == '"' {
            match parse_jstring(s, i1 + 1) {
                Some((nm, i2)) => match expect_lit(s, i2, ",\"passed\":"@) {
                    Some(i3) => match parse_jbool(s, i3) {
                        Some((p, i4)) => match expect_lit(s, i4, ",\"message\":"@) {
                            Some(i5) => if 0 <= i5 && i5 < s.len() && s[i5] == '"' {
                                match parse_jstring(s, i5 + 1) {
                                    Some((ms, i6)) => match expect_lit(s, i6, "}"@) {
                                        Some(i7) => Some(
                                            (
                                                UnitTestResultView {
                                                    name: nm,
                                                    passed: p,
                                                    message: ms,
                                                },
                                                i7,
                                            ),
                                        ),
                                        None => None,
                                    },
                                    None => None,
                                }
                            } else {
                                None
                            },
                            None => None,
                        },
                        None => None,
                    },
                    None => None,
                },
                None => None,
            }
        } else {
            None
        },
        None => None,
    }
}

/// A comma-separated list of serialized unit-test results starting at `i`.
pub open spec fn parse_utrs_j(s: Seq<char>, i: int) -> Option<(Seq<UnitTestResultView>, int)>
    decreases s.len() - i,
{
    match parse_utr_j(s, i) {
        Some((u, e)) => if e < s.len() && s[e] == ',' {
            if i < e + 1 && e + 1 <= s.len() {
                match parse_utrs_j(s, e + 1) {
                    Some(r) => Some((seq![u].add(r.0), r.1)),
                    None => None,
                }
            } else {
                None
            }
        } else {
            Some((seq![u], e))
        },
        None => None,
    }
}

/// One serialized student result starting at `i`.
pub open spec fn parse_sr_j(s: Seq<char>, i: int) -> Option<(StudentResultView, int)> {
    match expect_lit(s, i, "{\"tests\":["@) {
        Some(i1) => {
            let tests_end = match expect_lit(s, i1, "],\"student_id\":"@) {
                Some(i2) => Some((Seq::<UnitTestResultView>::empty(), i2)),
                None => match parse_utrs_j(s, i1) {
                    Some((ts, e)) => match expect_lit(s, e, "],\"student_id\":"@) {
                        Some(i2) => Some((ts, i2)),
                        None => None,
                    },
                    None => None,
                },
            };
            match tests_end {
                Some((ts, i2)) => if 0 <= i2 && i2 < s.len() && s[i2] == '"' {
                    match parse_jstring(s, i2 + 1) {
                        Some((sid, i3)) => match expect_lit(s, i3, ",\"student_name\":"@) {
                            Some(i4) => if 0 <= i4 && i4 < s.len() && s[i4] == '"' {
                                match parse_jstring(s, i4 + 1) {
                                    Some((snm, i5)) => match expect_lit(
                                        s,
                                        i5,
                                        ",\"diagnostic\":"@,
                                    ) {
                                        Some(i6) => if 0 <= i6 && i6 < s.len() && s[i6] == '"' {
                                            match parse_jstring(s, i6 + 1) {
                                                Some((dg, i7)) => match expect_lit(s, i7, "}"@) {
                                                    Some(i8) => Some(
                                                        (
                                                            StudentResultView {
                                                                tests: ts,
                                                                student_id: sid,
                                                                student_name: snm,
                                                                diagnostic: dg,
                                                            },
                                                            i8,
                                                        ),
                                                    ),
                                                    None => None,
                                                },
                                                None => None,
                                            }
                                        } else {
                                            None
                                        },
                                        None => None,
                                    },
                                    None => None,
                                }
                            } else {
                                None
                            },
                            None => None,
                        },
                        None => None,
                    }
                } else {
                    None
                },
                None => None,
            }
        },
        None => None,
    }
}

/// A comma-separated list of serialized student results starting at `i`.
pub open spec fn parse_srs_j(s: Seq<char>, i: int) -> Option<(Seq<StudentResultView>, int)>
    decreases s.len() - i,
{
    match parse_sr_j(s, i) {
        Some((u, e)) => if e < s.len() && s[e] == ',' {
            if i < e + 1 && e + 1 <= s.len() {
                match parse_srs_j(s, e + 1) {
                    Some(r) => Some((seq![u].add(r.0), r.1)),
                    None => None,
                }
            } else {
                None
            }
        } else {
            Some((seq![u], e))
        },
        None => None,
    }
}

/// A whole serialized batch report: exactly the document the serializer
/// emits, with nothing after it.
pub open spec fn parse_batch(s: Seq<char>) -> Option<TestResultView> {
    match expect_lit(s, 0, "{\"results\":["@) {
        Some(i1) => match expect_lit(s, i1, "]}"@) {
            Some(e) => if e == s.len() {
                Some(TestResultView { results: Seq::empty() })
            } else {
                None
            },
            None => match parse_srs_j(s, i1) {
                Some((rs, e)) => match expect_lit(s, e, "]}"@) {
                    Some(e2) => if e2 == s.len() {
                        Some(TestResultView { results: rs })
                    } else {
                        None
                    },
                    None => None,
                },
                None => None,
            },
        },
        None => None,
    }
}

/// View of an executable unit-test result list.
pub open spec fn utrs_view(l: Seq<UnitTestResult>) -> Seq<UnitTestResultView> {
    l.map(|k: int, u: UnitTestResult| u@)
}

/// View of an executable student result list.
pub open spec fn srs_view(l: Seq<StudentResult>) -> Seq<StudentResultView> {
    l.map(|k: int, s: StudentResult| s@)
}

/// Consumes `lit` verbatim at `i`.
fn expect_lit_x(s: &str, i: usize, n: usize, lit: &str) -> (r: Option<usize>)
    requires
        n == s@.len(),
        i <= n,
    ensures
        match r {
            Some(e) => expect_lit(s@, i as int, lit@) == Some(e as int) && i <= e <= n,
            None => expect_lit(s@, i as int, lit@) is None,
        },
{
    let m = lit.unicode_len();
    if m <= n - i {
        if crate::parse::range_eq(s, i, i + m, lit) {
            Some(i + m)
        } else {
            None
        }
    } else {
        None
    }
}

/// Reads a serialized JSON string from right after its opening quote.
fn parse_jstring_x(s: &str, i: usize, n: usize) -> (r: Option<(String, usize)>)
    requires
        n == s@.len(),
        i <= n,
    ensures
        match r {
            Some(v) => parse_jstring(s@, i as int) == Some((v.0@, v.1 as int)) && i <= v.1 <= n,
            None => parse_jstring(s@, i as int) is None,
        },
    decreases n - i,
{
    if i < n {
        let c = s.get_char(i);
        if c == '"' {
            Some((String::new(), i + 1))
        } else if c == '\\' {
            if i + 1 < n {
                let c2 = s.get_char(i + 1);
                if c2 == '"' || c2 == '\\' {
                    match parse_jstring_x(s, i + 2, n) {
                        Some((rest, e)) => {
                            let mut out = String::new();
                            push_char(&mut out, c2);
                            out.append(rest.as_str());
                            proof {
                                assert(out@ =~= seq![s@[i as int + 1]].add(rest@));
                            }
                            Some((out, e))
                        },
                        None => None,
                    }
                } else {
                    None
                }
            } else {
                None
            }
        } else {
            match parse_jstring_x(s, i + 1, n) {
                Some((rest, e)) => {
                    let mut out = String::new();
                    push_char(&mut out, c);
                    out.append(rest.as_str());
                    proof {
                        assert(out@ =~= seq![s@[i as int]].add(rest@));
                    }
                    Some((out, e))
                },
                None => None,
            }
        }
    } else {
        None
    }
}

/// Reads a serialized boolean.
fn parse_jbool_x(s: &str, i: usize, n: usize) -> (r: Option<(bool, usize)>)
    requires
        n == s@.len(),
        i <= n,
    ensures
        match r {
            Some(v) => parse_jbool(s@, i as int) == Some((v.0, v.1 as int)) && i <= v.1 <= n,
            None => parse_jbool(s@, i as int) is None,
        },
{
    match expect_lit_x(s, i, n, "true") {
        Some(e) => Some((true, e)),
        None => match expect_lit_x(s, i, n, "false") {
            Some(e) => Some((false, e)),
            None => None,
        },
    }
}

/// Reads one serialized unit-test result.
fn parse_utr_x(s: &str, i: usize, n: usize) -> (r: Option<(UnitTestResult, usize)>)
    requires
        n == s@.len(),
        i <= n,
    ensures
        match r {
            Some(v) => parse_utr_j(s@, i as int) == Some((v.0@, v.1 as int)) && i <= v.1 <= n,
            None => parse_utr_j(s@, i as int) is None,
        },
{
    let i1 = match expect_lit_x(s, i, n, "{\"name\":") {
        Some(i1) => i1,
        None => {
            return None;
        },
    };
    if !(i1 < n && s.get_char(i1) == '"') {
        return None;
    }
    let (nm, i2) = match parse_jstring_x(s, i1 + 1, n) {
        Some(v) => v,
        None => {
            return None;
        },
    };
    let i3 = match expect_lit_x(s, i2, n, ",\"passed\":") {
        Some(v) => v,
        None => {
            return None;
        },
    };
    let (p, i4) = match parse_jbool_x(s, i3, n) {
        Some(v) => v,
        None => {
            return None;
        },
    };
    let i5 = match expect_lit_x(s, i4, n, ",\"message\":") {
        Some(v) => v,
        None => {
            return None;
        },
    };
    if !(i5 < n && s.get_char(i5) == '"') {
        return None;
    }
    let (ms, i6) = match parse_jstring_x(s, i5 + 1, n) {
        Some(v) => v,
        None => {
            return None;
        },
    };
    let i7 = match expect_lit_x(s, i6, n, "}") {
        Some(v) => v,
        None => {
            return None;
        },
    };
    Some((UnitTestResult { name: nm, passed: p, message: ms }, i7))
}

/// Reads a comma-separated list of serialized unit-test results.
fn parse_utrs_x(s: &str, i: usize, n: usize) -> (r: Option<(Vec<UnitTestResult>, usize)>)
    requires
        n == s@.len(),
        i <= n,
    ensures
        match r {
            Some(v) => parse_utrs_j(s@, i as int) == Some((utrs_view(v.0@), v.1 as int)) && i
                <= v.1 <= n,
            None => parse_utrs_j(s@, i as int) is None,
        },
    decreases n - i,
{
    match parse_utr_x(s, i, n) {
        Some((u, e)) => if e < n && s.get_char(e) == ',' {
            match parse_utrs_x(s, e + 1, n) {
                Some((mut rest, e2)) => {
                    let ghost old_rest = rest@;
                    let ghost uv = u@;
                    rest.insert(0, u);
                    proof {
                        assert(utrs_view(rest@) =~= seq![uv].add(utrs_view(old_rest)));
                    }
                    Some((rest, e2))
                },
                None => None,
            }
        } else {
            let mut v: Vec<UnitTestResult> = Vec::new();
            let ghost uv = u@;
            v.push(u);
            proof {
                assert(utrs_view(v@) =~= seq![uv]);
            }
            Some((v, e))
        },
        None => None,
    }
}

/// Reads one serialized student result.
fn parse_sr_x(s: &str, i: usize, n: usize) -> (r: Option<(StudentResult, usize)>)
    requires
        n == s@.len(),
        i <= n,
    ensures
        match r {
            Some(v) => parse_sr_j(s@, i as int) == Some((v.0@, v.1 as int)) && i <= v.1 <= n,
            None => parse_sr_j(s@, i as int) is None,
        },
{
    let i1 = match expect_lit_x(s, i, n, "{\"tests\":[") {
        Some(v) => v,
        None => {
            return None;
        },
    };
    let (ts, i2) = match expect_lit_x(s, i1, n, "],\"student_id\":") {
        Some(i2) => {
            let v: Vec<UnitTestResult> = Vec::new();
            proof {
                assert(utrs_view(v@) =~= Seq::<UnitTestResultView>::empty());
            }
            (v, i2)
        },
        None => match parse_utrs_x(s, i1, n) {
            Some((ts, e)) => match expect_lit_x(s, e, n, "],\"student_id\":") {
                Some(i2) => (ts, i2),
                None => {
                    return None;
                },
            },
            None => {
                return None;
            },
        },
    };
    if !(i2 < n && s.get_char(i2) == '"') {
        return None;
    }
    let (sid, i3) = match parse_jstring_x(s, i2 + 1, n) {
        Some(v) => v,
        None => {
            return None;
        },
    };
    let i4 = match expect_lit_x(s, i3, n, ",\"student_name\":") {
        Some(v) => v,
        None => {
            return None;
        },
    };
    if !(i4 < n && s.get_char(i4) == '"') {
        return None;
    }
    let (snm, i5) = match parse_jstring_x(s, i4 + 1, n) {
        Some(v) => v,
        None => {
            return None;
        },
    };
    let i6 = match expect_lit_x(s, i5, n, ",\"diagnostic\":") {
        Some(v) => v,
        None => {
            return None;
        },
    };
    if !(i6 < n && s.get_char(i6) == '"') {
        return None;
    }
    let (dg, i7) = match parse_jstring_x(s, i6 + 1, n) {
        Some(v) => v,
        None => {
            return None;
        },
    };
    let i8 = match expect_lit_x(s, i7, n, "}") {
        Some(v) => v,
        None => {
            return None;
        },
    };
    let out = StudentResult { tests: ts, student_id: sid, student_name: snm, diagnostic: dg };
    proof {
        assert(out@.tests =~= utrs_view(out.tests@));
    }
    Some((out, i8))
}

/// Reads a comma-separated list of serialized student results.
fn parse_srs_x(s: &str, i: usize, n: usize) -> (r: Option<(Vec<StudentResult>, usize)>)
    requires
        n == s@.len(),
        i <= n,
    ensures
        match r {
            Some(v) => parse_srs_j(s@, i as int) == Some((srs_view(v.0@), v.1 as int)) && i <= v.1
                <= n,
            None => parse_srs_j(s@, i as int) is None,
        },
    decreases n - i,
{
    match parse_sr_x(s, i, n) {
        Some((u, e)) => if e < n && s.get_char(e) == ',' {
            match parse_srs_x(s, e + 1, n) {
                Some((mut rest, e2)) => {
                    let ghost old_rest = rest@;
                    let ghost uv = u@;
                    rest.insert(0, u);
                    proof {
                        assert(srs_view(rest@) =~= seq![uv].add(srs_view(old_rest)));
                    }
                    Some((rest, e2))
                },
                None => None,
            }
        } else {
            let mut v: Vec<StudentResult> = Vec::new();
            let ghost uv = u@;
            v.push(u);
            proof {
                assert(srs_view(v@) =~= seq![uv]);
            }
            Some((v, e))
        },
        None => None,
    }
}

/// Reads a whole serialized batch report: exactly the document
/// [`serialize_batch`] emits, with nothing after it.
pub fn parse_batch_str(s: &str) -> (r: Option<TestResult>)
    ensures
        match r {
            Some(t) => parse_batch(s@) == Some(t@),
            None => parse_batch(s@) is None,
        },
{
    let n = s.unicode_len();
    let i1 = match expect_lit_x(s, 0, n, "{\"results\":[") {
        Some(v) => v,
        None => {
            return None;
        },
    };
    match expect_lit_x(s, i1, n, "]}") {
        Some(e) => if e == n {
            let out = TestResult { results: Vec::new() };
            proof {
                assert(out@.results =~= Seq::<StudentResultView>::empty());
            }
            Some(out)
        } else {
            None
        },
        None => match parse_srs_x(s, i1, n) {
            Some((rs, e)) => match expect_lit_x(s, e, n, "]}") {
                Some(e2) => if e2 == n {
                    let out = TestResult { results: rs };
                    proof {
                        assert(out@.results =~= srs_view(out.results@));
                    }
                    Some(out)
                } else {
                    None
                },
                None => None,
            },
            None => None,
        },
    }
}

/// A window of `s` equal to `w` makes every sub-window of it equal to the
/// matching sub-window of `w`.
proof fn lemma_subrange_shift(s: Seq<char>, i: int, w: Seq<char>, off: int, n: int)
    requires
        0 <= i,
        i + w.len() <= s.len(),
        s.subrange(i, i + w.len()) == w,
        0 <= off,
        0 <= n,
        off + n <= w.len(),
    ensures
        s.subrange(i + off, i + off + n) == w.subrange(off, off + n),
{
    assert forall|k: int| 0 <= k < n implies #[trigger] s.subrange(i + off, i + off + n)[k]
        == w.subrange(off, off + n)[k] by {
        assert(s.subrange(i, i + w.len())[off + k] == s[i + off + k]);
    }
    assert(s.subrange(i + off, i + off + n) =~= w.subrange(off, off + n));
}

/// Reading a serialized string back: right after an opening quote, the
/// escaped characters of `t` followed by a closing quote parse to exactly
/// `t`, ending after that quote.
proof fn lemma_parse_jstring_inverts(s: Seq<char>, i: int, t: Seq<char>)
    requires
        0 <= i,
        i + esc(t).len() + 1 <= s.len(),
        s.subrange(i, i + esc(t).len()) == esc(t),
        s[i + esc(t).len()] == '"',
    ensures
        parse_jstring(s, i) == Some((t, i + esc(t).len() + 1)),
    decreases t.len(),
{
    let w = esc(t);
    let l = w.len() as int;
    if t.len() == 0 {
        assert(w.len() == 0);
    } else {
        let c = t[0];
        let t1 = t.drop_first();
        let l1 = esc(t1).len() as int;
        assert(w == esc_char(c).add(esc(t1)));
        if c == '"' || c == '\\' {
            assert(w[0] == '\\');
            assert(w[1] == c);
            assert(s.subrange(i, i + l)[0] == s[i]);
            assert(s.subrange(i, i + l)[1] == s[i + 1]);
            assert(s[i] == '\\');
            assert(s[i + 1] == c);
            lemma_subrange_shift(s, i, w, 2, l1);
            assert(w.subrange(2, 2 + l1) =~= esc(t1));
            lemma_parse_jstring_inverts(s, i + 2, t1);
            assert(seq![s[i + 1]].add(t1) =~= t);
        } else {
            assert(w[0] == c);
            assert(s.subrange(i, i + l)[0] == s[i]);
            assert(s[i] == c);
            lemma_subrange_shift(s, i, w, 1, l1);
            assert(w.subrange(1, 1 + l1) =~= esc(t1));
            lemma_parse_jstring_inverts(s, i + 1, t1);
            assert(seq![s[i]].add(t1) =~= t);
        }
    }
}

/// A window of `s` equal to the serialized form of `u` parses back to
/// exactly `u`, ending right after the window.
proof fn lemma_parse_utr_inverts(s: Seq<char>, i: int, u: UnitTestResultView)
    requires
        0 <= i,
        i + json_of_utr(u).len() <= s.len(),
        s.subrange(i, i + json_of_utr(u).len()) == json_of_utr(u),
    ensures
        parse_utr_j(s, i) == Some((u, i + json_of_utr(u).len())),
{
    reveal_strlit("{\"name\":");
    reveal_strlit(",\"passed\":");
    reveal_strlit("true");
    reveal_strlit("false");
    reveal_strlit(",\"message\":");
    reveal_strlit("}");
    let w = json_of_utr(u);
    let a1 = "{\"name\":"@;
    let q1 = jstr(u.name);
    let a2 = ",\"passed\":"@;
    let bl = if u.passed {
        "true"@
    } else {
        "false"@
    };
    let a3 = ",\"message\":"@;
    let q2 = jstr(u.message);
    let a4 = "}"@;
    let o1 = i + a1.len() as int;
    let o2 = o1 + q1.len() as int;
    let o3 = o2 + a2.len() as int;
    let o4 = o3 + bl.len() as int;
    let o5 = o4 + a3.len() as int;
    let o6 = o5 + q2.len() as int;
    let o7 = o6 + a4.len() as int;
    assert(w == a1 + q1 + a2 + bl + a3 + q2 + a4);
    assert(o7 == i + w.len());
    // the fixed markers
    assert(w.subrange(0, a1.len() as int) =~= a1);
    lemma_subrange_shift(s, i, w, 0, a1.len() as int);
    assert(expect_lit(s, i, a1) == Some(o1));
    assert(w.subrange(
        (o2 - i),
        (o2 - i) + a2.len() as int,
    ) =~= a2);
    lemma_subrange_shift(s, i, w, o2 - i, a2.len() as int);
    assert(expect_lit(s, o2, a2) == Some(o3));
    assert(w.subrange(
        (o4 - i),
        (o4 - i) + a3.len() as int,
    ) =~= a3);
    lemma_subrange_shift(s, i, w, o4 - i, a3.len() as int);
    assert(expect_lit(s, o4, a3) == Some(o5));
    assert(w.subrange(
        (o6 - i),
        (o6 - i) + a4.len() as int,
    ) =~= a4);
    lemma_subrange_shift(s, i, w, o6 - i, a4.len() as int);
    assert(expect_lit(s, o6, a4) == Some(o7));
    // the name string
    assert(w.subrange(o1 - i, (o1 - i) + q1.len() as int) =~= q1);
    lemma_subrange_shift(s, i, w, o1 - i, q1.len() as int);
    assert(s.subrange(o1, o2) == q1);
    assert(q1[0] == '"');
    assert(s.subrange(o1, o2)[0] == s[o1]);
    assert(s[o1] == '"');
    lemma_subrange_shift(s, o1, q1, 1, esc(u.name).len() as int);
    assert(q1.subrange(1, 1 + esc(u.name).len() as int) =~= esc(u.name));
    assert(s.subrange(o1, o2)[q1.len() - 1] == s[o2 - 1]);
    assert(q1[q1.len() - 1] == '"');
    lemma_parse_jstring_inverts(s, o1 + 1, u.name);
    assert(parse_jstring(s, o1 + 1) == Some((u.name, o2)));
    // the boolean
    assert(w.subrange(o3 - i, (o3 - i) + bl.len() as int) =~= bl);
    lemma_subrange_shift(s, i, w, o3 - i, bl.len() as int);
    assert(s.subrange(o3, o4) == bl);
    if u.passed {
        assert(expect_lit(s, o3, "true"@) == Some(o4));
    } else {
        assert(s.subrange(o3, o4)[0] == s[o3]);
        assert(s[o3] == 'f');
        if expect_lit(s, o3, "true"@) is Some {
            assert(s.subrange(o3, o3 + 4)[0] == s[o3]);
            assert(false);
        }
        assert(expect_lit(s, o3, "false"@) == Some(o4));
    }
    assert(parse_jbool(s, o3) == Some((u.passed, o4)));
    // the message string
    assert(w.subrange(o5 - i, (o5 - i) + q2.len() as int) =~= q2);
    lemma_subrange_shift(s, i, w, o5 - i, q2.len() as int);
    assert(s.subrange(o5, o6) == q2);
    assert(q2[0] == '"');
    assert(s.subrange(o5, o6)[0] == s[o5]);
    assert(s[o5] == '"');
    lemma_subrange_shift(s, o5, q2, 1, esc(u.message).len() as int);
    assert(q2.subrange(1, 1 + esc(u.message).len() as int) =~= esc(u.message));
    assert(s.subrange(o5, o6)[q2.len() - 1] == s[o6 - 1]);
    assert(q2[q2.len() - 1] == '"');
    lemma_parse_jstring_inverts(s, o5 + 1, u.message);
    assert(parse_jstring(s, o5 + 1) == Some((u.message, o6)));
    assert(UnitTestResultView { name: u.name, passed: u.passed, message: u.message } == u);
}

/// A window of `s` equal to the serialized tail of `l` from position `k`
/// on parses back to exactly that tail, provided no comma follows the
/// window (the serializer never puts one there).
proof fn lemma_parse_utrs_inverts(s: Seq<char>, i: int, l: Seq<UnitTestResultView>, k: int)
    requires
        0 <= k < l.len(),
        0 <= i,
        i + json_of_utrs(l, k).len() <= s.len(),
        s.subrange(i, i + json_of_utrs(l, k).len()) == json_of_utrs(l, k),
        i + json_of_utrs(l, k).len() == s.len() || s[i + json_of_utrs(l, k).len()] != ',',
    ensures
        parse_utrs_j(s, i) == Some((l.skip(k), i + json_of_utrs(l, k).len())),
    decreases l.len() - k,
{
    reveal_strlit(",");
    let w = json_of_utrs(l, k);
    let wu = json_of_utr(l[k]);
    if k + 1 == l.len() {
        assert(w == wu);
        lemma_parse_utr_inverts(s, i, l[k]);
        assert(seq![l[k]] =~= l.skip(k));
    } else {
        let w2 = json_of_utrs(l, k + 1);
        assert(w == wu + ","@ + w2);
        assert(w.subrange(0, wu.len() as int) =~= wu);
        lemma_subrange_shift(s, i, w, 0, wu.len() as int);
        lemma_parse_utr_inverts(s, i, l[k]);
        let e = i + wu.len() as int;
        assert(w[wu.len() as int] == ',');
        assert(s.subrange(i, i + w.len())[wu.len() as int] == s[e]);
        assert(s[e] == ',');
        assert(w.subrange(wu.len() as int + 1, w.len() as int) =~= w2);
        lemma_subrange_shift(s, i, w, wu.len() as int + 1, w2.len() as int);
        lemma_parse_utrs_inverts(s, e + 1, l, k + 1);
        assert(seq![l[k]].add(l.skip(k + 1)) =~= l.skip(k));
    }
}

/// A window of `s` equal to the serialized form of one student result
/// parses back to exactly that result.
#[verifier::rlimit(80)]
proof fn lemma_parse_sr_inverts(s: Seq<char>, i: int, r: StudentResultView)
    requires
        0 <= i,
        i + json_of_sr(r).len() <= s.len(),
        s.subrange(i, i + json_of_sr(r).len()) == json_of_sr(r),
    ensures
        parse_sr_j(s, i) == Some((r, i + json_of_sr(r).len())),
{
    reveal_strlit("{\"tests\":[");
    reveal_strlit("],\"student_id\":");
    reveal_strlit(",\"student_name\":");
    reveal_strlit(",\"diagnostic\":");
    reveal_strlit("}");
    reveal_strlit("{\"name\":");
    let w = json_of_sr(r);
    let b1 = "{\"tests\":["@;
    let lt = json_of_utrs(r.tests, 0);
    let b2 = "],\"student_id\":"@;
    let q1 = jstr(r.student_id);
    let b3 = ",\"student_name\":"@;
    let q2 = jstr(r.student_name);
    let b4 = ",\"diagnostic\":"@;
    let q3 = jstr(r.diagnostic);
    let b5 = "}"@;
    let o1 = i + b1.len() as int;
    let oe = o1 + lt.len() as int;
    let o2 = oe + b2.len() as int;
    let o3 = o2 + q1.len() as int;
    let o4 = o3 + b3.len() as int;
    let o5 = o4 + q2.len() as int;
    let o6 = o5 + b4.len() as int;
    let o7 = o6 + q3.len() as int;
    let o8 = o7 + b5.len() as int;
    assert(w == b1 + lt + b2 + q1 + b3 + q2 + b4 + q3 + b5);
    assert(o8 == i + w.len());
    assert(w.subrange(0, b1.len() as int) =~= b1);
    lemma_subrange_shift(s, i, w, 0, b1.len() as int);
    assert(expect_lit(s, i, b1) == Some(o1));
    assert(w.subrange(oe - i, (oe - i) + b2.len() as int) =~= b2);
    lemma_subrange_shift(s, i, w, oe - i, b2.len() as int);
    assert(expect_lit(s, oe, b2) == Some(o2));
    if r.tests.len() == 0 {
        assert(lt.len() == 0);
        assert(oe == o1);
        assert(r.tests =~= Seq::<UnitTestResultView>::empty());
    } else {
        // the list cannot be mistaken for its closing bracket
        assert(lt == json_of_utr(r.tests[0]) + ","@ + json_of_utrs(r.tests, 1) || lt
            == json_of_utr(r.tests[0]));
        assert(lt[0] == "{\"name\":"@[0]);
        assert(w.subrange(o1 - i, (o1 - i) + lt.len() as int) =~= lt);
        lemma_subrange_shift(s, i, w, o1 - i, lt.len() as int);
        assert(s.subrange(o1, oe)[0] == s[o1]);
        assert(s[o1] == '{');
        if expect_lit(s, o1, b2) is Some {
            assert(s.subrange(o1, o1 + b2.len())[0] == s[o1]);
            assert(false);
        }
        assert(s.subrange(o1, oe) == lt);
        assert(s[oe] == b2[0]) by {
            assert(s.subrange(i, i + w.len())[oe - i] == s[oe]);
            assert(w[oe - i] == b2[0]);
        }
        lemma_parse_utrs_inverts(s, o1, r.tests, 0);
        assert(r.tests.skip(0) =~= r.tests);
    }
    // student_id
    assert(w.subrange(o2 - i, (o2 - i) + q1.len() as int) =~= q1);
    lemma_subrange_shift(s, i, w, o2 - i, q1.len() as int);
    assert(s.subrange(o2, o3) == q1);
    assert(s.subrange(o2, o3)[0] == s[o2]);
    assert(s[o2] == '"');
    lemma_subrange_shift(s, o2, q1, 1, esc(r.student_id).len() as int);
    assert(q1.subrange(1, 1 + esc(r.student_id).len() as int) =~= esc(r.student_id));
    assert(s.subrange(o2, o3)[q1.len() - 1] == s[o3 - 1]);
    lemma_parse_jstring_inverts(s, o2 + 1, r.student_id);
    // ",\"student_name\":"
    assert(w.subrange(o3 - i, (o3 - i) + b3.len() as int) =~= b3);
    lemma_subrange_shift(s, i, w, o3 - i, b3.len() as int);
    assert(expect_lit(s, o3, b3) == Some(o4));
    // student_name
    assert(w.subrange(o4 - i, (o4 - i) + q2.len() as int) =~= q2);
    lemma_subrange_shift(s, i, w, o4 - i, q2.len() as int);
    assert(s.subrange(o4, o5) == q2);
    assert(s.subrange(o4, o5)[0] == s[o4]);
    assert(s[o4] == '"');
    lemma_subrange_shift(s, o4, q2, 1, esc(r.student_name).len() as int);
    assert(q2.subrange(1, 1 + esc(r.student_name).len() as int) =~= esc(r.student_name));
    assert(s.subrange(o4, o5)[q2.len() - 1] == s[o5 - 1]);
    lemma_parse_jstring_inverts(s, o4 + 1, r.student_name);
    // ",\"diagnostic\":"
    assert(w.subrange(o5 - i, (o5 - i) + b4.len() as int) =~= b4);
    lemma_subrange_shift(s, i, w, o5 - i, b4.len() as int);
    assert(expect_lit(s, o5, b4) == Some(o6));
    // diagnostic
    assert(w.subrange(o6 - i, (o6 - i) + q3.len() as int) =~= q3);
    lemma_subrange_shift(s, i, w, o6 - i, q3.len() as int);
    assert(s.subrange(o6, o7) == q3);
    assert(s.subrange(o6, o7)[0] == s[o6]);
    assert(s[o6] == '"');
    lemma_subrange_shift(s, o6, q3, 1, esc(r.diagnostic).len() as int);
    assert(q3.subrange(1, 1 + esc(r.diagnostic).len() as int) =~= esc(r.diagnostic));
    assert(s.subrange(o6, o7)[q3.len() - 1] == s[o7 - 1]);
    lemma_parse_jstring_inverts(s, o6 + 1, r.diagnostic);
    // closing brace
    assert(w.subrange(o7 - i, (o7 - i) + b5.len() as int) =~= b5);
    lemma_subrange_shift(s, i, w, o7 - i, b5.len() as int);
    assert(expect_lit(s, o7, b5) == Some(o8));
    assert(StudentResultView {
        tests: r.tests,
        student_id: r.student_id,
        student_name: r.student_name,
        diagnostic: r.diagnostic,
    } == r);
}

/// A window of `s` equal to the serialized tail of the student results from
/// position `k` on parses back to exactly that tail, provided no comma
/// follows the window.
#[verifier::rlimit(80)]
proof fn lemma_parse_srs_inverts(s: Seq<char>, i: int, l: Seq<StudentResultView>, k: int)
    requires
        0 <= k < l.len(),
        0 <= i,
        i + json_of_srs(l, k).len() <= s.len(),
        s.subrange(i, i + json_of_srs(l, k).len()) == json_of_srs(l, k),
        i + json_of_srs(l, k).len() == s.len() || s[i + json_of_srs(l, k).len()] != ',',
    ensures
        parse_srs_j(s, i) == Some((l.skip(k), i + json_of_srs(l, k).len())),
    decreases l.len() - k,
{
    reveal_strlit(",");
    let w = json_of_srs(l, k);
    let wu = json_of_sr(l[k]);
    if k + 1 == l.len() {
        assert(w == wu);
        lemma_parse_sr_inverts(s, i, l[k]);
        assert(seq![l[k]] =~= l.skip(k));
    } else {
        let w2 = json_of_srs(l, k + 1);
        assert(w == wu + ","@ + w2);
        assert(w.subrange(0, wu.len() as int) =~= wu);
        lemma_subrange_shift(s, i, w, 0, wu.len() as int);
        lemma_parse_sr_inverts(s, i, l[k]);
        let e = i + wu.len() as int;
        assert(w[wu.len() as int] == ',');
        assert(s.subrange(i, i + w.len())[wu.len() as int] == s[e]);
        assert(s[e] == ',');
        assert(w.subrange(wu.len() as int + 1, w.len() as int) =~= w2);
        lemma_subrange_shift(s, i, w, wu.len() as int + 1, w2.len() as int);
        lemma_parse_srs_inverts(s, e + 1, l, k + 1);
        assert(seq![l[k]].add(l.skip(k + 1)) =~= l.skip(k));
    }
}

/// The serialized form of a non-empty student-result tail starts with an
/// opening brace.
proof fn lemma_srs_first_char(l: Seq<StudentResultView>, k: int)
    requires
        0 <= k < l.len(),
    ensures
        json_of_srs(l, k).len() > 0,
        json_of_srs(l, k)[0] == '{',
{
    reveal_strlit("{\"tests\":[");
    assert(json_of_sr(l[k])[0] == "{\"tests\":["@[0]);
}

/// The empty-batch case of the round trip.
#[verifier::rlimit(80)]
proof fn lemma_round_trip_empty(b: TestResultView)
    requires
        b.results.len() == 0,
    ensures
        parse_batch(json_of_batch(b)) == Some(b),
{
    reveal_strlit("{\"results\":[");
    reveal_strlit("]}");
    let s = json_of_batch(b);
    let c1 = "{\"results\":["@;
    let lr = json_of_srs(b.results, 0);
    let c2 = "]}"@;
    let o1 = 0 + c1.len() as int;
    let oe = o1 + lr.len() as int;
    let o2 = oe + c2.len() as int;
    assert(s == c1 + lr + c2);
    assert(lr.len() == 0);
    assert(o2 == s.len());
    assert(s.subrange(0, c1.len() as int) =~= c1);
    assert(expect_lit(s, 0, c1) == Some(o1));
    assert(s.subrange(oe, oe + c2.len() as int) =~= c2);
    assert(expect_lit(s, oe, c2) == Some(o2));
    assert(b.results =~= Seq::<StudentResultView>::empty());
    assert(TestResultView { results: Seq::<StudentResultView>::empty() } == b);
}

/// The non-empty case of the round trip.
#[verifier::rlimit(80)]
proof fn lemma_round_trip_nonempty(b: TestResultView)
    requires
        b.results.len() > 0,
    ensures
        parse_batch(json_of_batch(b)) == Some(b),
{
    reveal_strlit("{\"results\":[");
    reveal_strlit("]}");
    reveal_strlit("{\"tests\":[");
    let s = json_of_batch(b);
    let c1 = "{\"results\":["@;
    let lr = json_of_srs(b.results, 0);
    let c2 = "]}"@;
    let o1 = 0 + c1.len() as int;
    let oe = o1 + lr.len() as int;
    let o2 = oe + c2.len() as int;
    assert(s == c1 + lr + c2);
    assert(o2 == s.len());
    assert(s.subrange(0, c1.len() as int) =~= c1);
    assert(expect_lit(s, 0, c1) == Some(o1));
    assert(s.subrange(oe, oe + c2.len() as int) =~= c2);
    assert(expect_lit(s, oe, c2) == Some(o2));
    lemma_srs_first_char(b.results, 0);
    assert(lr[0] == '{');
    assert(s.subrange(o1, oe) =~= lr);
    assert(s.subrange(o1, oe)[0] == s[o1]);
    assert(s[o1] == '{');
    if expect_lit(s, o1, c2) is Some {
        assert(s.subrange(o1, o1 + c2.len())[0] == s[o1]);
        assert(false);
    }
    assert(s[oe] == c2[0]);
    lemma_parse_srs_inverts(s, o1, b.results, 0);
    assert(b.results.skip(0) =~= b.results);
    assert(TestResultView { results: b.results } == b);
}

/// Serializing a batch report and re-parsing the document yields the same
/// report, field for field: the canonical parser inverts the serializer on
/// every batch.
pub proof fn lemma_serialize_parse_round_trip(b: TestResultView)
    ensures
        parse_batch(json_of_batch(b)) == Some(b),
{
    if b.results.len() == 0 {
        lemma_round_trip_empty(b);
    } else {
        lemma_round_trip_nonempty(b);
    }
}

} // verus!
