//! Data model for the JUnit-style XML report the external test runner
//! deposits after a run, together with the per-case outcome classification.
//!
//! The report schema is
//! `<testsuite name tests failures errors time>` containing an optional
//! `<properties/>`, any number of `<testcase name classname time>` elements
//! (each with an optional `<failure message type>text</failure>` and an
//! optional `<error>text</error>`), and optional `<system-out>` /
//! `<system-err>` text elements.

use vstd::prelude::*;

verus! {

/// Mathematical model of a parsed `<failure>` element.
pub ghost struct FailureView {
    pub message: Seq<char>,
    pub failure_type: Seq<char>,
    pub value: Seq<char>,
}

/// Mathematical model of a parsed `<testcase>` element.
pub ghost struct TestCaseView {
    pub name: Seq<char>,
    pub classname: Seq<char>,
    pub time: Seq<char>,
    pub failure: Option<FailureView>,
    pub error: Option<Seq<char>>,
}

/// Mathematical model of one direct child of the `<testsuite>` root.
pub ghost enum TestSuiteChildView {
    Properties,
    TestCase(TestCaseView),
    SystemOut(Seq<char>),
    SystemErr(Seq<char>),
}

/// Mathematical model of a whole parsed report.
pub ghost struct TestSuiteView {
    pub name: Seq<char>,
    pub tests: Seq<char>,
    pub failures: Seq<char>,
    pub errors: Seq<char>,
    pub time: Seq<char>,
    pub children: Seq<TestSuiteChildView>,
}

/// A `<failure>` element: the assertion message, the failure type, and the
/// element's text content.
pub struct Failure {
    pub message: String,
    pub failure_type: String,
    pub value: String,
}

impl View for Failure {
    type V = FailureView;

    open spec fn view(&self) -> FailureView {
        FailureView { message: self.message@, failure_type: self.failure_type@, value: self.value@ }
    }
}

/// A `<testcase>` element: identity, duration, and the optional failure and
/// error children that decide its outcome.
pub struct TestCase {
    pub name: String,
    pub classname: String,
    pub time: String,
    pub failure: Option<Failure>,
    pub error: Option<String>,
}

impl View for TestCase {
    type V = TestCaseView;

    open spec fn view(&self) -> TestCaseView {
        TestCaseView {
            name: self.name@,
            classname: self.classname@,
            time: self.time@,
            failure: match self.failure {
                Some(f) => Some(f@),
                None => None,
            },
            error: match self.error {
                Some(e) => Some(e@),
                None => None,
            },
        }
    }
}

/// The empty `<properties/>` element.
pub struct Properties {}

/// One direct child of the `<testsuite>` root element.
pub enum TestSuiteChild {
    Properties(Properties),
    TestCase(TestCase),
    SystemOut(String),
    SystemErr(String),
}

impl View for TestSuiteChild {
    type V = TestSuiteChildView;

    open spec fn view(&self) -> TestSuiteChildView {
        match self {
            TestSuiteChild::Properties(_) => TestSuiteChildView::Properties,
            TestSuiteChild::TestCase(c) => TestSuiteChildView::TestCase(c@),
            TestSuiteChild::SystemOut(s) => TestSuiteChildView::SystemOut(s@),
            TestSuiteChild::SystemErr(s) => TestSuiteChildView::SystemErr(s@),
        }
    }
}

/// A whole parsed report: the suite-level counters as the runner wrote them,
/// and the ordered children.  The counters are kept only for cross-checking;
/// outcomes are always derived per test case.
pub struct TestSuite {
    pub name: String,
    pub tests: String,
    pub failures: String,
    pub errors: String,
    pub time: String,
    pub children: Vec<TestSuiteChild>,
}

impl View for TestSuite {
    type V = TestSuiteView;

    open spec fn view(&self) -> TestSuiteView {
        TestSuiteView {
            name: self.name@,
            tests: self.tests@,
            failures: self.failures@,
            errors: self.errors@,
            time: self.time@,
            children: self.children@.map(|i: int, c: TestSuiteChild| c@),
        }
    }
}

/// The outcome of one test case, derived from the presence of its failure
/// and error children.
pub enum TestOutcome {
    Passed,
    Failed(String),
    Errored(String),
}

/// What `classify` must return for a given test case: no failure and no
/// error means the case passed; a failure takes precedence over an error and
/// carries the failure message; otherwise the error text is carried.
pub open spec fn classification(c: TestCaseView) -> TestOutcomeView {
    match c.failure {
        Some(f) => TestOutcomeView::Failed(f.message),
        None => match c.error {
            Some(e) => TestOutcomeView::Errored(e),
            None => TestOutcomeView::Passed,
        },
    }
}

/// Mathematical model of a test-case outcome.
pub ghost enum TestOutcomeView {
    Passed,
    Failed(Seq<char>),
    Errored(Seq<char>),
}

impl View for TestOutcome {
    type V = TestOutcomeView;

    open spec fn view(&self) -> TestOutcomeView {
        match self {
            TestOutcome::Passed => TestOutcomeView::Passed,
            TestOutcome::Failed(m) => TestOutcomeView::Failed(m@),
            TestOutcome::Errored(m) => TestOutcomeView::Errored(m@),
        }
    }
}

impl TestCase {
    /// Classifies this case: Passed without failure or error, Failed with
    /// the failure's message when a failure is present (also when an error
    /// is present too), Errored with the error text otherwise.
    pub fn classify(&self) -> (r: TestOutcome)
        ensures
            r@ == classification(self@),
    {
        match &self.failure {
            Some(f) => TestOutcome::Failed(clone_str(&f.message)),
            None => match &self.error {
                Some(e) => TestOutcome::Errored(clone_str(e)),
                None => TestOutcome::Passed,
            },
        }
    }
}

/// Clones a string; the copy has the same characters.
fn clone_str(s: &String) -> (r: String)
    ensures
        r@ == s@,
{
    s.clone()
}

/// Whether `s` is a non-empty run of decimal digits.
pub open spec fn is_digits(s: Seq<char>) -> bool {
    s.len() > 0 && forall|k: int| 0 <= k < s.len() ==> '0' <= #[trigger] s[k] && s[k] <= '9'
}

/// The number a digit string denotes (leading zeros allowed).
pub open spec fn nat_of(s: Seq<char>) -> int
    decreases s.len(),
{
    if s.len() == 0 {
        0
    } else {
        nat_of(s.subrange(0, s.len() - 1)) * 10 + (s[s.len() - 1] as int - '0' as int)
    }
}

/// Counts the `<testcase>` children at or after position `i` whose
/// classification matches: all of them, the failed ones (failure present),
/// or the errored ones (error present without failure).
pub open spec fn count_cases(children: Seq<TestSuiteChildView>, i: int, which: CounterKind) -> int
    decreases children.len() - i,
{
    if 0 <= i && i < children.len() {
        let rest = count_cases(children, i + 1, which);
        match children[i] {
            TestSuiteChildView::TestCase(c) => if counted(c, which) {
                1 + rest
            } else {
                rest
            },
            _ => rest,
        }
    } else {
        0
    }
}

/// Which suite-level counter a count is held against.
pub enum CounterKind {
    Total,
    Failures,
    Errors,
}

/// The counter selected by a small index: 0 counts every case, 1 the
/// failed ones, anything else the errored ones.
pub open spec fn kind_of(which: u8) -> CounterKind {
    if which == 0 {
        CounterKind::Total
    } else if which == 1 {
        CounterKind::Failures
    } else {
        CounterKind::Errors
    }
}

/// Whether a test case falls under the given counter.
pub open spec fn counted(c: TestCaseView, which: CounterKind) -> bool {
    match which {
        CounterKind::Total => true,
        CounterKind::Failures => c.failure is Some,
        CounterKind::Errors => c.failure is None && c.error is Some,
    }
}

/// Whether the suite-level counters the runner wrote agree with the
/// per-case state: `tests`, `failures` and `errors` are digit strings
/// denoting exactly the number of test cases, of cases with a failure, and
/// of cases with an error only.  The counters are never the source of
/// truth; this check only detects drift between them and the cases.
pub open spec fn counters_consistent(v: TestSuiteView) -> bool {
    is_digits(v.tests) && nat_of(v.tests) == count_cases(v.children, 0, CounterKind::Total)
        && is_digits(v.failures) && nat_of(v.failures) == count_cases(
        v.children,
        0,
        CounterKind::Failures,
    ) && is_digits(v.errors) && nat_of(v.errors) == count_cases(v.children, 0, CounterKind::Errors)
}

/// A digit prefix never denotes more than the whole digit string.
proof fn lemma_nat_of_prefix_le(s: Seq<char>, k: int)
    requires
        0 <= k <= s.len(),
        forall|j: int| 0 <= j < s.len() ==> '0' <= #[trigger] s[j] && s[j] <= '9',
    ensures
        nat_of(s.subrange(0, k)) <= nat_of(s),
        nat_of(s) >= 0,
    decreases s.len() - k,
{
    if k < s.len() {
        lemma_nat_of_prefix_le(s, k + 1);
        let a = s.subrange(0, k);
        let b = s.subrange(0, k + 1);
        assert(b.subrange(0, b.len() - 1) =~= a);
        assert(b[b.len() - 1] == s[k]);
        assert(nat_of(a) >= 0) by {
            lemma_nat_of_nonneg(a);
        }
        assert(nat_of(a) <= nat_of(a) * 10 + (s[k] as int - '0' as int)) by {
            assert(s[k] as int >= '0' as int);
        }
    } else {
        assert(s.subrange(0, k) =~= s);
        lemma_nat_of_nonneg(s);
    }
}

/// A digit string denotes a non-negative number.
proof fn lemma_nat_of_nonneg(s: Seq<char>)
    requires
        forall|j: int| 0 <= j < s.len() ==> '0' <= #[trigger] s[j] && s[j] <= '9',
    ensures
        nat_of(s) >= 0,
    decreases s.len(),
{
    if s.len() > 0 {
        let a = s.subrange(0, s.len() - 1);
        lemma_nat_of_nonneg(a);
        assert(s[s.len() - 1] as int >= '0' as int);
    }
}

/// Reads a counter attribute: `Some(v)` exactly when the string is a digit
/// run denoting `v`, `None` when it is not a digit run or denotes more
/// than `bound` (no counter can exceed the number of children).
fn parse_counter(s: &str, bound: usize) -> (r: Option<usize>)
    ensures
        match r {
            Some(v) => is_digits(s@) && nat_of(s@) == v && v <= bound,
            None => !is_digits(s@) || nat_of(s@) > bound,
        },
{
    let n = s.unicode_len();
    if n == 0 {
        return None;
    }
    let mut acc: usize = 0;
    let mut k: usize = 0;
    while k < n
        invariant
            n == s@.len(),
            k <= n,
            acc <= bound,
            forall|j: int| 0 <= j < k ==> '0' <= #[trigger] s@[j] && s@[j] <= '9',
            acc == nat_of(s@.subrange(0, k as int)),
        decreases n - k,
    {
        let c = s.get_char(k);
        if !(c >= '0' && c <= '9') {
            return None;
        }
        let d = (c as u32 - 48) as usize;
        proof {
            assert(s@.subrange(0, k as int + 1).subrange(0, k as int) =~= s@.subrange(0, k as int));
            assert(s@.subrange(0, k as int + 1)[k as int] == s@[k as int]);
        }
        if acc > bound / 10 || (acc == bound / 10 && d > bound % 10) {
            // the prefix already exceeds the bound, so the whole string does
            proof {
                assert(acc * 10 + d > bound) by (nonlinear_arith)
                    requires
                        acc > bound / 10 || (acc == bound / 10 && d > bound % 10),
                        acc >= 0,
                        d >= 0,
                        bound >= 0,
                        bound / 10 == (bound - bound % 10) / 10,
                        bound == (bound / 10) * 10 + bound % 10,
                        bound % 10 < 10,
                        d < 10,
                ;
                lemma_nat_of_prefix_le_partial(s@, k as int + 1);
            }
            return None;
        }
        acc = acc * 10 + d;
        k = k + 1;
    }
    proof {
        assert(s@.subrange(0, n as int) =~= s@);
    }
    Some(acc)
}

/// If a digit prefix of `s` (with arbitrary later characters) already
/// denotes more than any later prefix could shrink to, the whole string is
/// not a digit run denoting a small number: either some character is not a
/// digit, or the denoted number is at least the prefix's.
proof fn lemma_nat_of_prefix_le_partial(s: Seq<char>, k: int)
    requires
        0 <= k <= s.len(),
    ensures
        !is_digits(s) || nat_of(s.subrange(0, k)) <= nat_of(s),
{
    if is_digits(s) {
        lemma_nat_of_prefix_le(s, k);
    }
}

impl TestSuite {
    /// Cross-checks the suite-level counters against the per-case state:
    /// true exactly when `tests`, `failures` and `errors` denote the
    /// number of test cases, of cases with a failure, and of cases with an
    /// error only.  Outcomes are never derived from the counters; a false
    /// result only signals drift in the runner's report.
    pub fn counters_agree(&self) -> (r: bool)
        ensures
            r == counters_consistent(self@),
    {
        let total = self.count_matching(0);
        let failed = self.count_matching(1);
        let errored = self.count_matching(2);
        let bound = self.children.len();
        let t = parse_counter(self.tests.as_str(), bound);
        let f = parse_counter(self.failures.as_str(), bound);
        let e = parse_counter(self.errors.as_str(), bound);
        proof {
            lemma_count_le(self@.children, 0, CounterKind::Total);
            lemma_count_le(self@.children, 0, CounterKind::Failures);
            lemma_count_le(self@.children, 0, CounterKind::Errors);
        }
        t == Some(total) && f == Some(failed) && e == Some(errored)
    }

    /// Counts the test cases under one counter: 0 for all, 1 for failed,
    /// 2 for errored.
    fn count_matching(&self, which: u8) -> (r: usize)
        requires
            which < 3,
        ensures
            r == count_cases(self@.children, 0, kind_of(which)),
    {
        let ghost kind = kind_of(which);
        let ghost cv = self@.children;
        let mut r: usize = 0;
        let mut i = self.children.len();
        proof {
            lemma_count_le(cv, i as int, kind);
        }
        while i > 0
        invariant
            cv == self@.children,
            cv.len() == self.children.len(),
            i <= self.children.len(),
            kind == kind_of(which),
            r == count_cases(cv, i as int, kind),
            r <= cv.len() - i,
        decreases i,
        {
            i = i - 1;
            proof {
                lemma_count_le(cv, i as int + 1, kind);
                assert(cv[i as int] == self.children@[i as int]@);
            }
            match &self.children[i] {
                TestSuiteChild::TestCase(c) => {
                    proof {
                        assert(self.children@[i as int] == TestSuiteChild::TestCase(*c));
                        assert(cv[i as int] == TestSuiteChildView::TestCase(c@));
                    }
                    let hit = if which == 0 {
                        true
                    } else if which == 1 {
                        c.failure.is_some()
                    } else {
                        c.failure.is_none() && c.error.is_some()
                    };
                    proof {
                        assert(hit == counted(c@, kind));
                    }
                    if hit {
                        r = r + 1;
                    }
                },
                _ => {},
            }
        }
        r
    }
}

/// A counter over a suffix of the children never exceeds its length.
proof fn lemma_count_le(children: Seq<TestSuiteChildView>, i: int, which: CounterKind)
    ensures
        0 <= count_cases(children, i, which),
        i >= 0 ==> count_cases(children, i, which) <= children.len() - i || children.len() <= i,
        count_cases(children, i, which) <= children.len(),
    decreases children.len() - i,
{
    if 0 <= i && i < children.len() {
        lemma_count_le(children, i + 1, which);
    }
}

} // verus!
