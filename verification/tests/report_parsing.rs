use grader::junit_xml::{TestCase, TestOutcome, TestSuiteChild};
use grader::parse::parse_report_str;

fn sample_report() -> String {
    let mut s = String::new();
    s.push_str("<?xml version=\"1.0\" encoding=\"UTF-8\"?>\n");
    s.push_str("<testsuite name=\"org.example.TestProject\" tests=\"2\" failures=\"1\" errors=\"0\" time=\"0.04\">\n");
    s.push_str("  <properties/>\n");
    s.push_str("  <testcase name=\"addsNumbers\" classname=\"org.example.TestProject\" time=\"0.01\"/>\n");
    s.push_str("  <testcase name=\"rejectsZero\" classname=\"org.example.TestProject\" time=\"0.02\">\n");
    s.push_str("    <failure message=\"expected 1 but was 0\" type=\"AssertionError\">stack trace here</failure>\n");
    s.push_str("  </testcase>\n");
    s.push_str("  <system-out>ran fine</system-out>\n");
    s.push_str("</testsuite>\n");
    s
}

#[test]
fn parses_a_full_report() {
    let suite = parse_report_str(sample_report().as_str()).unwrap();
    assert_eq!(suite.name, "org.example.TestProject");
    assert_eq!(suite.tests, "2");
    assert_eq!(suite.failures, "1");
    assert_eq!(suite.errors, "0");
    assert_eq!(suite.time, "0.04");
    assert_eq!(suite.children.len(), 4);
    assert!(matches!(suite.children[0], TestSuiteChild::Properties(_)));
    match &suite.children[1] {
        TestSuiteChild::TestCase(c) => {
            assert_eq!(c.name, "addsNumbers");
            assert_eq!(c.classname, "org.example.TestProject");
            assert_eq!(c.time, "0.01");
            assert!(c.failure.is_none());
            assert!(c.error.is_none());
        }
        _ => panic!("expected a testcase"),
    }
    match &suite.children[2] {
        TestSuiteChild::TestCase(c) => {
            assert_eq!(c.name, "rejectsZero");
            let f = c.failure.as_ref().unwrap();
            assert_eq!(f.message, "expected 1 but was 0");
            assert_eq!(f.failure_type, "AssertionError");
            assert_eq!(f.value, "stack trace here");
            assert!(c.error.is_none());
        }
        _ => panic!("expected a testcase"),
    }
    match &suite.children[3] {
        TestSuiteChild::SystemOut(t) => assert_eq!(t, "ran fine"),
        _ => panic!("expected system-out"),
    }
}

#[test]
fn parsing_twice_yields_equal_reports() {
    let text = sample_report();
    let a = parse_report_str(text.as_str()).unwrap();
    let b = parse_report_str(text.as_str()).unwrap();
    assert_eq!(a.name, b.name);
    assert_eq!(a.tests, b.tests);
    assert_eq!(a.failures, b.failures);
    assert_eq!(a.errors, b.errors);
    assert_eq!(a.time, b.time);
    assert_eq!(a.children.len(), b.children.len());
    for (x, y) in a.children.iter().zip(b.children.iter()) {
        match (x, y) {
            (TestSuiteChild::Properties(_), TestSuiteChild::Properties(_)) => {}
            (TestSuiteChild::TestCase(c), TestSuiteChild::TestCase(d)) => {
                assert_eq!(c.name, d.name);
                assert_eq!(c.classname, d.classname);
                assert_eq!(c.time, d.time);
                assert_eq!(c.failure.is_some(), d.failure.is_some());
                assert_eq!(c.error, d.error);
            }
            (TestSuiteChild::SystemOut(t), TestSuiteChild::SystemOut(u)) => assert_eq!(t, u),
            (TestSuiteChild::SystemErr(t), TestSuiteChild::SystemErr(u)) => assert_eq!(t, u),
            _ => panic!("children differ"),
        }
    }
}

#[test]
fn unrecognized_root_element_is_a_parse_error() {
    let text = "<wrongroot name=\"x\" tests=\"0\" failures=\"0\" errors=\"0\" time=\"0\"></wrongroot>";
    let r = parse_report_str(text);
    assert!(matches!(r, Err(grader::errors::GradeError::ReportParseError)));
}

#[test]
fn unrecognized_child_element_is_a_parse_error() {
    let text = "<testsuite name=\"x\" tests=\"0\" failures=\"0\" errors=\"0\" time=\"0\"><bogus/></testsuite>";
    assert!(parse_report_str(text).is_err());
}

#[test]
fn missing_required_attribute_is_a_parse_error() {
    let text = "<testsuite name=\"x\" tests=\"0\" failures=\"0\" errors=\"0\"></testsuite>";
    assert!(parse_report_str(text).is_err());
}

#[test]
fn empty_self_closing_suite_parses() {
    let text = "<testsuite name=\"x\" tests=\"0\" failures=\"0\" errors=\"0\" time=\"0\"/>";
    let suite = parse_report_str(text).unwrap();
    assert_eq!(suite.children.len(), 0);
}

#[test]
fn error_element_text_is_captured() {
    let text = "<testsuite name=\"x\" tests=\"1\" failures=\"0\" errors=\"1\" time=\"0\">\
                <testcase name=\"boom\" classname=\"C\" time=\"0\">\
                <error>NullPointerException</error></testcase></testsuite>";
    let suite = parse_report_str(text).unwrap();
    match &suite.children[0] {
        TestSuiteChild::TestCase(c) => {
            assert!(c.failure.is_none());
            assert_eq!(c.error.as_deref(), Some("NullPointerException"));
        }
        _ => panic!("expected a testcase"),
    }
}

#[test]
fn classification_follows_failure_and_error_presence() {
    let passed = TestCase {
        name: String::from("a"),
        classname: String::from("C"),
        time: String::from("0"),
        failure: None,
        error: None,
    };
    assert!(matches!(passed.classify(), TestOutcome::Passed));

    let failed = TestCase {
        failure: Some(grader::junit_xml::Failure {
            message: String::from("bad"),
            failure_type: String::from("AssertionError"),
            value: String::from("trace"),
        }),
        ..make_case()
    };
    match failed.classify() {
        TestOutcome::Failed(m) => assert_eq!(m, "bad"),
        _ => panic!("expected Failed"),
    }

    let errored = TestCase { error: Some(String::from("crashed")), ..make_case() };
    match errored.classify() {
        TestOutcome::Errored(m) => assert_eq!(m, "crashed"),
        _ => panic!("expected Errored"),
    }

    let both = TestCase {
        failure: Some(grader::junit_xml::Failure {
            message: String::from("assert wins"),
            failure_type: String::from("AssertionError"),
            value: String::new(),
        }),
        error: Some(String::from("also crashed")),
        ..make_case()
    };
    match both.classify() {
        TestOutcome::Failed(m) => assert_eq!(m, "assert wins"),
        _ => panic!("failure must take precedence"),
    }
}

#[test]
fn suite_counters_cross_check() {
    let consistent = parse_report_str(sample_report().as_str()).unwrap();
    assert!(consistent.counters_agree());

    let drifted = "<testsuite name=\"x\" tests=\"3\" failures=\"0\" errors=\"0\" time=\"0\">\
                   <testcase name=\"only\" classname=\"C\" time=\"0\"/></testsuite>";
    let suite = parse_report_str(drifted).unwrap();
    assert!(!suite.counters_agree());

    let nonnumeric = "<testsuite name=\"x\" tests=\"many\" failures=\"0\" errors=\"0\" time=\"0\">\
                      <testcase name=\"only\" classname=\"C\" time=\"0\"/></testsuite>";
    let suite = parse_report_str(nonnumeric).unwrap();
    assert!(!suite.counters_agree());

    let leading_zero = "<testsuite name=\"x\" tests=\"01\" failures=\"00\" errors=\"0\" time=\"0\">\
                        <testcase name=\"only\" classname=\"C\" time=\"0\"/></testsuite>";
    let suite = parse_report_str(leading_zero).unwrap();
    assert!(suite.counters_agree());
}

fn make_case() -> TestCase {
    TestCase {
        name: String::from("t"),
        classname: String::from("C"),
        time: String::from("0"),
        failure: None,
        error: None,
    }
}
