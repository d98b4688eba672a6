use grader::errors::GradeError;
use grader::results::{
    collect_results, parse_batch_str, serialize_batch, student_result_of_error,
    student_result_of_suite, StudentResult, TestResult, UnitTestResult,
};

fn one_result(name: &str, passed: bool, message: &str) -> UnitTestResult {
    UnitTestResult { name: String::from(name), passed, message: String::from(message) }
}

#[test]
fn serializes_the_expected_document() {
    let batch = TestResult {
        results: vec![StudentResult {
            tests: vec![one_result("add", true, ""), one_result("sub", false, "off by one")],
            student_id: String::from("1001"),
            student_name: String::from("Ann Lee"),
            diagnostic: String::new(),
        }],
    };
    let text = serialize_batch(&batch);
    assert_eq!(
        text,
        "{\"results\":[{\"tests\":[{\"name\":\"add\",\"passed\":true,\"message\":\"\"},\
         {\"name\":\"sub\",\"passed\":false,\"message\":\"off by one\"}],\
         \"student_id\":\"1001\",\"student_name\":\"Ann Lee\",\"diagnostic\":\"\"}]}"
    );
}

#[test]
fn serialize_then_parse_restores_every_field() {
    let batch = TestResult {
        results: vec![
            StudentResult {
                tests: vec![
                    one_result("add", true, ""),
                    one_result("quote", false, "said \"no\" and used a \\ backslash"),
                ],
                student_id: String::from("1001"),
                student_name: String::from("Ann Lee"),
                diagnostic: String::new(),
            },
            StudentResult {
                tests: vec![],
                student_id: String::from("1002"),
                student_name: String::from("Bo Ng"),
                diagnostic: String::from("Build failed: missing semicolon"),
            },
        ],
    };
    let text = serialize_batch(&batch);
    let back = parse_batch_str(text.as_str()).unwrap();
    assert_eq!(back.results.len(), batch.results.len());
    for (a, b) in back.results.iter().zip(batch.results.iter()) {
        assert_eq!(a.student_id, b.student_id);
        assert_eq!(a.student_name, b.student_name);
        assert_eq!(a.diagnostic, b.diagnostic);
        assert_eq!(a.tests.len(), b.tests.len());
        for (x, y) in a.tests.iter().zip(b.tests.iter()) {
            assert_eq!(x.name, y.name);
            assert_eq!(x.passed, y.passed);
            assert_eq!(x.message, y.message);
        }
    }
}

#[test]
fn empty_batch_round_trips() {
    let batch = TestResult { results: vec![] };
    let text = serialize_batch(&batch);
    assert_eq!(text, "{\"results\":[]}");
    let back = parse_batch_str(text.as_str()).unwrap();
    assert_eq!(back.results.len(), 0);
}

#[test]
fn garbage_is_not_a_batch_document() {
    assert!(parse_batch_str("not json").is_none());
    assert!(parse_batch_str("{\"results\":[").is_none());
    assert!(parse_batch_str("{\"results\":[]}extra").is_none());
}

#[test]
fn suite_result_classifies_each_case() {
    let report = "<testsuite name=\"s\" tests=\"2\" failures=\"1\" errors=\"0\" time=\"0\">\
                  <testcase name=\"ok\" classname=\"C\" time=\"0\"/>\
                  <testcase name=\"bad\" classname=\"C\" time=\"0\">\
                  <failure message=\"expected 2\" type=\"AssertionError\">trace</failure>\
                  </testcase></testsuite>";
    let suite = grader::parse::parse_report_str(report).unwrap();
    let r = student_result_of_suite(
        &String::from("1001"),
        &String::from("Ann"),
        &String::from("Lee"),
        &suite,
    );
    assert_eq!(r.student_id, "1001");
    assert_eq!(r.student_name, "Ann Lee");
    assert_eq!(r.diagnostic, "");
    assert_eq!(r.tests.len(), 2);
    assert_eq!(r.tests[0].name, "ok");
    assert!(r.tests[0].passed);
    assert_eq!(r.tests[0].message, "");
    assert_eq!(r.tests[1].name, "bad");
    assert!(!r.tests[1].passed);
    assert_eq!(r.tests[1].message, "expected 2");
}

#[test]
fn error_result_carries_the_diagnostic() {
    let r = student_result_of_error(
        &String::from("1002"),
        &String::from("Bo"),
        &String::from("Ng"),
        &GradeError::BuildFailure(String::from("missing semicolon")),
    );
    assert_eq!(r.tests.len(), 0);
    assert_eq!(r.student_name, "Bo Ng");
    assert_eq!(r.diagnostic, "Build failed: missing semicolon");
}

#[test]
fn every_error_variant_has_a_nonempty_message() {
    let variants = vec![
        GradeError::TransportError,
        GradeError::MalformedTask,
        GradeError::MalformedSubmission,
        GradeError::BuildFailure(String::from("x")),
        GradeError::TestRunnerFailure,
        GradeError::ReportParseError,
        GradeError::FatalConfigError,
    ];
    for v in &variants {
        assert!(!v.message().is_empty());
    }
    assert_eq!(GradeError::TransportError.message(), "Error getting file from S3");
    assert_eq!(GradeError::ReportParseError.message(), "Could not parse test report");
}

#[test]
fn collect_keeps_completion_order() {
    let batch = collect_results(vec![
        StudentResult {
            tests: vec![],
            student_id: String::from("2"),
            student_name: String::from("B B"),
            diagnostic: String::new(),
        },
        StudentResult {
            tests: vec![],
            student_id: String::from("1"),
            student_name: String::from("A A"),
            diagnostic: String::new(),
        },
    ]);
    assert_eq!(batch.results[0].student_id, "2");
    assert_eq!(batch.results[1].student_id, "1");
}
