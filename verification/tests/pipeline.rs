use grader::discover::discover;
use grader::orchestrate::{
    plan_run_workspace, plan_worker, prepend_package_line, result_key_of, submission_workspace,
};
use grader::results::{collect_results, serialize_batch, worker_result, BuildResult};
use grader::{decode_task, index, rocket};

#[test]
fn rocket_builds_the_run_configuration() {
    let cfg = rocket();
    assert_eq!(cfg.bucket_name, "uploads-76078f4");
}

#[test]
fn index_acknowledges_immediately() {
    let cfg = rocket();
    let task = decode_task(String::from("t/Test.txt"), String::from("set/")).unwrap();
    let (bucket, ack) = index(&cfg, &task);
    assert_eq!(bucket, cfg.bucket_name);
    assert_eq!(ack, "Running!");
}

#[test]
fn empty_locators_are_a_malformed_task() {
    assert!(decode_task(String::new(), String::from("set/")).is_err());
    assert!(decode_task(String::from("t/Test.txt"), String::new()).is_err());
    assert!(decode_task(String::from("t/Test.txt"), String::from("set/")).is_ok());
}

#[test]
fn run_workspace_has_the_fixed_layout() {
    let w = plan_run_workspace("/tmp/run1");
    assert_eq!(w.root, "/tmp/run1");
    assert_eq!(w.test_file_path, "/tmp/run1/Test.java");
    assert_eq!(w.project_directory, "/tmp/run1/project");
    assert_eq!(w.output_directory, "/tmp/run1/output");
}

#[test]
fn worker_plan_builds_every_external_path() {
    let p = plan_worker("/r/project", "/r/output", "/scratch/1001", "set/1001_Ann_Lee/ProjA", "ProjA");
    assert_eq!(p.sketch_dir, "/r/project/set/1001_Ann_Lee/ProjA");
    assert_eq!(p.build_output_dir, "/r/output/set/1001_Ann_Lee/ProjA");
    assert_eq!(p.compiled_source, "/r/output/set/1001_Ann_Lee/ProjA/source/ProjA.java");
    assert_eq!(p.test_target, "/scratch/1001/src/test/java/org/example/Test.java");
    assert_eq!(p.main_target, "/scratch/1001/src/main/java/org/example/ProjA.java");
    assert_eq!(
        p.report_path,
        "/scratch/1001/build/test-results/test/TEST-org.example.TestProject.xml"
    );
}

#[test]
fn package_line_is_prepended_verbatim() {
    assert_eq!(
        prepend_package_line("class ProjA {}\n"),
        "package org.example;class ProjA {}\n"
    );
}

#[test]
fn result_key_is_derived_from_the_set_parent() {
    assert_eq!(result_key_of("assignment1/submissions/"), "assignment1/Results/result.json");
    assert_eq!(result_key_of("set/"), "/Results/result.json");
    assert_eq!(result_key_of("a/b/c"), "a/b/Results/result.json");
}

#[test]
fn workspaces_of_distinct_submissions_are_distinct() {
    let a = submission_workspace("/tmp/run1", "1001");
    let b = submission_workspace("/tmp/run1", "1002");
    assert_ne!(a, b);
    assert!(!a.starts_with(b.as_str()));
    assert!(!b.starts_with(a.as_str()));
}

fn passing_report() -> String {
    String::from(
        "<testsuite name=\"org.example.TestProject\" tests=\"2\" failures=\"0\" errors=\"0\" time=\"0.1\">\
         <testcase name=\"t1\" classname=\"org.example.TestProject\" time=\"0.05\"/>\
         <testcase name=\"t2\" classname=\"org.example.TestProject\" time=\"0.05\"/>\
         </testsuite>",
    )
}

#[test]
fn end_to_end_batch_with_one_build_failure() {
    let task = decode_task(String::from("t/Test.txt"), String::from("set/")).unwrap();
    assert_eq!(task.s3_key_test_file, "t/Test.txt");

    let keys = vec![
        String::from("set/1001_Ann_Lee/ProjA/main.pde"),
        String::from("set/1002_Bo_Ng/ProjB/sketch.pde"),
    ];
    let subs = discover(&keys);
    assert_eq!(subs.len(), 2);

    let report = passing_report();
    let ok_build = BuildResult { success: true, stderr: String::new() };
    let bad_build = BuildResult {
        success: false,
        stderr: String::from("ProjB.pde: unexpected token"),
    };
    let r1 = worker_result(&subs[0], &ok_build, Some(&report));
    let r2 = worker_result(&subs[1], &bad_build, None);

    let batch = collect_results(vec![r1, r2]);
    assert_eq!(batch.results.len(), 2);
    assert_eq!(batch.results[0].student_id, "1001");
    assert_eq!(batch.results[0].tests.len(), 2);
    assert!(batch.results[0].tests.iter().all(|t| t.passed));
    assert_eq!(batch.results[1].student_id, "1002");
    assert_eq!(batch.results[1].tests.len(), 0);
    assert!(!batch.results[1].diagnostic.is_empty());

    let doc = serialize_batch(&batch);
    assert!(doc.starts_with("{\"results\":["));
    assert_eq!(result_key_of(task.s3_key_project_file.as_str()), "/Results/result.json");
}

#[test]
fn results_are_independent_of_completion_order() {
    let keys = vec![
        String::from("set/1001_Ann_Lee/ProjA/main.pde"),
        String::from("set/1002_Bo_Ng/ProjB/sketch.pde"),
    ];
    let subs = discover(&keys);
    let report = passing_report();
    let ok_build = BuildResult { success: true, stderr: String::new() };
    let bad_build = BuildResult { success: false, stderr: String::from("broken") };

    // first completion order
    let a1 = worker_result(&subs[0], &ok_build, Some(&report));
    let a2 = worker_result(&subs[1], &bad_build, None);
    // reversed completion order
    let b2 = worker_result(&subs[1], &bad_build, None);
    let b1 = worker_result(&subs[0], &ok_build, Some(&report));

    assert_eq!(a1.student_id, b1.student_id);
    assert_eq!(a1.tests.len(), b1.tests.len());
    assert_eq!(a1.diagnostic, b1.diagnostic);
    assert_eq!(a2.student_id, b2.student_id);
    assert_eq!(a2.diagnostic, b2.diagnostic);

    // a parse failure in one worker leaves the sibling untouched
    let broken = String::from("<surprise/>");
    let c2 = worker_result(&subs[1], &ok_build, Some(&broken));
    let c1 = worker_result(&subs[0], &ok_build, Some(&report));
    assert_eq!(c2.tests.len(), 0);
    assert_eq!(c2.diagnostic, "Could not parse test report");
    assert_eq!(c1.tests.len(), 2);
    assert!(c1.diagnostic.is_empty());
}
