//! Verified core of an automated coursework grading harness.
//!
//! Given a task naming a shared test artifact and a set of student
//! submissions, the harness builds each submission, runs a unit-test suite
//! against it, and aggregates a per-student report.  This crate holds the
//! logic of that pipeline: decoding the task, discovering submissions from
//! listed object keys, planning each worker's isolated workspace, parsing the
//! test runner's XML report, classifying test cases, and serializing the
//! batch report.  All I/O (object store, external tools, temporary
//! directories) lives outside the library and hands it plain values.

use vstd::prelude::*;

pub mod discover;
pub mod errors;
pub mod junit_xml;
pub mod orchestrate;
pub mod parse;
pub mod results;

verus! {

/// Static configuration for a run: the object-store bucket all keys refer to.
pub struct AppConfig {
    pub bucket_name: String,
}

/// The task descriptor decoded from an inbound request: two opaque
/// object-store locators, one for the shared test artifact and one for the
/// prefix under which the submission set lives.
pub struct Task {
    pub s3_key_test_file: String,
    pub s3_key_project_file: String,
}

/// Builds the static configuration a run starts from.
pub fn rocket() -> (cfg: AppConfig)
    ensures
        cfg.bucket_name@ == "uploads-76078f4"@,
{
    AppConfig { bucket_name: "uploads-76078f4".to_owned() }
}

/// Accepts a task: hands back the bucket the detached run must use together
/// with the immediate acknowledgement the caller receives.  The run itself is
/// driven outside the library; it always acknowledges at once.
pub fn index(cfg: &AppConfig, task: &Task) -> (r: (String, &'static str))
    ensures
        r.0@ == cfg.bucket_name@,
        r.1@ == "Running!"@,
{
    (clone_string(&cfg.bucket_name), "Running!")
}

/// Clones a string; the copy has the same characters.
fn clone_string(s: &String) -> (r: String)
    ensures
        r@ == s@,
{
    s.clone()
}

/// Decodes the inbound task: both locators must be present and non-empty;
/// anything else is a malformed task.  No semantic validation is done — the
/// locators are opaque keys for the blob store.
pub fn decode_task(test_artifact_key: String, submission_set_key: String) -> (r: Result<
    Task,
    errors::GradeError,
>)
    ensures
        match r {
            Ok(t) => test_artifact_key@.len() > 0 && submission_set_key@.len() > 0
                && t.s3_key_test_file@ == test_artifact_key@ && t.s3_key_project_file@
                == submission_set_key@,
            Err(e) => (test_artifact_key@.len() == 0 || submission_set_key@.len() == 0)
                && e is MalformedTask,
        },
{
    if test_artifact_key.as_str().is_empty() || submission_set_key.as_str().is_empty() {
        Err(errors::GradeError::MalformedTask)
    } else {
        Ok(Task { s3_key_test_file: test_artifact_key, s3_key_project_file: submission_set_key })
    }
}

} // verus!
