//! Error taxonomy of the grading pipeline and the diagnostic text each
//! error surfaces in the uploaded report.

use vstd::prelude::*;

verus! {

/// Everything that can go wrong in a run.  Transport and configuration
/// failures abort the whole run; a malformed submission, a build failure, a
/// test-runner failure or an unparsable report is contained to one
/// submission.
#[derive(Debug)]
pub enum GradeError {
    /// The object store was unreachable or a key was missing.
    TransportError,
    /// The task descriptor was missing a locator.
    MalformedTask,
    /// A submission directory name did not follow the naming convention.
    MalformedSubmission,
    /// The external build tool exited non-zero; carries its captured stderr.
    BuildFailure(String),
    /// The external test runner crashed or left no report file.
    TestRunnerFailure,
    /// The report file violated the expected schema.
    ReportParseError,
    /// A required template or path was missing; no submission could succeed.
    FatalConfigError,
}

/// The diagnostic text of an error, as recorded in a student's result.
pub open spec fn message_of(e: GradeError) -> Seq<char> {
    match e {
        GradeError::TransportError => "Error getting file from S3"@,
        GradeError::MalformedTask => "Malformed task descriptor"@,
        GradeError::MalformedSubmission => "Malformed submission directory name"@,
        GradeError::BuildFailure(stderr) => "Build failed: "@ + stderr@,
        GradeError::TestRunnerFailure => "Test runner failed or left no report"@,
        GradeError::ReportParseError => "Could not parse test report"@,
        GradeError::FatalConfigError => "Missing required configuration"@,
    }
}

impl GradeError {
    /// The diagnostic text recorded for this error in a student's result.
    /// Every variant yields a non-empty message; a build failure carries the
    /// compiler's captured stderr after a fixed prefix.
    pub fn message(&self) -> (r: String)
        ensures
            r@ == message_of(*self),
            r@.len() > 0,
    {
        proof {
            reveal_strlit("Error getting file from S3");
            reveal_strlit("Malformed task descriptor");
            reveal_strlit("Malformed submission directory name");
            reveal_strlit("Build failed: ");
            reveal_strlit("Test runner failed or left no report");
            reveal_strlit("Could not parse test report");
            reveal_strlit("Missing required configuration");
        }
        match self {
            GradeError::TransportError => "Error getting file from S3".to_owned(),
            GradeError::MalformedTask => "Malformed task descriptor".to_owned(),
            GradeError::MalformedSubmission => {
                "Malformed submission directory name".to_owned()
            },
            GradeError::BuildFailure(stderr) => {
                let mut m = "Build failed: ".to_owned();
                m.append(stderr.as_str());
                m
            },
            GradeError::TestRunnerFailure => "Test runner failed or left no report".to_owned(),
            GradeError::ReportParseError => "Could not parse test report".to_owned(),
            GradeError::FatalConfigError => "Missing required configuration".to_owned(),
        }
    }
}

} // verus!
