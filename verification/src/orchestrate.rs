//! Workspace provisioning and the per-worker plan.
//!
//! A run owns one temporary root with fixed subpaths; each submission's
//! worker owns one exclusive subdirectory keyed by the student id, so that
//! no two concurrent workers ever share a directory.  Every path an external
//! step touches is planned here, as a pure function of the run's roots and
//! the submission, and the isolation of the per-submission directories is
//! proved.

use vstd::prelude::*;

verus! {

/// `base` and `rel` joined with a single separator.
pub open spec fn joined(base: Seq<char>, rel: Seq<char>) -> Seq<char> {
    base.add(seq!['/']).add(rel)
}

/// Joins two path fragments with a single separator.
pub fn path_join(base: &str, rel: &str) -> (r: String)
    ensures
        r@ == joined(base@, rel@),
{
    let mut r = base.to_owned();
    r.append("/");
    r.append(rel);
    proof {
        reveal_strlit("/");
        assert(r@ =~= joined(base@, rel@));
    }
    r
}

/// The fixed layout of one run's temporary root: the shared test artifact,
/// the downloaded project tree, and the build output tree.
pub struct RunWorkspace {
    pub root: String,
    pub test_file_path: String,
    pub project_directory: String,
    pub output_directory: String,
}

/// Lays out a run's workspace under its temporary root.
pub fn plan_run_workspace(root: &str) -> (w: RunWorkspace)
    ensures
        w.root@ == root@,
        w.test_file_path@ == joined(root@, "Test.java"@),
        w.project_directory@ == joined(root@, "project"@),
        w.output_directory@ == joined(root@, "output"@),
{
    RunWorkspace {
        root: root.to_owned(),
        test_file_path: path_join(root, "Test.java"),
        project_directory: path_join(root, "project"),
        output_directory: path_join(root, "output"),
    }
}

/// A submission's exclusive scratch directory: the worker root joined with
/// the student id.
pub fn submission_workspace(root: &str, student_id: &str) -> (r: String)
    ensures
        r@ == joined(root@, student_id@),
{
    path_join(root, student_id)
}

/// Whether `child` lies strictly inside the directory `parent`.
pub open spec fn is_subpath_of(parent: Seq<char>, child: Seq<char>) -> bool {
    child.len() > parent.len() && child.subrange(0, parent.len() as int) == parent && child[parent.len() as int]
        == '/'
}

/// Isolation of concurrent workers: two submissions with distinct,
/// slash-free ids get workspace directories that are distinct and disjoint
/// (neither lies inside the other), so workers writing only inside their
/// own directory never interfere, whatever order they complete in.
pub proof fn lemma_workspace_isolation(root: Seq<char>, a: Seq<char>, b: Seq<char>)
    requires
        a != b,
        !a.contains('/'),
        !b.contains('/'),
    ensures
        joined(root, a) != joined(root, b),
        !is_subpath_of(joined(root, a), joined(root, b)),
        !is_subpath_of(joined(root, b), joined(root, a)),
{
    let pa = joined(root, a);
    let pb = joined(root, b);
    if pa == pb {
        assert(a.len() == b.len());
        assert(a =~= b) by {
            assert forall|k: int| 0 <= k < a.len() implies a[k] == b[k] by {
                assert(pa[root.len() + 1 + k] == a[k]);
                assert(pb[root.len() + 1 + k] == b[k]);
            }
        }
        assert(false);
    }
    if is_subpath_of(pa, pb) {
        assert(b.len() > a.len());
        assert(pb[pa.len() as int] == b[a.len() as int]);
        assert(b[a.len() as int] == '/');
        assert(b.contains('/'));
        assert(false);
    }
    if is_subpath_of(pb, pa) {
        assert(a.len() > b.len());
        assert(pa[pb.len() as int] == a[b.len() as int]);
        assert(a[b.len() as int] == '/');
        assert(a.contains('/'));
        assert(false);
    }
}

/// Every path one worker's external steps touch, as a pure function of the
/// run's shared roots and the submission: where the build tool reads the
/// sketch and writes its output, where the compiled source lands, where the
/// scaffold expects the shared test artifact and the submission's main
/// source, and where the test runner deposits its report.
pub struct WorkerPlan {
    pub sketch_dir: String,
    pub build_output_dir: String,
    pub compiled_source: String,
    pub test_target: String,
    pub main_target: String,
    pub report_path: String,
}

/// Plans one worker's paths.
pub fn plan_worker(
    project_directory: &str,
    output_directory: &str,
    workspace: &str,
    project_path: &str,
    project_name: &str,
) -> (p: WorkerPlan)
    ensures
        p.sketch_dir@ == joined(project_directory@, project_path@),
        p.build_output_dir@ == joined(output_directory@, project_path@),
        p.compiled_source@ == joined(
            joined(output_directory@, project_path@),
            "source"@,
        ).add(seq!['/']).add(project_name@).add(".java"@),
        p.test_target@ == joined(workspace@, "src/test/java/org/example/Test.java"@),
        p.main_target@ == joined(workspace@, "src/main/java/org/example"@).add(seq!['/']).add(
            project_name@,
        ).add(".java"@),
        p.report_path@ == joined(
            workspace@,
            "build/test-results/test/TEST-org.example.TestProject.xml"@,
        ),
{
    let build_output_dir = path_join(output_directory, project_path);
    let mut compiled_source = path_join(build_output_dir.as_str(), "source");
    compiled_source.append("/");
    compiled_source.append(project_name);
    compiled_source.append(".java");
    let mut main_target = path_join(workspace, "src/main/java/org/example");
    main_target.append("/");
    main_target.append(project_name);
    main_target.append(".java");
    proof {
        reveal_strlit("/");
        assert(compiled_source@ =~= joined(joined(output_directory@, project_path@), "source"@).add(
            seq!['/'],
        ).add(project_name@).add(".java"@));
        assert(main_target@ =~= joined(workspace@, "src/main/java/org/example"@).add(
            seq!['/'],
        ).add(project_name@).add(".java"@));
    }
    WorkerPlan {
        sketch_dir: path_join(project_directory, project_path),
        build_output_dir,
        compiled_source,
        test_target: path_join(workspace, "src/test/java/org/example/Test.java"),
        main_target,
        report_path: path_join(workspace, "build/test-results/test/TEST-org.example.TestProject.xml"),
    }
}

/// The scaffold's namespace declaration put in front of a compiled source
/// file so the scaffold compiles it.
pub fn prepend_package_line(contents: &str) -> (r: String)
    ensures
        r@ == "package org.example;"@ + contents@,
{
    let mut r = "package org.example;".to_owned();
    r.append(contents);
    r
}

/// `s` without its trailing separators.
pub open spec fn strip_trailing_slashes(s: Seq<char>) -> Seq<char>
    decreases s.len(),
{
    if s.len() > 0 && s[s.len() - 1] == '/' {
        strip_trailing_slashes(s.subrange(0, s.len() - 1))
    } else {
        s
    }
}

/// The parent directory of a locator, ignoring trailing separators:
/// `a/b/c` and `a/b/c/` both have parent `a/b`; a single segment has the
/// empty parent.
pub open spec fn locator_parent(s: Seq<char>) -> Seq<char> {
    crate::discover::parent_dir(strip_trailing_slashes(s))
}

/// Where the batch report is uploaded: the submission-set locator's parent
/// directory plus the fixed results suffix.
pub fn result_key_of(submission_set_key: &str) -> (r: String)
    ensures
        r@ == locator_parent(submission_set_key@) + "/Results/result.json"@,
{
    let mut n = submission_set_key.unicode_len();
    proof {
        assert(submission_set_key@.subrange(0, n as int) =~= submission_set_key@);
    }
    while n > 0 && submission_set_key.get_char(n - 1) == '/'
        invariant
            n <= submission_set_key@.len(),
            strip_trailing_slashes(submission_set_key@) == strip_trailing_slashes(
                submission_set_key@.subrange(0, n as int),
            ),
        decreases n,
    {
        proof {
            assert(submission_set_key@.subrange(0, n as int).subrange(0, n - 1)
                =~= submission_set_key@.subrange(0, n - 1));
            assert(submission_set_key@.subrange(0, n as int)[n - 1] == submission_set_key@[n - 1]);
        }
        n = n - 1;
    }
    let stripped = crate::parse::substring_string(submission_set_key, 0, n);
    proof {
        if n > 0 {
            assert(submission_set_key@.subrange(0, n as int)[n - 1] == submission_set_key@[n - 1]);
        }
        assert(strip_trailing_slashes(submission_set_key@.subrange(0, n as int))
            == submission_set_key@.subrange(0, n as int));
    }
    let mut r = crate::discover::parent_dir_x(stripped.as_str());
    r.append("/Results/result.json");
    r
}

} // verus!