//! Submission discovery: turning the listed object keys of a submission set
//! into per-submission units.
//!
//! Keys are filtered to the recognized source-file suffix, grouped by their
//! parent directory (one submission per distinct project path), and the
//! grandparent directory name is split at `_` into exactly three fields
//! (id, first name, last name).  A name with any other field count excludes
//! that submission without aborting the batch.

use vstd::prelude::*;

use crate::parse::{range_eq, scan_until, scan_until_x, str_eq, substring_string};

verus! {

/// View of a list of strings.
pub open spec fn strs_view(v: Seq<String>) -> Seq<Seq<char>> {
    v.map(|i: int, s: String| s@)
}

/// Whether `s` ends with `suffix`.
pub open spec fn ends_with(s: Seq<char>, suffix: Seq<char>) -> bool {
    s.len() >= suffix.len() && s.subrange(s.len() - suffix.len(), s.len() as int) == suffix
}

/// The position of the last `/` at or before `i`, if any.
pub open spec fn last_slash(s: Seq<char>, i: int) -> Option<int>
    decreases i + 1,
{
    if 0 <= i && i < s.len() {
        if s[i] == '/' {
            Some(i)
        } else {
            last_slash(s, i - 1)
        }
    } else {
        None
    }
}

/// The directory part of a `/`-separated key: everything before the last
/// `/`, or empty when there is none.
pub open spec fn parent_dir(s: Seq<char>) -> Seq<char> {
    match last_slash(s, s.len() - 1) {
        Some(i) => s.subrange(0, i),
        None => Seq::empty(),
    }
}

/// The last `/`-separated segment of a key, or the key itself when it has
/// no `/`.
pub open spec fn last_segment(s: Seq<char>) -> Seq<char> {
    match last_slash(s, s.len() - 1) {
        Some(i) => s.subrange(i + 1, s.len() as int),
        None => s,
    }
}

/// Whether `keys[i]` appears nowhere earlier in `keys`.
pub open spec fn first_occurrence(keys: Seq<Seq<char>>, i: int) -> bool {
    forall|j: int| 0 <= j < i ==> keys[j] != keys[i]
}

/// The distinct keys ending in `.pde` at or after position `i`, in order of
/// first appearance over the whole list.
pub open spec fn source_keys(keys: Seq<Seq<char>>, i: int) -> Seq<Seq<char>>
    decreases keys.len() - i,
{
    if 0 <= i && i < keys.len() {
        let rest = source_keys(keys, i + 1);
        if ends_with(keys[i], ".pde"@) && first_occurrence(keys, i) {
            seq![keys[i]].add(rest)
        } else {
            rest
        }
    } else {
        Seq::empty()
    }
}

/// Every key has a first occurrence.
proof fn lemma_first_occurrence_exists(keys: Seq<Seq<char>>, j: int)
    requires
        0 <= j < keys.len(),
    ensures
        exists|j2: int|
            0 <= j2 <= j && keys[j2] == keys[j] && #[trigger] first_occurrence(keys, j2),
    decreases j,
{
    if first_occurrence(keys, j) {
    } else {
        let j1 = choose|j1: int| 0 <= j1 < j && keys[j1] == keys[j];
        lemma_first_occurrence_exists(keys, j1);
    }
}

/// What the source-key filter keeps: a key is in the filtered list exactly
/// when it occurs among the listed keys and ends in `.pde`.
pub proof fn lemma_source_keys_membership(keys: Seq<Seq<char>>, x: Seq<char>)
    ensures
        source_keys(keys, 0).contains(x) <==> ((exists|j: int|
            0 <= j < keys.len() && keys[j] == x) && ends_with(x, ".pde"@)),
{
    lemma_source_keys_membership_from(keys, 0, x);
    if (exists|j: int| 0 <= j < keys.len() && keys[j] == x) && ends_with(x, ".pde"@) {
        let j = choose|j: int| 0 <= j < keys.len() && keys[j] == x;
        lemma_first_occurrence_exists(keys, j);
    }
}

/// Membership in the filtered suffix from position `i` on: exactly the
/// keys at or after `i` that end in `.pde` and are first occurrences.
proof fn lemma_source_keys_membership_from(keys: Seq<Seq<char>>, i: int, x: Seq<char>)
    requires
        0 <= i <= keys.len(),
    ensures
        source_keys(keys, i).contains(x) <==> exists|j: int|
            i <= j < keys.len() && keys[j] == x && ends_with(x, ".pde"@)
                && #[trigger] first_occurrence(keys, j),
    decreases keys.len() - i,
{
    if i < keys.len() {
        lemma_source_keys_membership_from(keys, i + 1, x);
        let rest = source_keys(keys, i + 1);
        if ends_with(keys[i], ".pde"@) && first_occurrence(keys, i) {
            let whole = seq![keys[i]].add(rest);
            assert forall|k: int| 0 <= k < whole.len() implies #[trigger] whole[k] == if k == 0 {
                keys[i]
            } else {
                rest[k - 1]
            } by {}
            if whole.contains(x) {
                let k = choose|k: int| 0 <= k < whole.len() && whole[k] == x;
                if k == 0 {
                } else {
                    assert(rest[k - 1] == x);
                    assert(rest.contains(x));
                }
            }
            if x == keys[i] {
                assert(whole[0] == x);
                assert(whole.contains(x));
            }
            if rest.contains(x) {
                let k = choose|k: int| 0 <= k < rest.len() && rest[k] == x;
                assert(whole[k + 1] == x);
                assert(whole.contains(x));
            }
        }
    }
}

/// The filtered key list holds no duplicates: the filter keeps only first
/// occurrences.
pub proof fn lemma_source_keys_nodup(keys: Seq<Seq<char>>)
    ensures
        forall|k1: int, k2: int|
            0 <= k1 < k2 < source_keys(keys, 0).len() ==> #[trigger] source_keys(keys, 0)[k1]
                != #[trigger] source_keys(keys, 0)[k2],
{
    lemma_source_keys_nodup_from(keys, 0);
}

proof fn lemma_source_keys_nodup_from(keys: Seq<Seq<char>>, i: int)
    requires
        0 <= i <= keys.len(),
    ensures
        forall|k1: int, k2: int|
            0 <= k1 < k2 < source_keys(keys, i).len() ==> #[trigger] source_keys(keys, i)[k1]
                != #[trigger] source_keys(keys, i)[k2],
    decreases keys.len() - i,
{
    if i < keys.len() {
        lemma_source_keys_nodup_from(keys, i + 1);
        let rest = source_keys(keys, i + 1);
        if ends_with(keys[i], ".pde"@) && first_occurrence(keys, i) {
            let whole = source_keys(keys, i);
            assert(whole == seq![keys[i]].add(rest));
            assert forall|k1: int, k2: int| 0 <= k1 < k2 < whole.len() implies #[trigger] whole[k1]
                != #[trigger] whole[k2] by {
                if k1 == 0 {
                    if whole[k2] == keys[i] {
                        assert(rest[k2 - 1] == keys[i]);
                        assert(rest.contains(keys[i]));
                        lemma_source_keys_membership_from(keys, i + 1, keys[i]);
                        let j = choose|j: int|
                            i + 1 <= j < keys.len() && keys[j] == keys[i] && ends_with(
                                keys[i],
                                ".pde"@,
                            ) && #[trigger] first_occurrence(keys, j);
                        assert(keys[i] == keys[j]);
                        assert(!first_occurrence(keys, j));
                        assert(false);
                    }
                } else {
                    assert(whole[k1] == rest[k1 - 1]);
                    assert(whole[k2] == rest[k2 - 1]);
                }
            }
        }
    }
}

/// Whether the parent directory of `keys[i]` appears nowhere earlier.
pub open spec fn first_parent_occurrence(keys: Seq<Seq<char>>, i: int) -> bool {
    forall|j: int| 0 <= j < i ==> parent_dir(keys[j]) != parent_dir(keys[i])
}

/// The distinct parent directories of the given keys at or after position
/// `i`, in order of first appearance: one project path per submission.
pub open spec fn project_paths(keys: Seq<Seq<char>>, i: int) -> Seq<Seq<char>>
    decreases keys.len() - i,
{
    if 0 <= i && i < keys.len() {
        let rest = project_paths(keys, i + 1);
        if first_parent_occurrence(keys, i) {
            seq![parent_dir(keys[i])].add(rest)
        } else {
            rest
        }
    } else {
        Seq::empty()
    }
}

/// Every key's parent has a first occurrence among the parents.
proof fn lemma_first_parent_occurrence_exists(keys: Seq<Seq<char>>, j: int)
    requires
        0 <= j < keys.len(),
    ensures
        exists|j2: int|
            0 <= j2 <= j && parent_dir(keys[j2]) == parent_dir(keys[j])
                && #[trigger] first_parent_occurrence(keys, j2),
    decreases j,
{
    if first_parent_occurrence(keys, j) {
    } else {
        let j1 = choose|j1: int| 0 <= j1 < j && parent_dir(keys[j1]) == parent_dir(keys[j]);
        lemma_first_parent_occurrence_exists(keys, j1);
    }
}

/// The project paths are exactly the parent directories of the given keys:
/// a path is listed exactly when some key lies under it.
pub proof fn lemma_project_paths_membership(keys: Seq<Seq<char>>, p: Seq<char>)
    ensures
        project_paths(keys, 0).contains(p) <==> exists|j: int|
            0 <= j < keys.len() && parent_dir(#[trigger] keys[j]) == p,
{
    lemma_project_paths_membership_from(keys, 0, p);
    if exists|j: int| 0 <= j < keys.len() && parent_dir(#[trigger] keys[j]) == p {
        let j = choose|j: int| 0 <= j < keys.len() && parent_dir(#[trigger] keys[j]) == p;
        lemma_first_parent_occurrence_exists(keys, j);
    }
}

proof fn lemma_project_paths_membership_from(keys: Seq<Seq<char>>, i: int, p: Seq<char>)
    requires
        0 <= i <= keys.len(),
    ensures
        project_paths(keys, i).contains(p) <==> exists|j: int|
            i <= j < keys.len() && parent_dir(keys[j]) == p && #[trigger] first_parent_occurrence(
                keys,
                j,
            ),
    decreases keys.len() - i,
{
    if i < keys.len() {
        lemma_project_paths_membership_from(keys, i + 1, p);
        let rest = project_paths(keys, i + 1);
        if first_parent_occurrence(keys, i) {
            let whole = project_paths(keys, i);
            assert(whole == seq![parent_dir(keys[i])].add(rest));
            if whole.contains(p) {
                let k = choose|k: int| 0 <= k < whole.len() && whole[k] == p;
                if k == 0 {
                } else {
                    assert(rest[k - 1] == p);
                    assert(rest.contains(p));
                }
            }
            if p == parent_dir(keys[i]) {
                assert(whole[0] == p);
                assert(whole.contains(p));
            }
            if rest.contains(p) {
                let k = choose|k: int| 0 <= k < rest.len() && rest[k] == p;
                assert(whole[k + 1] == p);
                assert(whole.contains(p));
            }
        }
    }
}

/// The project-path list holds no duplicates: one entry per distinct
/// parent directory, so the batch holds one submission per project path.
pub proof fn lemma_project_paths_nodup(keys: Seq<Seq<char>>)
    ensures
        forall|k1: int, k2: int|
            0 <= k1 < k2 < project_paths(keys, 0).len() ==> #[trigger] project_paths(keys, 0)[k1]
                != #[trigger] project_paths(keys, 0)[k2],
{
    lemma_project_paths_nodup_from(keys, 0);
}

proof fn lemma_project_paths_nodup_from(keys: Seq<Seq<char>>, i: int)
    requires
        0 <= i <= keys.len(),
    ensures
        forall|k1: int, k2: int|
            0 <= k1 < k2 < project_paths(keys, i).len() ==> #[trigger] project_paths(keys, i)[k1]
                != #[trigger] project_paths(keys, i)[k2],
    decreases keys.len() - i,
{
    if i < keys.len() {
        lemma_project_paths_nodup_from(keys, i + 1);
        let rest = project_paths(keys, i + 1);
        if first_parent_occurrence(keys, i) {
            let whole = project_paths(keys, i);
            assert(whole == seq![parent_dir(keys[i])].add(rest));
            assert forall|k1: int, k2: int| 0 <= k1 < k2 < whole.len() implies #[trigger] whole[k1]
                != #[trigger] whole[k2] by {
                if k1 == 0 {
                    if whole[k2] == parent_dir(keys[i]) {
                        assert(rest[k2 - 1] == parent_dir(keys[i]));
                        assert(rest.contains(parent_dir(keys[i])));
                        lemma_project_paths_membership_from(keys, i + 1, parent_dir(keys[i]));
                        let j = choose|j: int|
                            i + 1 <= j < keys.len() && parent_dir(keys[j]) == parent_dir(keys[i])
                                && #[trigger] first_parent_occurrence(keys, j);
                        assert(parent_dir(keys[i]) == parent_dir(keys[j]));
                        assert(!first_parent_occurrence(keys, j));
                        assert(false);
                    }
                } else {
                    assert(whole[k1] == rest[k1 - 1]);
                    assert(whole[k2] == rest[k2 - 1]);
                }
            }
        }
    }
}

/// The keys whose parent directory is `path`, at or after position `i`, in
/// order.
pub open spec fn files_under(keys: Seq<Seq<char>>, i: int, path: Seq<char>) -> Seq<Seq<char>>
    decreases keys.len() - i,
{
    if 0 <= i && i < keys.len() {
        let rest = files_under(keys, i + 1, path);
        if parent_dir(keys[i]) == path {
            seq![keys[i]].add(rest)
        } else {
            rest
        }
    } else {
        Seq::empty()
    }
}

/// The `_`-separated fields of a directory name.
pub open spec fn split_fields(s: Seq<char>) -> Seq<Seq<char>>
    decreases s.len(),
{
    match scan_until(s, 0, '_') {
        Some(i) => if 0 <= i && i < s.len() {
            seq![s.subrange(0, i)].add(split_fields(s.subrange(i + 1, s.len() as int)))
        } else {
            seq![s]
        },
        None => seq![s],
    }
}

/// The identity derived from a submission's grandparent directory name:
/// defined exactly when the name splits at `_` into three fields
/// (id, first name, last name).
pub open spec fn student_fields(s: Seq<char>) -> Option<(Seq<char>, Seq<char>, Seq<char>)> {
    let f = split_fields(s);
    if f.len() == 3 {
        Some((f[0], f[1], f[2]))
    } else {
        None
    }
}

/// Splitting a name that starts with an underscore-free field: the field
/// comes off the front and the rest is split on its own.
proof fn lemma_split_head(a: Seq<char>, rest: Seq<char>)
    requires
        !a.contains('_'),
    ensures
        split_fields(a.add(seq!['_']).add(rest)) == seq![a].add(split_fields(rest)),
{
    let s = a.add(seq!['_']).add(rest);
    crate::parse::lemma_scan_until(s, 0, '_');
    assert(s[a.len() as int] == '_');
    match scan_until(s, 0, '_') {
        Some(j) => {
            if j < a.len() {
                assert(s[j] == a[j]);
                assert(a.contains('_'));
                assert(false);
            }
            assert(j == a.len());
            assert(s.subrange(0, j) =~= a);
            assert(s.subrange(j + 1, s.len() as int) =~= rest);
        },
        None => {
            assert(false);
        },
    }
}

/// A name with no underscore is a single field.
proof fn lemma_split_single(a: Seq<char>)
    requires
        !a.contains('_'),
    ensures
        split_fields(a) == seq![a],
{
    crate::parse::lemma_scan_until(a, 0, '_');
    match scan_until(a, 0, '_') {
        Some(j) => {
            assert(a.contains('_'));
            assert(false);
        },
        None => {},
    }
}

/// For every well-formed directory name `{id}_{first}_{last}` — each field
/// free of underscores — the derived identity is exactly (id, first, last).
/// Any other field count yields `None` by the definition of
/// [`student_fields`], excluding only that submission.
pub proof fn lemma_wellformed_name_fields(id: Seq<char>, first: Seq<char>, last: Seq<char>)
    requires
        !id.contains('_'),
        !first.contains('_'),
        !last.contains('_'),
    ensures
        student_fields(id.add(seq!['_']).add(first).add(seq!['_']).add(last)) == Some(
            (id, first, last),
        ),
{
    let tail = first.add(seq!['_']).add(last);
    lemma_split_head(first, last);
    lemma_split_single(last);
    assert(id.add(seq!['_']).add(first).add(seq!['_']).add(last) =~= id.add(seq!['_']).add(tail));
    lemma_split_head(id, tail);
    assert(split_fields(id.add(seq!['_']).add(tail)) =~= seq![id, first, last]);
}

/// One student's submission: the identity derived from the directory naming
/// convention, the project path that groups its files, and the source files
/// under it.
pub struct Submission {
    pub id: String,
    pub first_name: String,
    pub last_name: String,
    pub project_path: String,
    pub source_files: Vec<String>,
}

/// Mathematical model of a submission.
pub ghost struct SubmissionView {
    pub id: Seq<char>,
    pub first_name: Seq<char>,
    pub last_name: Seq<char>,
    pub project_path: Seq<char>,
    pub source_files: Seq<Seq<char>>,
}

impl View for Submission {
    type V = SubmissionView;

    open spec fn view(&self) -> SubmissionView {
        SubmissionView {
            id: self.id@,
            first_name: self.first_name@,
            last_name: self.last_name@,
            project_path: self.project_path@,
            source_files: strs_view(self.source_files@),
        }
    }
}

/// View of a list of submissions.
pub open spec fn subs_view(v: Seq<Submission>) -> Seq<SubmissionView> {
    v.map(|i: int, s: Submission| s@)
}

/// The submissions derived from the project paths at or after position `i`:
/// one per path whose grandparent directory name is well formed; any other
/// field count excludes that path without excluding the rest.
pub open spec fn submissions_of(
    paths: Seq<Seq<char>>,
    i: int,
    files: Seq<Seq<char>>,
) -> Seq<SubmissionView>
    decreases paths.len() - i,
{
    if 0 <= i && i < paths.len() {
        let rest = submissions_of(paths, i + 1, files);
        match student_fields(last_segment(parent_dir(paths[i]))) {
            Some(t) => seq![
                SubmissionView {
                    id: t.0,
                    first_name: t.1,
                    last_name: t.2,
                    project_path: paths[i],
                    source_files: files_under(files, 0, paths[i]),
                },
            ].add(rest),
            None => rest,
        }
    } else {
        Seq::empty()
    }
}

/// The whole discovery step: filter the listed keys to the source suffix,
/// group by parent directory, and derive one submission per project path
/// with a well-formed grandparent name.
pub open spec fn discover_spec(keys: Seq<Seq<char>>) -> Seq<SubmissionView> {
    let files = source_keys(keys, 0);
    submissions_of(project_paths(files, 0), 0, files)
}

/// Whether `s` ends with `suffix`, by characters.
pub fn ends_with_x(s: &str, suffix: &str) -> (r: bool)
    ensures
        r == ends_with(s@, suffix@),
{
    let n = s.unicode_len();
    let m = suffix.unicode_len();
    if m > n {
        return false;
    }
    range_eq(s, n - m, n, suffix)
}

/// The position of the last `/` in `s`, if any.
fn last_slash_x(s: &str, n: usize) -> (r: Option<usize>)
    requires
        n == s@.len(),
    ensures
        match r {
            Some(i) => last_slash(s@, n as int - 1) == Some(i as int) && i < n,
            None => last_slash(s@, n as int - 1) is None,
        },
{
    let mut k = n;
    while k > 0
        invariant
            n == s@.len(),
            k <= n,
            last_slash(s@, n as int - 1) == last_slash(s@, k as int - 1),
        decreases k,
    {
        k = k - 1;
        if s.get_char(k) == '/' {
            return Some(k);
        }
    }
    None
}

/// The directory part of a key: everything before the last `/`, or empty.
pub fn parent_dir_x(s: &str) -> (r: String)
    ensures
        r@ == parent_dir(s@),
{
    let n = s.unicode_len();
    match last_slash_x(s, n) {
        Some(i) => substring_string(s, 0, i),
        None => {
            let r = String::new();
            proof {
                assert(r@ =~= parent_dir(s@));
            }
            r
        },
    }
}

/// The last `/`-separated segment of a key, or the key itself.
pub fn last_segment_x(s: &str) -> (r: String)
    ensures
        r@ == last_segment(s@),
{
    let n = s.unicode_len();
    match last_slash_x(s, n) {
        Some(i) => substring_string(s, i + 1, n),
        None => s.to_owned(),
    }
}

/// Whether `keys[i]` appears nowhere earlier in `keys`.
fn first_occurrence_x(keys: &Vec<String>, i: usize) -> (r: bool)
    requires
        i < keys.len(),
    ensures
        r == first_occurrence(strs_view(keys@), i as int),
{
    let mut j: usize = 0;
    while j < i
        invariant
            i < keys.len(),
            j <= i,
            forall|u: int| 0 <= u < j ==> strs_view(keys@)[u] != strs_view(keys@)[i as int],
        decreases i - j,
    {
        if str_eq(keys[j].as_str(), keys[i].as_str()) {
            proof {
                assert(strs_view(keys@)[j as int] == keys@[j as int]@);
                assert(strs_view(keys@)[i as int] == keys@[i as int]@);
            }
            return false;
        }
        j = j + 1;
    }
    true
}

/// Filters the listed keys to those ending in `.pde`, dropping duplicates;
/// the first occurrence of each key is kept, in order.
pub fn filter_source_keys(keys: &Vec<String>) -> (r: Vec<String>)
    ensures
        strs_view(r@) == source_keys(strs_view(keys@), 0),
{
    let ghost kv = strs_view(keys@);
    let mut acc: Vec<String> = Vec::new();
    let mut i = keys.len();
    proof {
        assert(strs_view(acc@) =~= source_keys(kv, i as int));
    }
    while i > 0
        invariant
            kv == strs_view(keys@),
            kv.len() == keys.len(),
            i <= keys.len(),
            strs_view(acc@) == source_keys(kv, i as int),
        decreases i,
    {
        i = i - 1;
        if ends_with_x(keys[i].as_str(), ".pde") && first_occurrence_x(keys, i) {
            let ghost old_acc = acc@;
            acc.insert(0, keys[i].clone());
            proof {
                assert(strs_view(acc@) =~= seq![kv[i as int]].add(strs_view(old_acc)));
            }
        }
    }
    acc
}

/// Whether the parent directory of `keys[i]` appears nowhere earlier.
fn first_parent_occurrence_x(keys: &Vec<String>, i: usize) -> (r: bool)
    requires
        i < keys.len(),
    ensures
        r == first_parent_occurrence(strs_view(keys@), i as int),
{
    let pi = parent_dir_x(keys[i].as_str());
    let mut j: usize = 0;
    while j < i
        invariant
            i < keys.len(),
            j <= i,
            pi@ == parent_dir(strs_view(keys@)[i as int]),
            forall|u: int|
                0 <= u < j ==> parent_dir(strs_view(keys@)[u]) != parent_dir(
                    strs_view(keys@)[i as int],
                ),
        decreases i - j,
    {
        let pj = parent_dir_x(keys[j].as_str());
        if str_eq(pj.as_str(), pi.as_str()) {
            proof {
                assert(strs_view(keys@)[j as int] == keys@[j as int]@);
                assert(strs_view(keys@)[i as int] == keys@[i as int]@);
            }
            return false;
        }
        j = j + 1;
    }
    true
}

/// The distinct parent directories of the given keys, in order of first
/// appearance: one project path per submission.
pub fn project_paths_x(keys: &Vec<String>) -> (r: Vec<String>)
    ensures
        strs_view(r@) == project_paths(strs_view(keys@), 0),
{
    let ghost kv = strs_view(keys@);
    let mut acc: Vec<String> = Vec::new();
    let mut i = keys.len();
    proof {
        assert(strs_view(acc@) =~= project_paths(kv, i as int));
    }
    while i > 0
        invariant
            kv == strs_view(keys@),
            kv.len() == keys.len(),
            i <= keys.len(),
            strs_view(acc@) == project_paths(kv, i as int),
        decreases i,
    {
        i = i - 1;
        if first_parent_occurrence_x(keys, i) {
            let ghost old_acc = acc@;
            acc.insert(0, parent_dir_x(keys[i].as_str()));
            proof {
                assert(strs_view(acc@) =~= seq![parent_dir(kv[i as int])].add(
                    strs_view(old_acc),
                ));
            }
        }
    }
    acc
}

/// The keys whose parent directory is `path`, in order.
pub fn files_under_x(keys: &Vec<String>, path: &String) -> (r: Vec<String>)
    ensures
        strs_view(r@) == files_under(strs_view(keys@), 0, path@),
{
    let ghost kv = strs_view(keys@);
    let mut acc: Vec<String> = Vec::new();
    let mut i = keys.len();
    proof {
        assert(strs_view(acc@) =~= files_under(kv, i as int, path@));
    }
    while i > 0
        invariant
            kv == strs_view(keys@),
            kv.len() == keys.len(),
            i <= keys.len(),
            strs_view(acc@) == files_under(kv, i as int, path@),
        decreases i,
    {
        i = i - 1;
        let pi = parent_dir_x(keys[i].as_str());
        if str_eq(pi.as_str(), path.as_str()) {
            let ghost old_acc = acc@;
            acc.insert(0, keys[i].clone());
            proof {
                assert(strs_view(acc@) =~= seq![kv[i as int]].add(strs_view(old_acc)));
            }
        }
    }
    acc
}

/// Splits a directory name at every `_`.
pub fn split_fields_x(s: &str) -> (r: Vec<String>)
    ensures
        strs_view(r@) == split_fields(s@),
    decreases s@.len(),
{
    let n = s.unicode_len();
    match scan_until_x(s, 0, n, '_') {
        Some(i) => {
            let head = substring_string(s, 0, i);
            let tail = s.substring_char(i + 1, n);
            let mut rest = split_fields_x(tail);
            let ghost old_rest = rest@;
            rest.insert(0, head);
            proof {
                assert(tail@ =~= s@.subrange(i + 1, s@.len() as int));
                assert(strs_view(rest@) =~= seq![s@.subrange(0, i as int)].add(
                    split_fields(s@.subrange(i + 1, s@.len() as int)),
                ));
            }
            rest
        },
        None => {
            let mut v: Vec<String> = Vec::new();
            v.push(s.to_owned());
            proof {
                assert(strs_view(v@) =~= seq![s@]);
            }
            v
        },
    }
}

/// Derives a submission identity from a directory name: defined exactly
/// when the name splits at `_` into three fields (id, first, last); any
/// other field count yields `None`.
pub fn parse_student_info(dir: &str) -> (r: Option<(String, String, String)>)
    ensures
        match r {
            Some(t) => student_fields(dir@) == Some((t.0@, t.1@, t.2@)),
            None => student_fields(dir@) is None,
        },
{
    let f = split_fields_x(dir);
    if f.len() == 3 {
        Some((f[0].clone(), f[1].clone(), f[2].clone()))
    } else {
        None
    }
}

/// Discovers the submissions of a batch from the listed object keys:
/// filters to source files, groups by project path, and derives each
/// submission's identity; a malformed directory name excludes only that
/// submission.
pub fn discover(keys: &Vec<String>) -> (r: Vec<Submission>)
    ensures
        subs_view(r@) == discover_spec(strs_view(keys@)),
{
    let files = filter_source_keys(keys);
    let paths = project_paths_x(&files);
    let ghost fv = strs_view(files@);
    let ghost pv = strs_view(paths@);
    let mut acc: Vec<Submission> = Vec::new();
    let mut i = paths.len();
    proof {
        assert(subs_view(acc@) =~= submissions_of(pv, i as int, fv));
    }
    while i > 0
        invariant
            fv == strs_view(files@),
            pv == strs_view(paths@),
            pv.len() == paths.len(),
            i <= paths.len(),
            subs_view(acc@) == submissions_of(pv, i as int, fv),
        decreases i,
    {
        i = i - 1;
        let pd = parent_dir_x(paths[i].as_str());
        let dir = last_segment_x(pd.as_str());
        match parse_student_info(dir.as_str()) {
            Some((id, first_name, last_name)) => {
                let sub = Submission {
                    id,
                    first_name,
                    last_name,
                    project_path: paths[i].clone(),
                    source_files: files_under_x(&files, &paths[i]),
                };
                let ghost old_acc = acc@;
                let ghost sv = sub@;
                acc.insert(0, sub);
                proof {
                    assert(subs_view(acc@) =~= seq![sv].add(subs_view(old_acc)));
                }
            },
            None => {},
        }
    }
    acc
}

} // verus!
