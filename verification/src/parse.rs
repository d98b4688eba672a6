//! Verified parser for the test runner's XML report.
//!
//! The grammar is the fixed report schema described in [`crate::junit_xml`]:
//! an optional XML declaration, then a single `<testsuite>` root whose
//! attributes `name`, `tests`, `failures`, `errors` and `time` are required,
//! holding `<properties/>`, `<testcase>`, `<system-out>` and `<system-err>`
//! children.  Any other root element, any unrecognized child element, any
//! missing required attribute and any ill-formed markup is a strict parse
//! error.  Attribute values and text content are read verbatim up to the
//! closing delimiter; attributes may come in any order.
//!
//! The meaning of every executable function here is pinned to the spec-level
//! parser [`parse_report`], a total function of the input characters; the
//! executable parser returns exactly what it describes.

use vstd::prelude::*;

use crate::errors::GradeError;
use crate::junit_xml::{
    Failure, FailureView, Properties, TestCase, TestCaseView, TestSuite, TestSuiteChild,
    TestSuiteChildView, TestSuiteView,
};

verus! {

/// XML whitespace.
pub open spec fn is_space(c: char) -> bool {
    c == ' ' || c == '\t' || c == '\n' || c == '\r'
}

/// Characters accepted in element and attribute names.
pub open spec fn is_name_char(c: char) -> bool {
    let u = c as u32;
    (97 <= u && u <= 122) || (65 <= u && u <= 90) || (48 <= u && u <= 57) || c == '-' || c == '_'
        || c == '.' || c == ':'
}

/// The first position at or after `i` holding a non-space character, or the
/// end of the input.
pub open spec fn skip_spaces(s: Seq<char>, i: int) -> int
    decreases s.len() - i,
{
    if 0 <= i && i < s.len() && is_space(s[i]) {
        skip_spaces(s, i + 1)
    } else {
        i
    }
}

/// The first position at or after `i` holding a non-name character, or the
/// end of the input.
pub open spec fn scan_name(s: Seq<char>, i: int) -> int
    decreases s.len() - i,
{
    if 0 <= i && i < s.len() && is_name_char(s[i]) {
        scan_name(s, i + 1)
    } else {
        i
    }
}

/// The first position at or after `i` holding `c`, if any.
pub open spec fn scan_until(s: Seq<char>, i: int, c: char) -> Option<int>
    decreases s.len() - i,
{
    if 0 <= i && i < s.len() {
        if s[i] == c {
            Some(i)
        } else {
            scan_until(s, i + 1, c)
        }
    } else {
        None
    }
}

/// What `scan_until` returns: the position of the first occurrence of `c`
/// at or after `i`, or `None` when `c` does not occur there.
pub proof fn lemma_scan_until(s: Seq<char>, i: int, c: char)
    requires
        0 <= i <= s.len(),
    ensures
        match scan_until(s, i, c) {
            Some(j) => i <= j < s.len() && s[j] == c && (forall|k: int|
                i <= k < j ==> s[k] != c),
            None => forall|k: int| i <= k < s.len() ==> s[k] != c,
        },
    decreases s.len() - i,
{
    if i < s.len() && s[i] != c {
        lemma_scan_until(s, i + 1, c);
    }
}

/// Attribute list `name="value"`*: each pair is the attribute's name and its
/// verbatim value.  Yields the pairs in order together with the position
/// right after the last attribute (and any trailing spaces).
pub open spec fn parse_attrs(s: Seq<char>, i: int) -> Option<(Seq<(Seq<char>, Seq<char>)>, int)>
    decreases s.len() - i,
{
    let j = skip_spaces(s, i);
    if 0 <= j && j < s.len() && is_name_char(s[j]) {
        let k = scan_name(s, j);
        let name = s.subrange(j, k);
        let k1 = skip_spaces(s, k);
        if k1 < s.len() && s[k1] == '=' {
            let k2 = skip_spaces(s, k1 + 1);
            if k2 < s.len() && s[k2] == '"' {
                match scan_until(s, k2 + 1, '"') {
                    Some(vend) => if i < vend + 1 && vend + 1 <= s.len() {
                        match parse_attrs(s, vend + 1) {
                            Some(r) => Some(
                                (seq![(name, s.subrange(k2 + 1, vend))].add(r.0), r.1),
                            ),
                            None => None,
                        }
                    } else {
                        None
                    },
                    None => None,
                }
            } else {
                None
            }
        } else {
            None
        }
    } else {
        Some((Seq::empty(), j))
    }
}

/// The value of the first attribute named `name`, if any.
pub open spec fn attr_value(attrs: Seq<(Seq<char>, Seq<char>)>, name: Seq<char>) -> Option<
    Seq<char>,
>
    decreases attrs.len(),
{
    if attrs.len() == 0 {
        None
    } else if attrs[0].0 == name {
        Some(attrs[0].1)
    } else {
        attr_value(attrs.drop_first(), name)
    }
}

/// A closing tag `</tag>` starting at `t`; yields the position after `>`.
pub open spec fn parse_close(s: Seq<char>, t: int, tag: Seq<char>) -> Option<int> {
    if 0 <= t && t + 2 <= s.len() && s[t] == '<' && s[t + 1] == '/' {
        let k = scan_name(s, t + 2);
        if s.subrange(t + 2, k) == tag {
            let k1 = skip_spaces(s, k);
            if k1 < s.len() && s[k1] == '>' {
                Some(k1 + 1)
            } else {
                None
            }
        } else {
            None
        }
    } else {
        None
    }
}

/// The tail of a text-only element whose attributes end at `p`: either a
/// self-closing `/>` (empty text) or `>` followed by verbatim text up to the
/// matching `</tag>`.  Yields the text and the position after the element.
pub open spec fn parse_leaf_end(s: Seq<char>, p: int, tag: Seq<char>) -> Option<(Seq<char>, int)> {
    if 0 <= p && p + 2 <= s.len() && s[p] == '/' && s[p + 1] == '>' {
        Some((Seq::empty(), p + 2))
    } else if 0 <= p && p < s.len() && s[p] == '>' {
        match scan_until(s, p + 1, '<') {
            Some(t) => match parse_close(s, t, tag) {
                Some(e) => Some((s.subrange(p + 1, t), e)),
                None => None,
            },
            None => None,
        }
    } else {
        None
    }
}

/// True when `t` holds only whitespace.
pub open spec fn all_spaces(t: Seq<char>) -> bool {
    forall|k: int| 0 <= k < t.len() ==> is_space(t[k])
}

/// The children of one `<testcase>` element starting at `i`: at most one
/// `<failure message type>` and at most one `<error>`, in either order,
/// closed by `</testcase>`.  Yields the accumulated failure and error and
/// the position after the closing tag.
pub open spec fn parse_case_children(
    s: Seq<char>,
    i: int,
    failure: Option<FailureView>,
    error: Option<Seq<char>>,
) -> Option<(Option<FailureView>, Option<Seq<char>>, int)>
    decreases s.len() - i,
{
    let j = skip_spaces(s, i);
    if 0 <= j && j + 2 <= s.len() && s[j] == '<' && s[j + 1] == '/' {
        match parse_close(s, j, "testcase"@) {
            Some(e) => Some((failure, error, e)),
            None => None,
        }
    } else if 0 <= j && j + 1 < s.len() && s[j] == '<' && is_name_char(s[j + 1]) {
        let k = scan_name(s, j + 1);
        let name = s.subrange(j + 1, k);
        match parse_attrs(s, k) {
            Some((attrs, p)) => if name == "failure"@ {
                if failure is Some {
                    None
                } else {
                    match (attr_value(attrs, "message"@), attr_value(attrs, "type"@)) {
                        (Some(m), Some(ty)) => match parse_leaf_end(s, p, "failure"@) {
                            Some((text, e)) => if i < e && e <= s.len() {
                                parse_case_children(
                                    s,
                                    e,
                                    Some(FailureView { message: m, failure_type: ty, value: text }),
                                    error,
                                )
                            } else {
                                None
                            },
                            None => None,
                        },
                        _ => None,
                    }
                }
            } else if name == "error"@ {
                if error is Some {
                    None
                } else {
                    match parse_leaf_end(s, p, "error"@) {
                        Some((text, e)) => if i < e && e <= s.len() {
                            parse_case_children(s, e, failure, Some(text))
                        } else {
                            None
                        },
                        None => None,
                    }
                }
            } else {
                None
            },
            None => None,
        }
    } else {
        None
    }
}

/// One direct child of the root starting at `j` (which must hold `<` and a
/// name): a `<properties>` with blank content, a `<testcase>` with its
/// required attributes and optional failure/error children, a
/// `<system-out>` or a `<system-err>`.  Any other element name is a strict
/// error.  Yields the child and the position after it.
pub open spec fn parse_child(s: Seq<char>, j: int) -> Option<(TestSuiteChildView, int)> {
    if 0 <= j && j + 1 < s.len() && s[j] == '<' && is_name_char(s[j + 1]) {
        let k = scan_name(s, j + 1);
        let name = s.subrange(j + 1, k);
        match parse_attrs(s, k) {
            Some((attrs, p)) => if name == "properties"@ {
                match parse_leaf_end(s, p, "properties"@) {
                    Some((text, e)) => if all_spaces(text) {
                        Some((TestSuiteChildView::Properties, e))
                    } else {
                        None
                    },
                    None => None,
                }
            } else if name == "testcase"@ {
                match (
                    attr_value(attrs, "name"@),
                    attr_value(attrs, "classname"@),
                    attr_value(attrs, "time"@),
                ) {
                    (Some(nm), Some(cn), Some(tm)) => {
                        if 0 <= p && p + 2 <= s.len() && s[p] == '/' && s[p + 1] == '>' {
                            Some(
                                (
                                    TestSuiteChildView::TestCase(
                                        TestCaseView {
                                            name: nm,
                                            classname: cn,
                                            time: tm,
                                            failure: None,
                                            error: None,
                                        },
                                    ),
                                    p + 2,
                                ),
                            )
                        } else if 0 <= p && p < s.len() && s[p] == '>' {
                            match parse_case_children(s, p + 1, None, None) {
                                Some((f, er, e)) => Some(
                                    (
                                        TestSuiteChildView::TestCase(
                                            TestCaseView {
                                                name: nm,
                                                classname: cn,
                                                time: tm,
                                                failure: f,
                                                error: er,
                                            },
                                        ),
                                        e,
                                    ),
                                ),
                                None => None,
                            }
                        } else {
                            None
                        }
                    },
                    _ => None,
                }
            } else if name == "system-out"@ {
                match parse_leaf_end(s, p, "system-out"@) {
                    Some((text, e)) => Some((TestSuiteChildView::SystemOut(text), e)),
                    None => None,
                }
            } else if name == "system-err"@ {
                match parse_leaf_end(s, p, "system-err"@) {
                    Some((text, e)) => Some((TestSuiteChildView::SystemErr(text), e)),
                    None => None,
                }
            } else {
                None
            },
            None => None,
        }
    } else {
        None
    }
}

/// The children of the root starting at `i`, closed by `</testsuite>`.
/// Yields the children in order and the position after the closing tag.
pub open spec fn parse_children(s: Seq<char>, i: int) -> Option<(Seq<TestSuiteChildView>, int)>
    decreases s.len() - i,
{
    let j = skip_spaces(s, i);
    if 0 <= j && j + 2 <= s.len() && s[j] == '<' && s[j + 1] == '/' {
        match parse_close(s, j, "testsuite"@) {
            Some(e) => Some((Seq::empty(), e)),
            None => None,
        }
    } else {
        match parse_child(s, j) {
            Some((c, e)) => if i < e && e <= s.len() {
                match parse_children(s, e) {
                    Some(r) => Some((seq![c].add(r.0), r.1)),
                    None => None,
                }
            } else {
                None
            },
            None => None,
        }
    }
}

/// Skips an optional XML declaration `<?` ... `?>` at `i`; yields the
/// position after it, or `i` itself when none starts there.
pub open spec fn skip_decl(s: Seq<char>, i: int) -> Option<int> {
    if 0 <= i && i + 2 <= s.len() && s[i] == '<' && s[i + 1] == '?' {
        match scan_until(s, i + 2, '>') {
            Some(d) => if i + 2 <= d - 1 && s[d - 1] == '?' {
                Some(d + 1)
            } else {
                None
            },
            None => None,
        }
    } else {
        Some(i)
    }
}

/// The whole report: optional XML declaration, then a single `<testsuite>`
/// root with its five required attributes and its children, then only
/// trailing whitespace.  `None` is a strict parse error; in particular any
/// root element other than `testsuite` yields `None`.
pub open spec fn parse_report(s: Seq<char>) -> Option<TestSuiteView> {
    match skip_decl(s, skip_spaces(s, 0)) {
        Some(i1) => {
            let j = skip_spaces(s, i1);
            if 0 <= j && j + 1 < s.len() && s[j] == '<' && is_name_char(s[j + 1]) {
                let k = scan_name(s, j + 1);
                if s.subrange(j + 1, k) == "testsuite"@ {
                    match parse_attrs(s, k) {
                        Some((attrs, p)) => match (
                            attr_value(attrs, "name"@),
                            attr_value(attrs, "tests"@),
                            attr_value(attrs, "failures"@),
                            attr_value(attrs, "errors"@),
                            attr_value(attrs, "time"@),
                        ) {
                            (Some(nm), Some(ts), Some(fs), Some(es), Some(tm)) => {
                                let tail = if 0 <= p && p + 2 <= s.len() && s[p] == '/' && s[p + 1]
                                    == '>' {
                                    Some((Seq::<TestSuiteChildView>::empty(), p + 2))
                                } else if 0 <= p && p < s.len() && s[p] == '>' {
                                    parse_children(s, p + 1)
                                } else {
                                    None
                                };
                                match tail {
                                    Some((children, e)) => if skip_spaces(s, e) == s.len() {
                                        Some(
                                            TestSuiteView {
                                                name: nm,
                                                tests: ts,
                                                failures: fs,
                                                errors: es,
                                                time: tm,
                                                children: children,
                                            },
                                        )
                                    } else {
                                        None
                                    },
                                    None => None,
                                }
                            },
                            _ => None,
                        },
                        None => None,
                    }
                } else {
                    None
                }
            } else {
                None
            }
        },
        None => None,
    }
}

/// View of an executable attribute list.
pub open spec fn attrs_view(v: Seq<(String, String)>) -> Seq<(Seq<char>, Seq<char>)> {
    v.map(|i: int, p: (String, String)| (p.0@, p.1@))
}

/// View of an executable child list.
pub open spec fn children_view(v: Seq<TestSuiteChild>) -> Seq<TestSuiteChildView> {
    v.map(|i: int, c: TestSuiteChild| c@)
}

fn is_space_x(c: char) -> (r: bool)
    ensures
        r == is_space(c),
{
    c == ' ' || c == '\t' || c == '\n' || c == '\r'
}

fn is_name_char_x(c: char) -> (r: bool)
    ensures
        r == is_name_char(c),
{
    let u = c as u32;
    (97 <= u && u <= 122) || (65 <= u && u <= 90) || (48 <= u && u <= 57) || c == '-' || c == '_'
        || c == '.' || c == ':'
}

fn skip_spaces_x(s: &str, i: usize, n: usize) -> (r: usize)
    requires
        n == s@.len(),
        i <= n,
    ensures
        r == skip_spaces(s@, i as int),
        i <= r <= n,
{
    let mut j = i;
    while j < n && is_space_x(s.get_char(j))
        invariant
            n == s@.len(),
            i <= j <= n,
            skip_spaces(s@, i as int) == skip_spaces(s@, j as int),
        decreases n - j,
    {
        j = j + 1;
    }
    j
}

fn scan_name_x(s: &str, i: usize, n: usize) -> (r: usize)
    requires
        n == s@.len(),
        i <= n,
    ensures
        r == scan_name(s@, i as int),
        i <= r <= n,
{
    let mut j = i;
    while j < n && is_name_char_x(s.get_char(j))
        invariant
            n == s@.len(),
            i <= j <= n,
            scan_name(s@, i as int) == scan_name(s@, j as int),
        decreases n - j,
    {
        j = j + 1;
    }
    j
}

pub(crate) fn scan_until_x(s: &str, i: usize, n: usize, c: char) -> (r: Option<usize>)
    requires
        n == s@.len(),
        i <= n,
    ensures
        match r {
            Some(j) => scan_until(s@, i as int, c) == Some(j as int) && i <= j < n,
            None => scan_until(s@, i as int, c) is None,
        },
{
    let mut j = i;
    while j < n && s.get_char(j) != c
        invariant
            n == s@.len(),
            i <= j <= n,
            scan_until(s@, i as int, c) == scan_until(s@, j as int, c),
        decreases n - j,
    {
        j = j + 1;
    }
    if j < n {
        Some(j)
    } else {
        None
    }
}

/// Extracts the characters in `[lo, hi)` as an owned string.
pub(crate) fn substring_string(s: &str, lo: usize, hi: usize) -> (r: String)
    requires
        lo <= hi <= s@.len(),
    ensures
        r@ == s@.subrange(lo as int, hi as int),
{
    s.substring_char(lo, hi).to_owned()
}

/// Whether the characters of `s` in `[lo, hi)` are exactly those of `kw`.
pub(crate) fn range_eq(s: &str, lo: usize, hi: usize, kw: &str) -> (r: bool)
    requires
        lo <= hi <= s@.len(),
    ensures
        r == (s@.subrange(lo as int, hi as int) == kw@),
{
    let m = kw.unicode_len();
    if m != hi - lo {
        proof {
            assert(s@.subrange(lo as int, hi as int).len() == hi - lo);
        }
        return false;
    }
    let mut t: usize = 0;
    while t < m
        invariant
            m == kw@.len(),
            m == hi - lo,
            lo <= hi <= s@.len(),
            t <= m,
            forall|u: int| 0 <= u < t ==> s@[lo + u] == kw@[u],
        decreases m - t,
    {
        if s.get_char(lo + t) != kw.get_char(t) {
            proof {
                assert(s@.subrange(lo as int, hi as int)[t as int] == s@[lo + t]);
            }
            return false;
        }
        t = t + 1;
    }
    proof {
        assert(s@.subrange(lo as int, hi as int) =~= kw@);
    }
    true
}

/// Whether two strings hold the same characters.
pub(crate) fn str_eq(a: &str, b: &str) -> (r: bool)
    ensures
        r == (a@ == b@),
{
    let n = a.unicode_len();
    let r = range_eq(a, 0, n, b);
    proof {
        assert(a@.subrange(0, n as int) =~= a@);
    }
    r
}

/// Looks up the first attribute named `name` and clones its value.
fn find_attr(attrs: &Vec<(String, String)>, name: &str) -> (r: Option<String>)
    ensures
        match r {
            Some(v) => attr_value(attrs_view(attrs@), name@) == Some(v@),
            None => attr_value(attrs_view(attrs@), name@) is None,
        },
{
    let ghost av = attrs_view(attrs@);
    proof {
        assert(av.skip(0) =~= av);
    }
    let mut idx: usize = 0;
    while idx < attrs.len()
        invariant
            av == attrs_view(attrs@),
            idx <= attrs.len(),
            av.len() == attrs.len(),
            attr_value(av, name@) == attr_value(av.skip(idx as int), name@),
        decreases attrs.len() - idx,
    {
        if str_eq(attrs[idx].0.as_str(), name) {
            proof {
                assert(av.skip(idx as int)[0] == av[idx as int]);
            }
            return Some(attrs[idx].1.clone());
        }
        proof {
            assert(av.skip(idx as int)[0] == av[idx as int]);
            assert(av.skip(idx as int).drop_first() =~= av.skip(idx as int + 1));
        }
        idx = idx + 1;
    }
    proof {
        assert(av.skip(idx as int).len() == 0);
    }
    None
}

/// Parses the attribute list starting at `i`.
fn parse_attrs_x(s: &str, i: usize, n: usize) -> (r: Option<(Vec<(String, String)>, usize)>)
    requires
        n == s@.len(),
        i <= n,
    ensures
        match r {
            Some(v) => parse_attrs(s@, i as int) == Some((attrs_view(v.0@), v.1 as int)) && i
                <= v.1 <= n,
            None => parse_attrs(s@, i as int) is None,
        },
    decreases n - i,
{
    let j = skip_spaces_x(s, i, n);
    if j < n && is_name_char_x(s.get_char(j)) {
        let k = scan_name_x(s, j, n);
        let name = substring_string(s, j, k);
        let k1 = skip_spaces_x(s, k, n);
        if k1 < n && s.get_char(k1) == '=' {
            let k2 = skip_spaces_x(s, k1 + 1, n);
            if k2 < n && s.get_char(k2) == '"' {
                match scan_until_x(s, k2 + 1, n, '"') {
                    Some(vend) => {
                        let value = substring_string(s, k2 + 1, vend);
                        match parse_attrs_x(s, vend + 1, n) {
                            Some((mut rest, e)) => {
                                let ghost old_rest = rest@;
                                rest.insert(0, (name, value));
                                proof {
                                    assert(attrs_view(rest@) =~= seq![
                                        (s@.subrange(j as int, k as int), s@.subrange(
                                            k2 + 1,
                                            vend as int,
                                        )),
                                    ].add(attrs_view(old_rest)));
                                }
                                Some((rest, e))
                            },
                            None => None,
                        }
                    },
                    None => None,
                }
            } else {
                None
            }
        } else {
            None
        }
    } else {
        let r: Vec<(String, String)> = Vec::new();
        proof {
            assert(attrs_view(r@) =~= Seq::<(Seq<char>, Seq<char>)>::empty());
        }
        Some((r, j))
    }
}

/// Parses a closing tag `</tag>` starting at `t`.
fn parse_close_x(s: &str, t: usize, n: usize, tag: &str) -> (r: Option<usize>)
    requires
        n == s@.len(),
        t <= n,
    ensures
        match r {
            Some(e) => parse_close(s@, t as int, tag@) == Some(e as int) && t < e <= n,
            None => parse_close(s@, t as int, tag@) is None,
        },
{
    if t < n && t + 1 < n && s.get_char(t) == '<' && s.get_char(t + 1) == '/' {
        let k = scan_name_x(s, t + 2, n);
        if range_eq(s, t + 2, k, tag) {
            let k1 = skip_spaces_x(s, k, n);
            if k1 < n && s.get_char(k1) == '>' {
                Some(k1 + 1)
            } else {
                None
            }
        } else {
            None
        }
    } else {
        None
    }
}

/// Parses the tail of a text-only element whose attributes end at `p`.
fn parse_leaf_end_x(s: &str, p: usize, n: usize, tag: &str) -> (r: Option<(String, usize)>)
    requires
        n == s@.len(),
        p <= n,
    ensures
        match r {
            Some(v) => parse_leaf_end(s@, p as int, tag@) == Some((v.0@, v.1 as int)) && p < v.1
                <= n,
            None => parse_leaf_end(s@, p as int, tag@) is None,
        },
{
    if p < n && p + 1 < n && s.get_char(p) == '/' && s.get_char(p + 1) == '>' {
        Some((String::new(), p + 2))
    } else if p < n && s.get_char(p) == '>' {
        match scan_until_x(s, p + 1, n, '<') {
            Some(t) => match parse_close_x(s, t, n, tag) {
                Some(e) => Some((substring_string(s, p + 1, t), e)),
                None => None,
            },
            None => None,
        }
    } else {
        None
    }
}

/// Parses the children of one `<testcase>` element starting at `i`.
fn parse_case_children_x(
    s: &str,
    i: usize,
    n: usize,
    failure: Option<Failure>,
    error: Option<String>,
) -> (r: Option<(Option<Failure>, Option<String>, usize)>)
    requires
        n == s@.len(),
        i <= n,
    ensures
        match r {
            Some(v) => parse_case_children(s@, i as int, failure_view(failure), option_view(error))
                == Some((failure_view(v.0), option_view(v.1), v.2 as int)) && i <= v.2 <= n,
            None => parse_case_children(
                s@,
                i as int,
                failure_view(failure),
                option_view(error),
            ) is None,
        },
    decreases n - i,
{
    let j = skip_spaces_x(s, i, n);
    if j < n && j + 1 < n && s.get_char(j) == '<' && s.get_char(j + 1) == '/' {
        match parse_close_x(s, j, n, "testcase") {
            Some(e) => Some((failure, error, e)),
            None => None,
        }
    } else if j < n && j + 1 < n && s.get_char(j) == '<' && is_name_char_x(s.get_char(j + 1)) {
        let k = scan_name_x(s, j + 1, n);
        match parse_attrs_x(s, k, n) {
            Some((attrs, p)) => if range_eq(s, j + 1, k, "failure") {
                if failure.is_some() {
                    None
                } else {
                    let m = find_attr(&attrs, "message");
                    let ty = find_attr(&attrs, "type");
                    match (m, ty) {
                        (Some(m), Some(ty)) => match parse_leaf_end_x(s, p, n, "failure") {
                            Some((text, e)) => parse_case_children_x(
                                s,
                                e,
                                n,
                                Some(Failure { message: m, failure_type: ty, value: text }),
                                error,
                            ),
                            None => None,
                        },
                        _ => None,
                    }
                }
            } else if range_eq(s, j + 1, k, "error") {
                if error.is_some() {
                    None
                } else {
                    match parse_leaf_end_x(s, p, n, "error") {
                        Some((text, e)) => parse_case_children_x(s, e, n, failure, Some(text)),
                        None => None,
                    }
                }
            } else {
                None
            },
            None => None,
        }
    } else {
        None
    }
}

/// View of an optional `<failure>` element.
pub open spec fn failure_view(f: Option<Failure>) -> Option<FailureView> {
    match f {
        Some(x) => Some(x@),
        None => None,
    }
}

/// View of an optional text value.
pub open spec fn option_view(e: Option<String>) -> Option<Seq<char>> {
    match e {
        Some(x) => Some(x@),
        None => None,
    }
}

/// Parses one direct child of the root starting at `j`.
fn parse_child_x(s: &str, j: usize, n: usize) -> (r: Option<(TestSuiteChild, usize)>)
    requires
        n == s@.len(),
        j <= n,
    ensures
        match r {
            Some(v) => parse_child(s@, j as int) == Some((v.0@, v.1 as int)) && j < v.1 <= n,
            None => parse_child(s@, j as int) is None,
        },
{
    if j < n && j + 1 < n && s.get_char(j) == '<' && is_name_char_x(s.get_char(j + 1)) {
        let k = scan_name_x(s, j + 1, n);
        match parse_attrs_x(s, k, n) {
            Some((attrs, p)) => if range_eq(s, j + 1, k, "properties") {
                match parse_leaf_end_x(s, p, n, "properties") {
                    Some((text, e)) => {
                        if text_all_spaces(&text) {
                            Some((TestSuiteChild::Properties(Properties {}), e))
                        } else {
                            None
                        }
                    },
                    None => None,
                }
            } else if range_eq(s, j + 1, k, "testcase") {
                let nm = find_attr(&attrs, "name");
                let cn = find_attr(&attrs, "classname");
                let tm = find_attr(&attrs, "time");
                match (nm, cn, tm) {
                    (Some(nm), Some(cn), Some(tm)) => {
                        if p < n && p + 1 < n && s.get_char(p) == '/' && s.get_char(p + 1) == '>' {
                            Some(
                                (
                                    TestSuiteChild::TestCase(
                                        TestCase {
                                            name: nm,
                                            classname: cn,
                                            time: tm,
                                            failure: None,
                                            error: None,
                                        },
                                    ),
                                    p + 1 + 1,
                                ),
                            )
                        } else if p < n && s.get_char(p) == '>' {
                            match parse_case_children_x(s, p + 1, n, None, None) {
                                Some((f, er, e)) => Some(
                                    (
                                        TestSuiteChild::TestCase(
                                            TestCase {
                                                name: nm,
                                                classname: cn,
                                                time: tm,
                                                failure: f,
                                                error: er,
                                            },
                                        ),
                                        e,
                                    ),
                                ),
                                None => None,
                            }
                        } else {
                            None
                        }
                    },
                    _ => None,
                }
            } else if range_eq(s, j + 1, k, "system-out") {
                match parse_leaf_end_x(s, p, n, "system-out") {
                    Some((text, e)) => Some((TestSuiteChild::SystemOut(text), e)),
                    None => None,
                }
            } else if range_eq(s, j + 1, k, "system-err") {
                match parse_leaf_end_x(s, p, n, "system-err") {
                    Some((text, e)) => Some((TestSuiteChild::SystemErr(text), e)),
                    None => None,
                }
            } else {
                None
            },
            None => None,
        }
    } else {
        None
    }
}

/// Whether a string holds only whitespace.
fn text_all_spaces(t: &String) -> (r: bool)
    ensures
        r == all_spaces(t@),
{
    let ts = t.as_str();
    let m = ts.unicode_len();
    let mut u: usize = 0;
    while u < m
        invariant
            ts@ == t@,
            m == t@.len(),
            u <= m,
            forall|v: int| 0 <= v < u ==> is_space(t@[v]),
        decreases m - u,
    {
        if !is_space_x(ts.get_char(u)) {
            return false;
        }
        u = u + 1;
    }
    true
}

/// Parses the children of the root starting at `i`.
fn parse_children_x(s: &str, i: usize, n: usize) -> (r: Option<(Vec<TestSuiteChild>, usize)>)
    requires
        n == s@.len(),
        i <= n,
    ensures
        match r {
            Some(v) => parse_children(s@, i as int) == Some((children_view(v.0@), v.1 as int)) && i
                <= v.1 <= n,
            None => parse_children(s@, i as int) is None,
        },
    decreases n - i,
{
    let j = skip_spaces_x(s, i, n);
    if j < n && j + 1 < n && s.get_char(j) == '<' && s.get_char(j + 1) == '/' {
        match parse_close_x(s, j, n, "testsuite") {
            Some(e) => {
                let v: Vec<TestSuiteChild> = Vec::new();
                proof {
                    assert(children_view(v@) =~= Seq::<TestSuiteChildView>::empty());
                }
                Some((v, e))
            },
            None => None,
        }
    } else {
        match parse_child_x(s, j, n) {
            Some((c, e)) => match parse_children_x(s, e, n) {
                Some((mut rest, e2)) => {
                    let ghost old_rest = rest@;
                    let ghost cv = c@;
                    rest.insert(0, c);
                    proof {
                        assert(children_view(rest@) =~= seq![cv].add(children_view(old_rest)));
                    }
                    Some((rest, e2))
                },
                None => None,
            },
            None => None,
        }
    }
}

/// Skips an optional XML declaration.
fn skip_decl_x(s: &str, i: usize, n: usize) -> (r: Option<usize>)
    requires
        n == s@.len(),
        i <= n,
    ensures
        match r {
            Some(e) => skip_decl(s@, i as int) == Some(e as int) && i <= e <= n,
            None => skip_decl(s@, i as int) is None,
        },
{
    if i < n && i + 1 < n && s.get_char(i) == '<' && s.get_char(i + 1) == '?' {
        match scan_until_x(s, i + 2, n, '>') {
            Some(d) => if i + 2 <= d - 1 && s.get_char(d - 1) == '?' {
                Some(d + 1)
            } else {
                None
            },
            None => None,
        }
    } else {
        Some(i)
    }
}

/// Parses a whole report.  Returns the parsed suite exactly when the input
/// matches the report grammar ([`parse_report`]); every other input yields
/// `ReportParseError`.  Parsing is a function of the characters alone, so
/// parsing the same input twice returns the same value.
pub fn parse_report_str(s: &str) -> (r: Result<TestSuite, GradeError>)
    ensures
        match r {
            Ok(t) => parse_report(s@) == Some(t@),
            Err(e) => parse_report(s@) is None && e is ReportParseError,
        },
{
    let n = s.unicode_len();
    let i0 = skip_spaces_x(s, 0, n);
    let i1 = match skip_decl_x(s, i0, n) {
        Some(i1) => i1,
        None => {
            return Err(GradeError::ReportParseError);
        },
    };
    let j = skip_spaces_x(s, i1, n);
    if !(j < n && j + 1 < n && s.get_char(j) == '<' && is_name_char_x(s.get_char(j + 1))) {
        return Err(GradeError::ReportParseError);
    }
    let k = scan_name_x(s, j + 1, n);
    if !range_eq(s, j + 1, k, "testsuite") {
        return Err(GradeError::ReportParseError);
    }
    let (attrs, p) = match parse_attrs_x(s, k, n) {
        Some(v) => v,
        None => {
            return Err(GradeError::ReportParseError);
        },
    };
    let nm = find_attr(&attrs, "name");
    let ts = find_attr(&attrs, "tests");
    let fs = find_attr(&attrs, "failures");
    let es = find_attr(&attrs, "errors");
    let tm = find_attr(&attrs, "time");
    match (nm, ts, fs, es, tm) {
        (Some(nm), Some(ts), Some(fs), Some(es), Some(tm)) => {
            let tail: Option<(Vec<TestSuiteChild>, usize)> = if p < n && p + 1 < n && s.get_char(p)
                == '/' && s.get_char(p + 1) == '>' {
                let v: Vec<TestSuiteChild> = Vec::new();
                proof {
                    assert(children_view(v@) =~= Seq::<TestSuiteChildView>::empty());
                }
                Some((v, p + 1 + 1))
            } else if p < n && s.get_char(p) == '>' {
                parse_children_x(s, p + 1, n)
            } else {
                None
            };
            match tail {
                Some((children, e)) => {
                    if skip_spaces_x(s, e, n) == n {
                        let suite = TestSuite {
                            name: nm,
                            tests: ts,
                            failures: fs,
                            errors: es,
                            time: tm,
                            children,
                        };
                        proof {
                            assert(suite@.children =~= children_view(suite.children@));
                        }
                        Ok(suite)
                    } else {
                        Err(GradeError::ReportParseError)
                    }
                },
                None => Err(GradeError::ReportParseError),
            }
        },
        _ => Err(GradeError::ReportParseError),
    }
}

/// Parsing is idempotent: any two results obtained from the same report
/// text are the same value, since every parse returns exactly
/// [`parse_report`] of the input characters.
pub proof fn lemma_parse_idempotent(
    s: Seq<char>,
    r1: Option<TestSuiteView>,
    r2: Option<TestSuiteView>,
)
    requires
        r1 == parse_report(s),
        r2 == parse_report(s),
    ensures
        r1 == r2,
{
}

} // verus!
