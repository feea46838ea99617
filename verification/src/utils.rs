//! Diagnostic inspection: deciding whether captured diagnostic text signals
//! an asynchronous-context violation, and which declared asynchronous
//! runtime a manifest offers.

use vstd::prelude::*;

use crate::session::AsyncRuntime;
use crate::strutil::{spec_contains, str_contains};

verus! {

/// Case-insensitive (ASCII) character match.
pub open spec fn ci_eq(a: char, b: char) -> bool {
    let au = a as u32;
    let bu = b as u32;
    au == bu || (65 <= au <= 90 && bu == au + 32) || (65 <= bu <= 90 && au == bu + 32)
}

/// The pattern `p` occurs in `s` at position `i`, ignoring ASCII case.
pub open spec fn is_ci_match_at(s: Seq<char>, p: Seq<char>, i: int) -> bool {
    0 <= i && i + p.len() <= s.len() && forall|k: int|
        0 <= k < p.len() ==> ci_eq(s[i + k], p[k])
}

/// The pattern `p` occurs somewhere in `s`, ignoring ASCII case.
pub open spec fn spec_contains_ci(s: Seq<char>, p: Seq<char>) -> bool {
    exists|i: int| is_ci_match_at(s, p, i)
}

/// Case-insensitive character comparison.
fn chars_ci_eq(a: char, b: char) -> (r: bool)
    ensures
        r == ci_eq(a, b),
{
    let au = a as u32;
    let bu = b as u32;
    au == bu || (65 <= au && au <= 90 && bu == au + 32) || (65 <= bu && bu <= 90 && au == bu + 32)
}

/// Whether `p` occurs in `s` at position `i`, ignoring ASCII case.
fn str_ci_match_at(s: &str, p: &str, i: usize, n: usize, m: usize) -> (r: bool)
    requires
        n == s@.len(),
        m == p@.len(),
        i + m <= n,
    ensures
        r == is_ci_match_at(s@, p@, i as int),
{
    let mut j: usize = 0;
    while j < m
        invariant
            n == s@.len(),
            m == p@.len(),
            i + m <= n,
            j <= m,
            forall|k: int| 0 <= k < j ==> ci_eq(s@[i + k], p@[k]),
        decreases m - j,
    {
        if !chars_ci_eq(s.get_char(i + j), p.get_char(j)) {
            assert(!ci_eq(s@[i + j], p@[j as int]));
            return false;
        }
        j += 1;
    }
    true
}

/// Case-insensitive substring search.
pub fn str_contains_ci(s: &str, p: &str) -> (r: bool)
    ensures
        r == spec_contains_ci(s@, p@),
{
    let n = s.unicode_len();
    let m = p.unicode_len();
    if m > n {
        assert(forall|i: int| !is_ci_match_at(s@, p@, i));
        return false;
    }
    if m == 0 {
        assert(is_ci_match_at(s@, p@, 0));
        return true;
    }
    let mut i: usize = 0;
    while i <= n - m
        invariant
            n == s@.len(),
            m == p@.len(),
            0 < m <= n,
            i <= n - m + 1,
            forall|k: int| 0 <= k < i ==> !is_ci_match_at(s@, p@, k),
        decreases n - i,
    {
        if str_ci_match_at(s, p, i, n, m) {
            return true;
        }
        i += 1;
    }
    assert(forall|k: int| !is_ci_match_at(s@, p@, k));
    false
}

/// Whether diagnostic text matches a known signature of "this code needs an
/// asynchronous execution context": compiler codes for awaiting outside an
/// asynchronous function, their message texts, and the send-across-threads
/// failure class.
pub open spec fn spec_is_async_error(stderr: Seq<char>) -> bool {
    ||| spec_contains(stderr, "E0728"@)
    ||| spec_contains(stderr, "E0752"@)
    ||| spec_contains(stderr, "only allowed inside `async` functions"@)
    ||| spec_contains(stderr, "only allowed inside async functions"@)
    ||| spec_contains(stderr, "cannot be used in a `fn` item that is not `async`"@)
    ||| spec_contains(stderr, "future cannot be sent between threads safely"@)
    ||| spec_contains(stderr, "cannot be sent between threads safely"@)
    ||| spec_contains(stderr, "async fn main"@)
}

/// Decides whether captured diagnostic text looks like an
/// asynchronous-context violation, by substring matching against a fixed
/// list of known diagnostic fragments.
pub fn looks_like_async_error(stderr: &str) -> (r: bool)
    ensures
        r == spec_is_async_error(stderr@),
{
    str_contains(stderr, "E0728") || str_contains(stderr, "E0752") || str_contains(
        stderr,
        "only allowed inside `async` functions",
    ) || str_contains(stderr, "only allowed inside async functions") || str_contains(
        stderr,
        "cannot be used in a `fn` item that is not `async`",
    ) || str_contains(stderr, "future cannot be sent between threads safely") || str_contains(
        stderr,
        "cannot be sent between threads safely",
    ) || str_contains(stderr, "async fn main")
}

/// The highest-priority runtime declared by manifest text, or none.  An
/// absent manifest declares nothing.  Matching is case-insensitive substring
/// presence of each runtime's dependency name; priority is fixed, regardless
/// of textual order in the manifest.
pub open spec fn spec_detect_runtime(manifest: Option<Seq<char>>) -> Option<AsyncRuntime> {
    match manifest {
        Option::None => Option::None,
        Option::Some(t) => {
            if spec_contains_ci(t, "tokio"@) {
                Option::Some(AsyncRuntime::Tokio)
            } else if spec_contains_ci(t, "async-std"@) {
                Option::Some(AsyncRuntime::AsyncStd)
            } else if spec_contains_ci(t, "smol"@) {
                Option::Some(AsyncRuntime::Smol)
            } else {
                Option::None
            }
        },
    }
}

/// Runtime detection follows the fixed priority order, independent of where
/// each name stands in the manifest text: a manifest naming the
/// first-priority runtime always yields it, and a lower-priority runtime is
/// chosen only when no higher-priority one is named.
pub proof fn lemma_detect_priority(t: Seq<char>)
    ensures
        spec_contains_ci(t, "tokio"@) ==> spec_detect_runtime(Option::Some(t)) == Option::Some(
            AsyncRuntime::Tokio,
        ),
        !spec_contains_ci(t, "tokio"@) && spec_contains_ci(t, "async-std"@)
            ==> spec_detect_runtime(Option::Some(t)) == Option::Some(AsyncRuntime::AsyncStd),
        !spec_contains_ci(t, "tokio"@) && !spec_contains_ci(t, "async-std"@) && spec_contains_ci(
            t,
            "smol"@,
        ) ==> spec_detect_runtime(Option::Some(t)) == Option::Some(AsyncRuntime::Smol),
        !spec_contains_ci(t, "tokio"@) && !spec_contains_ci(t, "async-std"@) && !spec_contains_ci(
            t,
            "smol"@,
        ) ==> spec_detect_runtime(Option::Some(t)) is None,
        spec_detect_runtime(Option::None) is None,
{
}

/// A manifest that names exactly one supported runtime yields exactly that
/// runtime.
pub proof fn lemma_detect_single_declared(t: Seq<char>, r: AsyncRuntime)
    requires
        r == AsyncRuntime::Tokio ==> spec_contains_ci(t, "tokio"@),
        r == AsyncRuntime::AsyncStd ==> spec_contains_ci(t, "async-std"@) && !spec_contains_ci(
            t,
            "tokio"@,
        ),
        r == AsyncRuntime::Smol ==> spec_contains_ci(t, "smol"@) && !spec_contains_ci(t, "tokio"@)
            && !spec_contains_ci(t, "async-std"@),
    ensures
        spec_detect_runtime(Option::Some(t)) == Option::Some(r),
{
}

/// The view of an optional borrowed manifest text.
pub open spec fn opt_text_view(manifest: Option<&str>) -> Option<Seq<char>> {
    match manifest {
        Option::None => Option::None,
        Option::Some(t) => Option::Some(t@),
    }
}

/// Picks the highest-priority declared runtime out of manifest text, if any.
pub fn detect_async_runtime(manifest: Option<&str>) -> (r: Option<AsyncRuntime>)
    ensures
        r == spec_detect_runtime(opt_text_view(manifest)),
{
    match manifest {
        None => None,
        Some(toml) => {
            if str_contains_ci(toml, "tokio") {
                Some(AsyncRuntime::Tokio)
            } else if str_contains_ci(toml, "async-std") {
                Some(AsyncRuntime::AsyncStd)
            } else if str_contains_ci(toml, "smol") {
                Some(AsyncRuntime::Smol)
            } else {
                None
            }
        },
    }
}

} // verus!
