//! Character-sequence utilities: substring search, prefix tests, and the
//! spec-level notions of "contains" and "starts with" that the rest of the
//! crate states its contracts over.

use vstd::prelude::*;
use vstd::string::*;

verus! {

/// The pattern `p` occurs in `s` starting at position `i`.
pub open spec fn is_match_at(s: Seq<char>, p: Seq<char>, i: int) -> bool {
    0 <= i && i + p.len() <= s.len() && s.subrange(i, i + p.len() as int) == p
}

/// The pattern `p` occurs somewhere in `s`.
pub open spec fn spec_contains(s: Seq<char>, p: Seq<char>) -> bool {
    exists|i: int| is_match_at(s, p, i)
}

/// `p` is a prefix of `s`.
pub open spec fn spec_starts_with(s: Seq<char>, p: Seq<char>) -> bool {
    p.len() <= s.len() && s.subrange(0, p.len() as int) == p
}

/// Whether `p` occurs in `s` at position `i`.
fn str_match_at(s: &str, p: &str, i: usize, n: usize, m: usize) -> (r: bool)
    requires
        n == s@.len(),
        m == p@.len(),
        i + m <= n,
    ensures
        r == is_match_at(s@, p@, i as int),
{
    let mut j: usize = 0;
    while j < m
        invariant
            n == s@.len(),
            m == p@.len(),
            i + m <= n,
            j <= m,
            forall|k: int| 0 <= k < j ==> s@[i + k] == p@[k],
        decreases m - j,
    {
        if s.get_char(i + j) != p.get_char(j) {
            assert(s@.subrange(i as int, i + m as int)[j as int] != p@[j as int]);
            return false;
        }
        j += 1;
    }
    assert(s@.subrange(i as int, i + m as int) =~= p@);
    true
}

/// Substring search: whether `p` occurs anywhere in `s`.
pub fn str_contains(s: &str, p: &str) -> (r: bool)
    ensures
        r == spec_contains(s@, p@),
{
    let n = s.unicode_len();
    let m = p.unicode_len();
    if m > n {
        assert(forall|i: int| !is_match_at(s@, p@, i));
        return false;
    }
    if m == 0 {
        assert(s@.subrange(0, 0) =~= p@);
        assert(is_match_at(s@, p@, 0));
        return true;
    }
    let mut i: usize = 0;
    while i <= n - m
        invariant
            n == s@.len(),
            m == p@.len(),
            0 < m <= n,
            i <= n - m + 1,
            forall|k: int| 0 <= k < i ==> !is_match_at(s@, p@, k),
        decreases n - i,
    {
        if str_match_at(s, p, i, n, m) {
            return true;
        }
        i += 1;
    }
    assert(forall|k: int| !is_match_at(s@, p@, k));
    false
}

/// Prefix test: whether `s` begins with `p`.
pub fn str_starts_with(s: &str, p: &str) -> (r: bool)
    ensures
        r == spec_starts_with(s@, p@),
{
    let n = s.unicode_len();
    let m = p.unicode_len();
    if m > n {
        return false;
    }
    if str_match_at(s, p, 0, n, m) {
        assert(spec_starts_with(s@, p@));
        true
    } else {
        false
    }
}

/// No character from position `i` on equals `c`; written as a recursion so
/// that a concrete text can be checked by unfolding.
pub open spec fn char_free_from(s: Seq<char>, c: char, i: int) -> bool
    decreases s.len() - i,
{
    if i < 0 || i >= s.len() {
        true
    } else {
        s[i] != c && char_free_from(s, c, i + 1)
    }
}

/// No position from `i` on starts the two-character sequence `a b`.
pub open spec fn pair_free_from(s: Seq<char>, a: char, b: char, i: int) -> bool
    decreases s.len() - i,
{
    if i < 0 || i + 1 >= s.len() {
        true
    } else {
        !(s[i] == a && s[i + 1] == b) && pair_free_from(s, a, b, i + 1)
    }
}

/// The characters of `p` from position `k` on all occur in `s` starting at
/// offset `i`.
pub open spec fn match_from(s: Seq<char>, p: Seq<char>, i: int, k: int) -> bool
    decreases p.len() - k,
{
    if k < 0 || k >= p.len() {
        true
    } else {
        s[i + k] == p[k] && match_from(s, p, i, k + 1)
    }
}

pub proof fn lemma_char_free(s: Seq<char>, c: char, i: int)
    requires
        0 <= i <= s.len(),
        char_free_from(s, c, i),
    ensures
        forall|j: int| i <= j < s.len() ==> s[j] != c,
    decreases s.len() - i,
{
    if i < s.len() {
        lemma_char_free(s, c, i + 1);
    }
}

pub proof fn lemma_pair_free(s: Seq<char>, a: char, b: char, i: int)
    requires
        0 <= i <= s.len(),
        pair_free_from(s, a, b, i),
    ensures
        forall|j: int| i <= j && j + 1 < s.len() ==> !(#[trigger] s[j] == a && s[j + 1] == b),
    decreases s.len() - i,
{
    if i + 1 < s.len() {
        lemma_pair_free(s, a, b, i + 1);
    }
}

proof fn lemma_match_from(s: Seq<char>, p: Seq<char>, i: int, k: int)
    requires
        0 <= k <= p.len(),
        0 <= i,
        i + p.len() <= s.len(),
        match_from(s, p, i, k),
    ensures
        forall|j: int| k <= j < p.len() ==> s[i + j] == p[j],
    decreases p.len() - k,
{
    if k < p.len() {
        lemma_match_from(s, p, i, k + 1);
    }
}

/// A full character-by-character match at offset `i` is an occurrence.
pub proof fn lemma_match_at(s: Seq<char>, p: Seq<char>, i: int)
    requires
        0 <= i,
        i + p.len() <= s.len(),
        match_from(s, p, i, 0),
    ensures
        is_match_at(s, p, i),
        spec_contains(s, p),
{
    lemma_match_from(s, p, i, 0);
    assert(s.subrange(i, i + p.len() as int) =~= p);
    assert(is_match_at(s, p, i));
    assert(spec_contains(s, p)) by {
        let w = i;
        assert(is_match_at(s, p, w));
    }
}

/// A text in which some character of `p` never occurs cannot contain `p`.
pub proof fn lemma_absent_char_no_contains(s: Seq<char>, p: Seq<char>, k: int)
    requires
        0 <= k < p.len(),
        char_free_from(s, p[k], 0),
    ensures
        !spec_contains(s, p),
{
    lemma_char_free(s, p[k], 0);
    assert forall|i: int| !is_match_at(s, p, i) by {
        if is_match_at(s, p, i) {
            assert(s.subrange(i, i + p.len() as int)[k] == s[i + k]);
            assert(s[i + k] == p[k]);
        }
    }
}

/// A text in which some adjacent character pair of `p` never occurs cannot
/// contain `p`.
pub proof fn lemma_absent_pair_no_contains(s: Seq<char>, p: Seq<char>, k: int)
    requires
        0 <= k,
        k + 1 < p.len(),
        pair_free_from(s, p[k], p[k + 1], 0),
    ensures
        !spec_contains(s, p),
{
    lemma_pair_free(s, p[k], p[k + 1], 0);
    assert forall|i: int| !is_match_at(s, p, i) by {
        if is_match_at(s, p, i) {
            assert(s.subrange(i, i + p.len() as int)[k] == s[i + k]);
            assert(s.subrange(i, i + p.len() as int)[k + 1] == s[i + k + 1]);
            assert(s[i + k] == p[k] && s[i + k + 1] == p[k + 1]);
        }
    }
}

/// An empty text contains no non-empty pattern.
pub proof fn lemma_empty_no_contains(s: Seq<char>, p: Seq<char>)
    requires
        s.len() == 0,
        p.len() > 0,
    ensures
        !spec_contains(s, p),
{
    assert(forall|i: int| !is_match_at(s, p, i));
}

/// An occurrence in either half of a concatenation is an occurrence in the
/// whole.
pub proof fn lemma_contains_in_concat(a: Seq<char>, b: Seq<char>, p: Seq<char>)
    ensures
        spec_contains(a, p) ==> spec_contains(a + b, p),
        spec_contains(b, p) ==> spec_contains(a + b, p),
{
    if spec_contains(a, p) {
        let i = choose|i: int| is_match_at(a, p, i);
        assert((a + b).subrange(i, i + p.len() as int) =~= a.subrange(i, i + p.len() as int));
        assert(is_match_at(a + b, p, i));
    }
    if spec_contains(b, p) {
        let i = choose|i: int| is_match_at(b, p, i);
        assert((a + b).subrange(a.len() + i, a.len() + i + p.len() as int) =~= b.subrange(
            i,
            i + p.len() as int,
        ));
        assert(is_match_at(a + b, p, a.len() + i));
    }
}

/// A pattern without line breaks cannot straddle a newline-terminated
/// segment: it occurs in the concatenation exactly when it occurs in one of
/// the halves.  The left half may also be empty.
pub proof fn lemma_contains_split_nl(a: Seq<char>, b: Seq<char>, p: Seq<char>)
    requires
        a.len() == 0 || a.last() == '\n',
        p.len() > 0,
        forall|k: int| 0 <= k < p.len() ==> p[k] != '\n',
    ensures
        spec_contains(a + b, p) <==> spec_contains(a, p) || spec_contains(b, p),
{
    lemma_contains_in_concat(a, b, p);
    if a.len() == 0 {
        assert(a + b =~= b);
        if spec_contains(a + b, p) {
            assert(spec_contains(b, p));
        }
    } else if spec_contains(a + b, p) {
        let i = choose|i: int| is_match_at(a + b, p, i);
        if i + p.len() <= a.len() {
            assert(a.subrange(i, i + p.len() as int) =~= (a + b).subrange(i, i + p.len() as int));
            assert(is_match_at(a, p, i));
        } else if i >= a.len() {
            let j = i - a.len();
            assert(b.subrange(j, j + p.len() as int) =~= (a + b).subrange(i, i + p.len() as int));
            assert(is_match_at(b, p, j));
        } else {
            let k = a.len() - 1 - i;
            assert(0 <= k < p.len());
            assert((a + b).subrange(i, i + p.len() as int)[k] == (a + b)[a.len() - 1]);
            assert((a + b)[a.len() - 1] == a.last());
            assert(p[k] == '\n');
        }
    }
}

/// The decimal digit character for a value below ten.
pub open spec fn digit_char(d: int) -> char {
    if d == 0 {
        '0'
    } else if d == 1 {
        '1'
    } else if d == 2 {
        '2'
    } else if d == 3 {
        '3'
    } else if d == 4 {
        '4'
    } else if d == 5 {
        '5'
    } else if d == 6 {
        '6'
    } else if d == 7 {
        '7'
    } else if d == 8 {
        '8'
    } else {
        '9'
    }
}

/// The decimal rendering of a non-negative number, most significant digit
/// first, with no leading zeros (a lone zero for zero itself).
pub open spec fn spec_dec(n: int) -> Seq<char>
    decreases n,
{
    if n < 10 {
        seq![digit_char(n)]
    } else {
        spec_dec(n / 10).push(digit_char(n % 10))
    }
}

/// The single-character text of one decimal digit.
fn digit_str(d: usize) -> (s: &'static str)
    requires
        d < 10,
    ensures
        s@ == seq![digit_char(d as int)],
{
    if d == 0 {
        proof {
            reveal_strlit("0");
            assert("0"@ =~= seq![digit_char(0)]);
        }
        "0"
    } else if d == 1 {
        proof {
            reveal_strlit("1");
            assert("1"@ =~= seq![digit_char(1)]);
        }
        "1"
    } else if d == 2 {
        proof {
            reveal_strlit("2");
            assert("2"@ =~= seq![digit_char(2)]);
        }
        "2"
    } else if d == 3 {
        proof {
            reveal_strlit("3");
            assert("3"@ =~= seq![digit_char(3)]);
        }
        "3"
    } else if d == 4 {
        proof {
            reveal_strlit("4");
            assert("4"@ =~= seq![digit_char(4)]);
        }
        "4"
    } else if d == 5 {
        proof {
            reveal_strlit("5");
            assert("5"@ =~= seq![digit_char(5)]);
        }
        "5"
    } else if d == 6 {
        proof {
            reveal_strlit("6");
            assert("6"@ =~= seq![digit_char(6)]);
        }
        "6"
    } else if d == 7 {
        proof {
            reveal_strlit("7");
            assert("7"@ =~= seq![digit_char(7)]);
        }
        "7"
    } else if d == 8 {
        proof {
            reveal_strlit("8");
            assert("8"@ =~= seq![digit_char(8)]);
        }
        "8"
    } else {
        proof {
            reveal_strlit("9");
            assert("9"@ =~= seq![digit_char(9)]);
        }
        "9"
    }
}

/// Renders a number in decimal.
pub fn usize_to_string(n: usize) -> (s: String)
    ensures
        s@ == spec_dec(n as int),
    decreases n,
{
    if n < 10 {
        digit_str(n).to_owned()
    } else {
        let mut s = usize_to_string(n / 10);
        s.append(digit_str(n % 10));
        proof {
            assert(s@ =~= spec_dec((n as int) / 10).push(digit_char((n as int) % 10)));
        }
        s
    }
}

} // verus!
