//! Fragment ingestion: splitting a raw multi-line fragment into lines and
//! classifying each line as preamble (declaration scope) or body (statement
//! scope).
//!
//! Classification is a lexical heuristic, not a parser: a line whose trimmed
//! form begins with a declaration lead token opens a "preamble construct",
//! and bracket depth decides where that construct ends.  Brackets inside
//! string literals or comments are not excluded; this is a documented
//! approximation.

use vstd::prelude::*;
use vstd::string::*;

use crate::strutil::{spec_starts_with, str_starts_with};

verus! {

/// One unit of input read by the front end: either a meta-command line or a
/// code fragment to be classified and accumulated.
pub enum Input {
    Command(String),
    Code(String),
}

/// Whitespace stripped from the front of a line before the lead token
/// test: the Unicode White_Space characters, as Rust's own trimming uses.
pub open spec fn is_space(c: char) -> bool {
    ||| c == ' '
    ||| c == '\t'
    ||| c == '\n'
    ||| c == '\u{000B}'
    ||| c == '\u{000C}'
    ||| c == '\r'
    ||| c == '\u{0085}'
    ||| c == '\u{00A0}'
    ||| c == '\u{1680}'
    ||| ('\u{2000}' <= c && c <= '\u{200A}')
    ||| c == '\u{2028}'
    ||| c == '\u{2029}'
    ||| c == '\u{202F}'
    ||| c == '\u{205F}'
    ||| c == '\u{3000}'
}

/// Whether a character counts as leading whitespace.
fn is_space_char(c: char) -> (r: bool)
    ensures
        r == is_space(c),
{
    c == ' ' || c == '\t' || c == '\n' || c == '\u{000B}' || c == '\u{000C}' || c == '\r'
        || c == '\u{0085}' || c == '\u{00A0}' || c == '\u{1680}' || ('\u{2000}' <= c
        && c <= '\u{200A}') || c == '\u{2028}' || c == '\u{2029}' || c == '\u{202F}'
        || c == '\u{205F}' || c == '\u{3000}'
}

/// A line with its leading whitespace removed.
pub open spec fn spec_trim_start(l: Seq<char>) -> Seq<char>
    decreases l.len(),
{
    if l.len() > 0 && is_space(l[0]) {
        spec_trim_start(l.drop_first())
    } else {
        l
    }
}

/// A line consisting of whitespace only.
pub open spec fn line_is_blank(l: Seq<char>) -> bool {
    spec_trim_start(l).len() == 0
}

/// Trimming a line is the same as skipping its maximal run of leading spaces.
proof fn lemma_trim_start_skip(l: Seq<char>, k: int)
    requires
        0 <= k <= l.len(),
        forall|j: int| 0 <= j < k ==> is_space(l[j]),
        k < l.len() ==> !is_space(l[k]),
    ensures
        spec_trim_start(l) == l.subrange(k, l.len() as int),
    decreases k,
{
    if k == 0 {
        if l.len() == 0 || !is_space(l[0]) {
            assert(l.subrange(0, l.len() as int) =~= l);
        }
    } else {
        let l2 = l.drop_first();
        assert(forall|j: int| 0 <= j < k - 1 ==> is_space(#[trigger] l2[j]));
        lemma_trim_start_skip(l2, k - 1);
        assert(l2.subrange(k - 1, l2.len() as int) =~= l.subrange(k, l.len() as int));
    }
}

/// Index of the first character of a line that is not leading whitespace.
fn first_non_space(line: &str, n: usize) -> (k: usize)
    requires
        n == line@.len(),
    ensures
        k <= n,
        spec_trim_start(line@) == line@.subrange(k as int, n as int),
        line_is_blank(line@) <==> k == n,
{
    let mut k: usize = 0;
    while k < n
        invariant
            n == line@.len(),
            k <= n,
            forall|j: int| 0 <= j < k ==> is_space(line@[j]),
        decreases n - k,
    {
        let c = line.get_char(k);
        if !is_space_char(c) {
            proof {
                lemma_trim_start_skip(line@, k as int);
            }
            return k;
        }
        k += 1;
    }
    proof {
        lemma_trim_start_skip(line@, n as int);
        assert(line@.subrange(n as int, n as int) =~= Seq::<char>::empty());
    }
    n
}

/// A line with a trailing carriage return removed, as happens when input
/// arrives with CRLF line endings.
pub open spec fn strip_cr(l: Seq<char>) -> Seq<char> {
    if l.len() > 0 && l.last() == '\r' {
        l.drop_last()
    } else {
        l
    }
}

/// The lines of `s` from position `i` on, given that the characters of the
/// current (unfinished) line seen so far are `cur`.  Lines are separated by
/// newline characters; a carriage return immediately before a newline is
/// stripped; an empty final segment is not a line.
pub open spec fn spec_split_from(s: Seq<char>, i: int, cur: Seq<char>) -> Seq<Seq<char>>
    decreases s.len() - i,
{
    if i < 0 || i >= s.len() {
        if cur.len() > 0 {
            seq![cur]
        } else {
            Seq::empty()
        }
    } else if s[i] == '\n' {
        seq![strip_cr(cur)] + spec_split_from(s, i + 1, Seq::empty())
    } else {
        spec_split_from(s, i + 1, cur.push(s[i]))
    }
}

/// The lines of a raw fragment.
pub open spec fn spec_split_lines(s: Seq<char>) -> Seq<Seq<char>> {
    spec_split_from(s, 0, Seq::empty())
}

/// Splits a fragment into its lines.
pub fn split_lines(block: &str) -> (lines: Vec<String>)
    ensures
        lines.deep_view() == spec_split_lines(block@),
{
    let n = block.unicode_len();
    let mut lines: Vec<String> = Vec::new();
    let mut ls: usize = 0;
    let mut i: usize = 0;
    proof {
        assert(block@.subrange(0, 0) =~= Seq::<char>::empty());
    }
    while i < n
        invariant
            n == block@.len(),
            ls <= i <= n,
            lines.deep_view() + spec_split_from(block@, i as int, block@.subrange(ls as int, i as int))
                =~= spec_split_lines(block@),
        decreases n - i,
    {
        let ghost s = block@;
        let ghost cur = s.subrange(ls as int, i as int);
        let c = block.get_char(i);
        if c == '\n' {
            let end = if i > ls && block.get_char(i - 1) == '\r' {
                i - 1
            } else {
                i
            };
            proof {
                if i > ls && s[i - 1] == '\r' {
                    assert(cur.len() > 0 && cur.last() == '\r');
                    assert(cur.drop_last() =~= s.subrange(ls as int, end as int));
                } else {
                    assert(cur =~= s.subrange(ls as int, end as int));
                }
                assert(strip_cr(cur) == s.subrange(ls as int, end as int));
            }
            let line = block.substring_char(ls, end).to_owned();
            let ghost old_dv = lines.deep_view();
            lines.push(line);
            proof {
                assert(lines.deep_view() =~= old_dv.push(s.subrange(ls as int, end as int)));
                assert(spec_split_from(s, i as int, cur) == seq![strip_cr(cur)] + spec_split_from(
                    s,
                    i + 1,
                    Seq::empty(),
                ));
                assert(lines.deep_view() + spec_split_from(s, i + 1, Seq::empty()) =~= old_dv
                    + spec_split_from(s, i as int, cur));
            }
            i += 1;
            ls = i;
            proof {
                assert(s.subrange(ls as int, i as int) =~= Seq::<char>::empty());
            }
        } else {
            proof {
                assert(cur.push(s[i as int]) =~= s.subrange(ls as int, i + 1));
            }
            i += 1;
        }
    }
    if ls < n {
        let line = block.substring_char(ls, n).to_owned();
        let ghost old_dv = lines.deep_view();
        lines.push(line);
        proof {
            assert(lines.deep_view() =~= old_dv.push(block@.subrange(ls as int, n as int)));
        }
    }
    proof {
        assert(lines.deep_view() =~= spec_split_lines(block@));
    }
    lines
}

/// The fixed set of lead tokens that mark a declaration-scope line.
pub open spec fn spec_is_preamble_line(l: Seq<char>) -> bool {
    ||| spec_starts_with(l, "use "@)
    ||| spec_starts_with(l, "mod "@)
    ||| spec_starts_with(l, "extern crate"@)
    ||| spec_starts_with(l, "#!["@)
    ||| spec_starts_with(l, "#["@)
    ||| spec_starts_with(l, "struct "@)
    ||| spec_starts_with(l, "enum "@)
    ||| spec_starts_with(l, "type "@)
    ||| spec_starts_with(l, "trait "@)
    ||| spec_starts_with(l, "fn "@)
    ||| spec_starts_with(l, "const "@)
    ||| spec_starts_with(l, "static "@)
    ||| spec_starts_with(l, "impl "@)
    ||| spec_starts_with(l, "impl<"@)
}

/// Whether a (whitespace-trimmed) line begins with one of the declaration
/// lead tokens, and therefore opens a preamble construct.
pub fn is_preamble_line(line: &str) -> (r: bool)
    ensures
        r == spec_is_preamble_line(line@),
{
    str_starts_with(line, "use ") || str_starts_with(line, "mod ") || str_starts_with(
        line,
        "extern crate",
    ) || str_starts_with(line, "#![")
        || str_starts_with(line, "#[") || str_starts_with(line, "struct ") || str_starts_with(
        line,
        "enum ",
    ) || str_starts_with(line, "type ") || str_starts_with(line, "trait ") || str_starts_with(
        line,
        "fn ",
    ) || str_starts_with(line, "const ") || str_starts_with(line, "static ") || str_starts_with(
        line,
        "impl ",
    ) || str_starts_with(line, "impl<")
}

/// Contribution of one character to the bracket depth of a construct.
pub open spec fn bracket_delta_char(c: char) -> int {
    if c == '{' || c == '[' || c == '(' {
        1
    } else if c == '}' || c == ']' || c == ')' {
        -1
    } else {
        0
    }
}

/// Net bracket depth change contributed by a whole line.
pub open spec fn bracket_delta(l: Seq<char>) -> int
    decreases l.len(),
{
    if l.len() == 0 {
        0
    } else {
        bracket_delta(l.drop_last()) + bracket_delta_char(l.last())
    }
}

/// A line's bracket depth change is bounded by its length.
proof fn lemma_bracket_delta_bound(l: Seq<char>)
    ensures
        -(l.len() as int) <= bracket_delta(l) <= l.len() as int,
    decreases l.len(),
{
    if l.len() > 0 {
        lemma_bracket_delta_bound(l.drop_last());
    }
}

/// Total number of characters held by a sequence of lines.
pub open spec fn sum_lens(ls: Seq<Seq<char>>) -> int
    decreases ls.len(),
{
    if ls.len() == 0 {
        0
    } else {
        sum_lens(ls.drop_last()) + ls.last().len()
    }
}

proof fn lemma_sum_lens_nonneg(ls: Seq<Seq<char>>)
    ensures
        sum_lens(ls) >= 0,
    decreases ls.len(),
{
    if ls.len() > 0 {
        lemma_sum_lens_nonneg(ls.drop_last());
    }
}

proof fn lemma_sum_lens_concat(a: Seq<Seq<char>>, b: Seq<Seq<char>>)
    ensures
        sum_lens(a + b) == sum_lens(a) + sum_lens(b),
    decreases b.len(),
{
    if b.len() == 0 {
        assert(a + b =~= a);
    } else {
        assert((a + b).drop_last() =~= a + b.drop_last());
        lemma_sum_lens_concat(a, b.drop_last());
    }
}

/// A prefix of a line sequence holds no more characters than the whole.
proof fn lemma_sum_lens_take_le(ls: Seq<Seq<char>>, i: int)
    requires
        0 <= i <= ls.len(),
    ensures
        sum_lens(ls.take(i)) <= sum_lens(ls),
{
    assert(ls =~= ls.take(i) + ls.skip(i));
    lemma_sum_lens_concat(ls.take(i), ls.skip(i));
    lemma_sum_lens_nonneg(ls.skip(i));
}

proof fn lemma_sum_lens_singleton(x: Seq<char>)
    ensures
        sum_lens(seq![x]) == x.len(),
{
    let s = seq![x];
    assert(s.len() == 1);
    assert(s.drop_last() =~= Seq::<Seq<char>>::empty());
    assert(s.last() == x);
    assert(sum_lens(Seq::<Seq<char>>::empty()) == 0);
    assert(sum_lens(s) == sum_lens(s.drop_last()) + s.last().len());
}

/// Splitting a fragment yields lines holding no more characters than the
/// fragment itself.
proof fn lemma_split_from_sum(s: Seq<char>, i: int, cur: Seq<char>)
    requires
        0 <= i <= s.len(),
    ensures
        sum_lens(spec_split_from(s, i, cur)) <= (s.len() - i) + cur.len(),
    decreases s.len() - i,
{
    if i >= s.len() {
        if cur.len() > 0 {
            lemma_sum_lens_singleton(cur);
        }
    } else if s[i] == '\n' {
        lemma_split_from_sum(s, i + 1, Seq::empty());
        lemma_sum_lens_concat(seq![strip_cr(cur)], spec_split_from(s, i + 1, Seq::empty()));
        lemma_sum_lens_singleton(strip_cr(cur));
        assert(strip_cr(cur).len() <= cur.len());
    } else {
        lemma_split_from_sum(s, i + 1, cur.push(s[i]));
    }
}

/// Classification of the lines from position `i` on, given whether a
/// preamble construct is currently open and at what bracket depth.  Returns
/// the (preamble, body) contributions of those lines, in order.
pub open spec fn spec_classify_from(
    lines: Seq<Seq<char>>,
    i: int,
    inside: bool,
    depth: int,
) -> (Seq<Seq<char>>, Seq<Seq<char>>)
    decreases lines.len() - i,
{
    if i < 0 || i >= lines.len() {
        (Seq::empty(), Seq::empty())
    } else {
        let l = lines[i];
        let blank = line_is_blank(l);
        if (blank && inside) || (!blank && (inside || spec_is_preamble_line(spec_trim_start(l)))) {
            let d = depth + bracket_delta(l);
            let rest = spec_classify_from(lines, i + 1, d != 0, d);
            (seq![l] + rest.0, rest.1)
        } else if !blank {
            let rest = spec_classify_from(lines, i + 1, inside, depth);
            (rest.0, seq![l] + rest.1)
        } else {
            spec_classify_from(lines, i + 1, inside, depth)
        }
    }
}

/// The ordered (preamble, body) partition of a raw fragment.
pub open spec fn spec_classify(block: Seq<char>) -> (Seq<Seq<char>>, Seq<Seq<char>>) {
    spec_classify_from(spec_split_lines(block), 0, false, 0)
}

/// Classification is deterministic: two runs over identical fragment text
/// produce identical preamble/body partitions.
pub proof fn lemma_classify_deterministic(b1: Seq<char>, b2: Seq<char>)
    requires
        b1 == b2,
    ensures
        spec_classify(b1) == spec_classify(b2),
{
}

/// A lead-token line is never blank: every lead token is non-empty.
proof fn lemma_preamble_line_nonblank(t: Seq<char>)
    requires
        spec_is_preamble_line(t),
    ensures
        t.len() > 0,
{
    reveal_strlit("use ");
    reveal_strlit("mod ");
    reveal_strlit("extern crate");
    reveal_strlit("#![");
    reveal_strlit("#[");
    reveal_strlit("struct ");
    reveal_strlit("enum ");
    reveal_strlit("type ");
    reveal_strlit("trait ");
    reveal_strlit("fn ");
    reveal_strlit("const ");
    reveal_strlit("static ");
    reveal_strlit("impl ");
    reveal_strlit("impl<");
}

/// Lines from `i` on, none blank and none bearing a lead token, all land in
/// the body, whatever the bracket depth, as long as no construct is open.
proof fn lemma_statements_to_body(lines: Seq<Seq<char>>, i: int, d: int)
    requires
        0 <= i <= lines.len(),
        forall|j: int| i <= j < lines.len() ==> !line_is_blank(#[trigger] lines[j])
            && !spec_is_preamble_line(spec_trim_start(lines[j])),
    ensures
        spec_classify_from(lines, i, false, d).0 == Seq::<Seq<char>>::empty(),
        spec_classify_from(lines, i, false, d).1 == lines.skip(i),
    decreases lines.len() - i,
{
    if i >= lines.len() {
        assert(lines.skip(i) =~= Seq::<Seq<char>>::empty());
    } else {
        lemma_statements_to_body(lines, i + 1, d);
        assert(seq![lines[i]] + lines.skip(i + 1) =~= lines.skip(i));
    }
}

/// A fragment consisting only of statement lines (no blank lines, no
/// declaration lead tokens) classifies entirely into the body, in order.
pub proof fn lemma_statement_fragment_in_body(block: Seq<char>)
    requires
        forall|j: int| 0 <= j < spec_split_lines(block).len() ==> !line_is_blank(
            #[trigger] spec_split_lines(block)[j],
        ) && !spec_is_preamble_line(spec_trim_start(spec_split_lines(block)[j])),
    ensures
        spec_classify(block).0 == Seq::<Seq<char>>::empty(),
        spec_classify(block).1 == spec_split_lines(block),
{
    let lines = spec_split_lines(block);
    lemma_statements_to_body(lines, 0, 0);
    assert(lines.skip(0) =~= lines);
}

/// Cumulative bracket depth after the first `i` lines of a fragment have
/// been consumed into a preamble construct.
pub open spec fn depth_after(lines: Seq<Seq<char>>, i: int) -> int
    decreases i,
{
    if i <= 0 {
        0
    } else {
        depth_after(lines, i - 1) + bracket_delta(lines[i - 1])
    }
}

/// While a construct stays open (nonzero depth at every intermediate
/// line), every following line is consumed into the preamble.
proof fn lemma_construct_consumed(lines: Seq<Seq<char>>, i: int)
    requires
        1 <= i <= lines.len(),
        forall|j: int| 1 <= j < lines.len() ==> depth_after(lines, j) != 0,
        depth_after(lines, lines.len() as int) == 0,
    ensures
        spec_classify_from(lines, i, depth_after(lines, i) != 0, depth_after(lines, i)).0
            == lines.skip(i),
        spec_classify_from(lines, i, depth_after(lines, i) != 0, depth_after(lines, i)).1
            == Seq::<Seq<char>>::empty(),
    decreases lines.len() - i,
{
    if i == lines.len() {
        assert(lines.skip(i) =~= Seq::<Seq<char>>::empty());
    } else {
        assert(depth_after(lines, i) != 0);
        assert(depth_after(lines, i + 1) == depth_after(lines, i) + bracket_delta(lines[i]));
        lemma_construct_consumed(lines, i + 1);
        assert(seq![lines[i]] + lines.skip(i + 1) =~= lines.skip(i));
    }
}

/// A fragment that is a single balanced declaration — its first line bears
/// a lead token, its bracket depth stays nonzero strictly inside it and
/// returns to zero exactly at its last line — classifies entirely into the
/// preamble, in order.
pub proof fn lemma_declaration_fragment_in_preamble(block: Seq<char>)
    requires
        spec_split_lines(block).len() > 0,
        spec_is_preamble_line(spec_trim_start(spec_split_lines(block)[0])),
        forall|j: int| 1 <= j < spec_split_lines(block).len() ==> depth_after(
            spec_split_lines(block),
            j,
        ) != 0,
        depth_after(spec_split_lines(block), spec_split_lines(block).len() as int) == 0,
    ensures
        spec_classify(block).0 == spec_split_lines(block),
        spec_classify(block).1 == Seq::<Seq<char>>::empty(),
{
    let lines = spec_split_lines(block);
    lemma_preamble_line_nonblank(spec_trim_start(lines[0]));
    assert(!line_is_blank(lines[0]));
    assert(depth_after(lines, 0) == 0);
    assert(depth_after(lines, 1) == bracket_delta(lines[0]));
    let d1 = depth_after(lines, 1);
    let rest = spec_classify_from(lines, 1, d1 != 0, d1);
    assert(spec_classify_from(lines, 0, false, 0).0 == seq![lines[0]] + rest.0);
    assert(spec_classify_from(lines, 0, false, 0).1 == rest.1);
    if lines.len() == 1 {
        assert(rest.0 =~= Seq::<Seq<char>>::empty());
        assert(rest.1 =~= Seq::<Seq<char>>::empty());
        assert(seq![lines[0]] + Seq::<Seq<char>>::empty() =~= lines);
    } else {
        assert(d1 != 0);
        lemma_construct_consumed(lines, 1);
        assert(rest.0 == lines.skip(1));
        assert(seq![lines[0]] + lines.skip(1) =~= lines);
    }
}

/// Net bracket depth change of one line.
fn line_delta(line: &str) -> (d: i128)
    ensures
        d == bracket_delta(line@),
        -(line@.len() as int) <= d as int <= line@.len() as int,
{
    let n = line.unicode_len();
    let mut d: i128 = 0;
    let mut j: usize = 0;
    proof {
        assert(line@.subrange(0, 0) =~= Seq::<char>::empty());
    }
    while j < n
        invariant
            n == line@.len(),
            j <= n,
            d == bracket_delta(line@.subrange(0, j as int)),
            -(j as int) <= d as int <= j as int,
        decreases n - j,
    {
        let c = line.get_char(j);
        proof {
            assert(line@.subrange(0, j + 1).drop_last() =~= line@.subrange(0, j as int));
            assert(line@.subrange(0, j + 1).last() == line@[j as int]);
        }
        if c == '{' || c == '[' || c == '(' {
            d += 1;
        } else if c == '}' || c == ']' || c == ')' {
            d -= 1;
        }
        j += 1;
    }
    proof {
        assert(line@.subrange(0, n as int) =~= line@);
    }
    d
}

/// Partitions a raw multi-line fragment into ordered preamble and body
/// lines.  Every non-blank line of the fragment lands in exactly one of the
/// two lists; blank lines survive only inside an open preamble construct.
pub fn classify_block(block: &str) -> (r: (Vec<String>, Vec<String>))
    ensures
        r.0.deep_view() == spec_classify(block@).0,
        r.1.deep_view() == spec_classify(block@).1,
{
    let n = block.unicode_len();
    let lines = split_lines(block);
    let ghost dv = lines.deep_view();
    proof {
        lemma_split_from_sum(block@, 0, Seq::empty());
    }
    let mut pre: Vec<String> = Vec::new();
    let mut body: Vec<String> = Vec::new();
    let mut inside: bool = false;
    let mut depth: i128 = 0;
    let mut i: usize = 0;
    let num_lines = lines.len();
    while i < num_lines
        invariant
            num_lines == dv.len(),
            dv == lines.deep_view(),
            dv == spec_split_lines(block@),
            sum_lens(dv) <= n,
            i <= num_lines,
            -sum_lens(dv.take(i as int)) <= depth as int <= sum_lens(dv.take(i as int)),
            pre.deep_view() + spec_classify_from(dv, i as int, inside, depth as int).0
                == spec_classify(block@).0,
            body.deep_view() + spec_classify_from(dv, i as int, inside, depth as int).1
                == spec_classify(block@).1,
        decreases num_lines - i,
    {
        let ghost l = dv[i as int];
        proof {
            assert(l == lines@[i as int]@);
            assert(dv.take(i + 1).drop_last() =~= dv.take(i as int));
            assert(dv.take(i + 1).last() == l);
            lemma_sum_lens_take_le(dv, i + 1);
            lemma_bracket_delta_bound(l);
        }
        let line: &String = &lines[i];
        let m = line.as_str().unicode_len();
        let k = first_non_space(line.as_str(), m);
        let blank = k == m;
        let consumed = if blank {
            inside
        } else {
            inside || is_preamble_line(line.as_str().substring_char(k, m))
        };
        let ghost rest = spec_classify_from(dv, i as int, inside, depth as int);
        if consumed {
            let d = line_delta(line.as_str());
            depth = depth + d;
            inside = depth != 0;
            let ghost old_pre = pre.deep_view();
            pre.push(line.clone());
            proof {
                assert(pre.deep_view() =~= old_pre.push(l));
                assert(old_pre.push(l) + spec_classify_from(
                    dv,
                    i + 1,
                    inside,
                    depth as int,
                ).0 =~= old_pre + rest.0);
            }
        } else if !blank {
            let ghost old_body = body.deep_view();
            body.push(line.clone());
            proof {
                assert(body.deep_view() =~= old_body.push(l));
                assert(old_body.push(l) + spec_classify_from(
                    dv,
                    i + 1,
                    inside,
                    depth as int,
                ).1 =~= old_body + rest.1);
            }
        }
        i += 1;
    }
    (pre, body)
}

} // verus!
