//! The code generator: a pure, deterministic rendering of
//! (preamble, body, mode) into complete program text.
//!
//! Preamble lines are emitted verbatim at top scope, followed by one blank
//! line if the preamble is non-empty.  Body lines are emitted indented
//! inside a fallible entry function; the dispatch that drives that function
//! depends on the mode.

use vstd::prelude::*;
use vstd::string::*;

use crate::session::AsyncRuntime;
use crate::session::Mode;
use crate::strutil::char_free_from;
use crate::strutil::is_match_at;
use crate::strutil::lemma_absent_char_no_contains;
use crate::strutil::lemma_absent_pair_no_contains;
use crate::strutil::lemma_char_free;
use crate::strutil::lemma_contains_in_concat;
use crate::strutil::lemma_contains_split_nl;
use crate::strutil::lemma_empty_no_contains;
use crate::strutil::lemma_match_at;
use crate::strutil::match_from;
use crate::strutil::pair_free_from;
use crate::strutil::spec_contains;

verus! {

/// The preamble section: each line verbatim, each followed by a line break,
/// taking the first `i` lines.
pub open spec fn spec_cat_lines(lines: Seq<Seq<char>>, i: int) -> Seq<char>
    decreases i,
{
    if i <= 0 {
        Seq::empty()
    } else {
        spec_cat_lines(lines, i - 1) + lines[i - 1] + "\n"@
    }
}

/// The body section: each line indented by one unit, each followed by a
/// line break, taking the first `i` lines.
pub open spec fn spec_cat_body(lines: Seq<Seq<char>>, i: int) -> Seq<char>
    decreases i,
{
    if i <= 0 {
        Seq::empty()
    } else {
        spec_cat_body(lines, i - 1) + "    "@ + lines[i - 1] + "\n"@
    }
}

/// The blank separator emitted after a non-empty preamble.
pub open spec fn spec_gap(preamble: Seq<Seq<char>>) -> Seq<char> {
    if preamble.len() > 0 {
        "\n"@
    } else {
        Seq::empty()
    }
}

/// The opening of the entry function that will hold the body lines.
pub open spec fn spec_header(mode: Mode) -> Seq<char> {
    match mode {
        Mode::Sync => "fn __rsh_session() -> Result<(), Box<dyn std::error::Error>> {\n"@,
        Mode::Async(_) => "async fn __rsh_session() -> Result<(), Box<dyn std::error::Error>> {\n"@,
    }
}

/// The program-entry dispatch emitted after the entry function closes: how
/// the generated program drives the entry function under each mode.
pub open spec fn spec_dispatch(mode: Mode) -> Seq<char> {
    match mode {
        Mode::Sync => "fn main() {\n    if let Err(e) = __rsh_session() {\n        eprintln!(\"{}\", e);\n    }\n}\n"@,
        Mode::Async(AsyncRuntime::Tokio) => "#[tokio::main]\nasync fn main() {\n    if let Err(e) = __rsh_session().await {\n        eprintln!(\"{}\", e);\n    }\n}\n"@,
        Mode::Async(AsyncRuntime::AsyncStd) => "#[async_std::main]\nasync fn main() {\n    if let Err(e) = __rsh_session().await {\n        eprintln!(\"{}\", e);\n    }\n}\n"@,
        Mode::Async(AsyncRuntime::Smol) => "fn main() {\n    smol::block_on(async {\n        if let Err(e) = __rsh_session().await {\n            eprintln!(\"{}\", e);\n        }\n    });\n}\n"@,
    }
}

/// The closing of the entry function: its trailing unit result and closing
/// brace, and the blank line before the dispatch.
pub open spec fn spec_entry_close() -> Seq<char> {
    "    Ok(())\n}\n\n"@
}

/// The complete generated program for the given buffers and mode.
pub open spec fn spec_render(preamble: Seq<Seq<char>>, body: Seq<Seq<char>>, mode: Mode) -> Seq<
    char,
> {
    spec_cat_lines(preamble, preamble.len() as int) + spec_gap(preamble) + spec_header(mode)
        + spec_cat_body(body, body.len() as int) + spec_entry_close() + spec_dispatch(mode)
}

/// Appends each line, verbatim, each followed by a line break.
fn push_lines(out: &mut String, lines: &Vec<String>)
    ensures
        final(out)@ == old(out)@ + spec_cat_lines(lines.deep_view(), lines.deep_view().len() as int),
{
    let ghost dv = lines.deep_view();
    let n = lines.len();
    let mut i: usize = 0;
    proof {
        assert(old(out)@ + spec_cat_lines(dv, 0) =~= old(out)@);
    }
    while i < n
        invariant
            n == dv.len(),
            dv == lines.deep_view(),
            i <= n,
            out@ == old(out)@ + spec_cat_lines(dv, i as int),
        decreases n - i,
    {
        let ghost before = out@;
        let line: &String = &lines[i];
        proof {
            assert(line@ == dv[i as int]);
        }
        out.append(line.as_str());
        out.append("\n");
        proof {
            assert(out@ =~= old(out)@ + (spec_cat_lines(dv, i as int) + dv[i as int] + "\n"@));
        }
        i += 1;
    }
}

/// Appends each line indented by one unit, each followed by a line break.
fn push_body_lines(out: &mut String, lines: &Vec<String>)
    ensures
        final(out)@ == old(out)@ + spec_cat_body(lines.deep_view(), lines.deep_view().len() as int),
{
    let ghost dv = lines.deep_view();
    let n = lines.len();
    let mut i: usize = 0;
    proof {
        assert(old(out)@ + spec_cat_body(dv, 0) =~= old(out)@);
    }
    while i < n
        invariant
            n == dv.len(),
            dv == lines.deep_view(),
            i <= n,
            out@ == old(out)@ + spec_cat_body(dv, i as int),
        decreases n - i,
    {
        let line: &String = &lines[i];
        proof {
            assert(line@ == dv[i as int]);
        }
        out.append("    ");
        out.append(line.as_str());
        out.append("\n");
        proof {
            assert(out@ =~= old(out)@ + (spec_cat_body(dv, i as int) + "    "@ + dv[i as int]
                + "\n"@));
        }
        i += 1;
    }
}

/// The distinctive dispatch text of each asynchronous runtime: its entry
/// attribute, or, for a runtime without a managed entry convention, its
/// blocking-executor call.
pub open spec fn spec_marker(r: AsyncRuntime) -> Seq<char> {
    match r {
        AsyncRuntime::Tokio => "#[tokio::main]"@,
        AsyncRuntime::AsyncStd => "#[async_std::main]"@,
        AsyncRuntime::Smol => "smol::block_on"@,
    }
}

/// A line free of line breaks, as every line produced by splitting a
/// fragment is.
pub open spec fn no_newline(l: Seq<char>) -> bool {
    forall|k: int| 0 <= k < l.len() ==> l[k] != '\n'
}

/// Every runtime marker is non-empty and free of line breaks and spaces.
proof fn lemma_marker_wf(r: AsyncRuntime)
    ensures
        spec_marker(r).len() > 0,
        no_newline(spec_marker(r)),
        forall|k: int| 0 <= k < spec_marker(r).len() ==> spec_marker(r)[k] != ' ',
{
    let m = spec_marker(r);
    match r {
        AsyncRuntime::Tokio => {
            reveal_strlit("#[tokio::main]");
            assert(char_free_from(m, '\n', 0)) by {
                reveal_with_fuel(char_free_from, 17);
            }
            assert(char_free_from(m, ' ', 0)) by {
                reveal_with_fuel(char_free_from, 17);
            }
            lemma_char_free(m, '\n', 0);
            lemma_char_free(m, ' ', 0);
        },
        AsyncRuntime::AsyncStd => {
            reveal_strlit("#[async_std::main]");
            assert(char_free_from(m, '\n', 0)) by {
                reveal_with_fuel(char_free_from, 21);
            }
            assert(char_free_from(m, ' ', 0)) by {
                reveal_with_fuel(char_free_from, 21);
            }
            lemma_char_free(m, '\n', 0);
            lemma_char_free(m, ' ', 0);
        },
        AsyncRuntime::Smol => {
            reveal_strlit("smol::block_on");
            assert(char_free_from(m, '\n', 0)) by {
                reveal_with_fuel(char_free_from, 17);
            }
            assert(char_free_from(m, ' ', 0)) by {
                reveal_with_fuel(char_free_from, 17);
            }
            lemma_char_free(m, '\n', 0);
            lemma_char_free(m, ' ', 0);
        },
    }
}

/// No entry-function header contains any runtime marker.
#[verifier::rlimit(50)]
proof fn lemma_header_free(mode: Mode, r: AsyncRuntime)
    ensures
        !spec_contains(spec_header(mode), spec_marker(r)),
{
    let h = spec_header(mode);
    let m = spec_marker(r);
    match mode {
        Mode::Sync => {
            reveal_strlit("fn __rsh_session() -> Result<(), Box<dyn std::error::Error>> {\n");
        },
        Mode::Async(_) => {
            reveal_strlit("async fn __rsh_session() -> Result<(), Box<dyn std::error::Error>> {\n");
        },
    }
    match r {
        AsyncRuntime::Tokio => {
            reveal_strlit("#[tokio::main]");
            assert(m[0] == '#');
            assert(char_free_from(h, '#', 0)) by {
                reveal_with_fuel(char_free_from, 75);
            }
            lemma_absent_char_no_contains(h, m, 0);
        },
        AsyncRuntime::AsyncStd => {
            reveal_strlit("#[async_std::main]");
            assert(m[0] == '#');
            assert(char_free_from(h, '#', 0)) by {
                reveal_with_fuel(char_free_from, 75);
            }
            lemma_absent_char_no_contains(h, m, 0);
        },
        AsyncRuntime::Smol => {
            reveal_strlit("smol::block_on");
            assert(m[6] == 'b');
            assert(char_free_from(h, 'b', 0)) by {
                reveal_with_fuel(char_free_from, 75);
            }
            lemma_absent_char_no_contains(h, m, 6);
        },
    }
}

/// The entry-function closing text contains no runtime marker.
#[verifier::rlimit(50)]
proof fn lemma_close_free(r: AsyncRuntime)
    ensures
        !spec_contains(spec_entry_close(), spec_marker(r)),
{
    let c = spec_entry_close();
    let m = spec_marker(r);
    reveal_strlit("    Ok(())\n}\n\n");
    match r {
        AsyncRuntime::Tokio => {
            reveal_strlit("#[tokio::main]");
            assert(m[2] == 't');
            assert(char_free_from(c, 't', 0)) by {
                reveal_with_fuel(char_free_from, 17);
            }
            lemma_absent_char_no_contains(c, m, 2);
        },
        AsyncRuntime::AsyncStd => {
            reveal_strlit("#[async_std::main]");
            assert(m[2] == 'a');
            assert(char_free_from(c, 'a', 0)) by {
                reveal_with_fuel(char_free_from, 17);
            }
            lemma_absent_char_no_contains(c, m, 2);
        },
        AsyncRuntime::Smol => {
            reveal_strlit("smol::block_on");
            assert(m[0] == 's');
            assert(char_free_from(c, 's', 0)) by {
                reveal_with_fuel(char_free_from, 17);
            }
            lemma_absent_char_no_contains(c, m, 0);
        },
    }
}

/// A mode's dispatch text contains no marker of a different runtime, and
/// the synchronous dispatch contains none at all.
#[verifier::rlimit(80)]
proof fn lemma_dispatch_free(mode: Mode, r: AsyncRuntime)
    requires
        mode != Mode::Async(r),
    ensures
        !spec_contains(spec_dispatch(mode), spec_marker(r)),
{
    let d = spec_dispatch(mode);
    let m = spec_marker(r);
    match mode {
        Mode::Sync => {
            reveal_strlit(
                "fn main() {\n    if let Err(e) = __rsh_session() {\n        eprintln!(\"{}\", e);\n    }\n}\n",
            );
            match r {
                AsyncRuntime::Tokio => {
                    reveal_strlit("#[tokio::main]");
                    assert(m[0] == '#');
                    assert(char_free_from(d, '#', 0)) by {
                        reveal_with_fuel(char_free_from, 95);
                    }
                    lemma_absent_char_no_contains(d, m, 0);
                },
                AsyncRuntime::AsyncStd => {
                    reveal_strlit("#[async_std::main]");
                    assert(m[0] == '#');
                    assert(char_free_from(d, '#', 0)) by {
                        reveal_with_fuel(char_free_from, 95);
                    }
                    lemma_absent_char_no_contains(d, m, 0);
                },
                AsyncRuntime::Smol => {
                    reveal_strlit("smol::block_on");
                    assert(m[6] == 'b');
                    assert(char_free_from(d, 'b', 0)) by {
                        reveal_with_fuel(char_free_from, 95);
                    }
                    lemma_absent_char_no_contains(d, m, 6);
                },
            }
        },
        Mode::Async(AsyncRuntime::Tokio) => {
            reveal_strlit(
                "#[tokio::main]\nasync fn main() {\n    if let Err(e) = __rsh_session().await {\n        eprintln!(\"{}\", e);\n    }\n}\n",
            );
            match r {
                AsyncRuntime::Tokio => {},
                AsyncRuntime::AsyncStd => {
                    reveal_strlit("#[async_std::main]");
                    assert(m[10] == 'd');
                    assert(char_free_from(d, 'd', 60)) by {
                        reveal_with_fuel(char_free_from, 60);
                    }
                    assert(char_free_from(d, 'd', 0)) by {
                        reveal_with_fuel(char_free_from, 65);
                    }
                    lemma_absent_char_no_contains(d, m, 10);
                },
                AsyncRuntime::Smol => {
                    reveal_strlit("smol::block_on");
                    assert(m[6] == 'b');
                    assert(char_free_from(d, 'b', 60)) by {
                        reveal_with_fuel(char_free_from, 60);
                    }
                    assert(char_free_from(d, 'b', 0)) by {
                        reveal_with_fuel(char_free_from, 65);
                    }
                    lemma_absent_char_no_contains(d, m, 6);
                },
            }
        },
        Mode::Async(AsyncRuntime::AsyncStd) => {
            reveal_strlit(
                "#[async_std::main]\nasync fn main() {\n    if let Err(e) = __rsh_session().await {\n        eprintln!(\"{}\", e);\n    }\n}\n",
            );
            match r {
                AsyncRuntime::Tokio => {
                    reveal_strlit("#[tokio::main]");
                    assert(m[2] == 't' && m[3] == 'o');
                    assert(pair_free_from(d, 't', 'o', 60)) by {
                        reveal_with_fuel(pair_free_from, 62);
                    }
                    assert(pair_free_from(d, 't', 'o', 0)) by {
                        reveal_with_fuel(pair_free_from, 65);
                    }
                    lemma_absent_pair_no_contains(d, m, 2);
                },
                AsyncRuntime::AsyncStd => {},
                AsyncRuntime::Smol => {
                    reveal_strlit("smol::block_on");
                    assert(m[6] == 'b');
                    assert(char_free_from(d, 'b', 80)) by {
                        reveal_with_fuel(char_free_from, 42);
                    }
                    assert(char_free_from(d, 'b', 40)) by {
                        reveal_with_fuel(char_free_from, 45);
                    }
                    assert(char_free_from(d, 'b', 0)) by {
                        reveal_with_fuel(char_free_from, 45);
                    }
                    lemma_absent_char_no_contains(d, m, 6);
                },
            }
        },
        Mode::Async(AsyncRuntime::Smol) => {
            reveal_strlit(
                "fn main() {\n    smol::block_on(async {\n        if let Err(e) = __rsh_session().await {\n            eprintln!(\"{}\", e);\n        }\n    });\n}\n",
            );
            match r {
                AsyncRuntime::Tokio => {
                    reveal_strlit("#[tokio::main]");
                    assert(m[0] == '#');
                    assert(char_free_from(d, '#', 80)) by {
                        reveal_with_fuel(char_free_from, 62);
                    }
                    assert(char_free_from(d, '#', 0)) by {
                        reveal_with_fuel(char_free_from, 85);
                    }
                    lemma_absent_char_no_contains(d, m, 0);
                },
                AsyncRuntime::AsyncStd => {
                    reveal_strlit("#[async_std::main]");
                    assert(m[0] == '#');
                    assert(char_free_from(d, '#', 80)) by {
                        reveal_with_fuel(char_free_from, 62);
                    }
                    assert(char_free_from(d, '#', 0)) by {
                        reveal_with_fuel(char_free_from, 85);
                    }
                    lemma_absent_char_no_contains(d, m, 0);
                },
                AsyncRuntime::Smol => {},
            }
        },
    }
}

/// Each runtime's dispatch text does contain that runtime's own marker.
#[verifier::rlimit(50)]
proof fn lemma_dispatch_has_marker(r: AsyncRuntime)
    ensures
        spec_contains(spec_dispatch(Mode::Async(r)), spec_marker(r)),
{
    let d = spec_dispatch(Mode::Async(r));
    let m = spec_marker(r);
    match r {
        AsyncRuntime::Tokio => {
            reveal_strlit(
                "#[tokio::main]\nasync fn main() {\n    if let Err(e) = __rsh_session().await {\n        eprintln!(\"{}\", e);\n    }\n}\n",
            );
            reveal_strlit("#[tokio::main]");
            assert(match_from(d, m, 0, 0)) by {
                reveal_with_fuel(match_from, 17);
            }
            lemma_match_at(d, m, 0);
        },
        AsyncRuntime::AsyncStd => {
            reveal_strlit(
                "#[async_std::main]\nasync fn main() {\n    if let Err(e) = __rsh_session().await {\n        eprintln!(\"{}\", e);\n    }\n}\n",
            );
            reveal_strlit("#[async_std::main]");
            assert(match_from(d, m, 0, 0)) by {
                reveal_with_fuel(match_from, 21);
            }
            lemma_match_at(d, m, 0);
        },
        AsyncRuntime::Smol => {
            reveal_strlit(
                "fn main() {\n    smol::block_on(async {\n        if let Err(e) = __rsh_session().await {\n            eprintln!(\"{}\", e);\n        }\n    });\n}\n",
            );
            reveal_strlit("smol::block_on");
            assert(match_from(d, m, 16, 0)) by {
                reveal_with_fuel(match_from, 17);
            }
            lemma_match_at(d, m, 16);
        },
    }
}

/// A pattern without line breaks occurs in `line + "\n"` exactly when it
/// occurs in the line itself.
proof fn lemma_contains_line_nl(l: Seq<char>, p: Seq<char>)
    requires
        p.len() > 0,
        forall|k: int| 0 <= k < p.len() ==> p[k] != '\n',
    ensures
        spec_contains(l + "\n"@, p) <==> spec_contains(l, p),
{
    reveal_strlit("\n");
    let w = l + "\n"@;
    lemma_contains_in_concat(l, "\n"@, p);
    if spec_contains(w, p) {
        let i = choose|i: int| is_match_at(w, p, i);
        if i + p.len() <= l.len() {
            assert(l.subrange(i, i + p.len() as int) =~= w.subrange(i, i + p.len() as int));
            assert(is_match_at(l, p, i));
        } else {
            let k = w.len() - 1 - i;
            assert(0 <= k < p.len());
            assert(w.subrange(i, i + p.len() as int)[k] == w[w.len() - 1]);
            assert(p[k] == '\n');
        }
    }
}

/// A pattern without line breaks or spaces occurs in an indented,
/// newline-terminated body line exactly when it occurs in the line itself.
proof fn lemma_contains_indented_line(l: Seq<char>, p: Seq<char>)
    requires
        p.len() > 0,
        forall|k: int| 0 <= k < p.len() ==> p[k] != '\n',
        forall|k: int| 0 <= k < p.len() ==> p[k] != ' ',
    ensures
        spec_contains("    "@ + l + "\n"@, p) <==> spec_contains(l, p),
{
    reveal_strlit("    ");
    reveal_strlit("\n");
    let w = "    "@ + l + "\n"@;
    if spec_contains(l, p) {
        let i = choose|i: int| is_match_at(l, p, i);
        assert(w.subrange(4 + i, 4 + i + p.len() as int) =~= l.subrange(i, i + p.len() as int));
        assert(is_match_at(w, p, 4 + i));
    }
    if spec_contains(w, p) {
        let i = choose|i: int| is_match_at(w, p, i);
        if i < 4 {
            assert(w.subrange(i, i + p.len() as int)[0] == w[i]);
            assert(w[i] == ' ');
            assert(p[0] == ' ');
        } else if i + p.len() > 4 + l.len() {
            let k = w.len() - 1 - i;
            assert(0 <= k < p.len());
            assert(w.subrange(i, i + p.len() as int)[k] == w[w.len() - 1]);
            assert(p[k] == '\n');
        } else {
            assert(l.subrange(i - 4, i - 4 + p.len() as int) =~= w.subrange(
                i,
                i + p.len() as int,
            ));
            assert(is_match_at(l, p, i - 4));
        }
    }
}

/// The preamble section of a program contains a marker-like pattern only if
/// one of its lines does; and it is empty or newline-terminated.
proof fn lemma_cat_lines_free(lines: Seq<Seq<char>>, i: int, p: Seq<char>)
    requires
        0 <= i <= lines.len(),
        p.len() > 0,
        forall|k: int| 0 <= k < p.len() ==> p[k] != '\n',
        forall|j: int| 0 <= j < lines.len() ==> no_newline(#[trigger] lines[j]) && !spec_contains(
            lines[j],
            p,
        ),
    ensures
        !spec_contains(spec_cat_lines(lines, i), p),
        spec_cat_lines(lines, i).len() == 0 || spec_cat_lines(lines, i).last() == '\n',
    decreases i,
{
    reveal_strlit("\n");
    if i <= 0 {
        lemma_empty_no_contains(spec_cat_lines(lines, i), p);
    } else {
        lemma_cat_lines_free(lines, i - 1, p);
        let a = spec_cat_lines(lines, i - 1);
        let seg = lines[i - 1] + "\n"@;
        assert(spec_cat_lines(lines, i) =~= a + seg);
        lemma_contains_line_nl(lines[i - 1], p);
        lemma_contains_split_nl(a, seg, p);
        assert((a + seg).last() == seg.last());
        assert(seg.last() == '\n');
    }
}

/// The body section of a program contains a marker-like pattern only if one
/// of its lines does; and it is empty or newline-terminated.
proof fn lemma_cat_body_free(lines: Seq<Seq<char>>, i: int, p: Seq<char>)
    requires
        0 <= i <= lines.len(),
        p.len() > 0,
        forall|k: int| 0 <= k < p.len() ==> p[k] != '\n',
        forall|k: int| 0 <= k < p.len() ==> p[k] != ' ',
        forall|j: int| 0 <= j < lines.len() ==> no_newline(#[trigger] lines[j]) && !spec_contains(
            lines[j],
            p,
        ),
    ensures
        !spec_contains(spec_cat_body(lines, i), p),
        spec_cat_body(lines, i).len() == 0 || spec_cat_body(lines, i).last() == '\n',
    decreases i,
{
    reveal_strlit("\n");
    if i <= 0 {
        lemma_empty_no_contains(spec_cat_body(lines, i), p);
    } else {
        lemma_cat_body_free(lines, i - 1, p);
        let a = spec_cat_body(lines, i - 1);
        let seg = "    "@ + lines[i - 1] + "\n"@;
        assert(spec_cat_body(lines, i) =~= a + seg);
        lemma_contains_indented_line(lines[i - 1], p);
        lemma_contains_split_nl(a, seg, p);
        assert((a + seg).last() == seg.last());
        assert(seg.last() == '\n');
    }
}

/// The generated program for a mode other than `Async(r)` never contains
/// runtime `r`'s dispatch marker, as long as no buffer line itself holds
/// that marker text.  In particular, a synchronous program contains no
/// asynchronous entry-point marker at all.
pub proof fn lemma_render_marker_free(
    p: Seq<Seq<char>>,
    b: Seq<Seq<char>>,
    mode: Mode,
    r: AsyncRuntime,
)
    requires
        mode != Mode::Async(r),
        forall|j: int| 0 <= j < p.len() ==> no_newline(#[trigger] p[j]) && !spec_contains(
            p[j],
            spec_marker(r),
        ),
        forall|j: int| 0 <= j < b.len() ==> no_newline(#[trigger] b[j]) && !spec_contains(
            b[j],
            spec_marker(r),
        ),
    ensures
        !spec_contains(spec_render(p, b, mode), spec_marker(r)),
{
    let m = spec_marker(r);
    lemma_marker_wf(r);
    let cl = spec_cat_lines(p, p.len() as int);
    let g = spec_gap(p);
    let h = spec_header(mode);
    let cb = spec_cat_body(b, b.len() as int);
    let close = spec_entry_close();
    let d = spec_dispatch(mode);
    lemma_cat_lines_free(p, p.len() as int, m);
    lemma_cat_body_free(b, b.len() as int, m);
    lemma_header_free(mode, r);
    lemma_close_free(r);
    lemma_dispatch_free(mode, r);
    reveal_strlit("\n");
    // The separator after a non-empty preamble holds no occurrence either.
    if p.len() > 0 {
        assert(char_free_from(g, m[0], 0)) by {
            reveal_with_fuel(char_free_from, 3);
        }
        lemma_absent_char_no_contains(g, m, 0);
    } else {
        lemma_empty_no_contains(g, m);
    }
    // Header and closing text are newline-terminated.
    match mode {
        Mode::Sync => {
            reveal_strlit("fn __rsh_session() -> Result<(), Box<dyn std::error::Error>> {\n");
        },
        Mode::Async(_) => {
            reveal_strlit("async fn __rsh_session() -> Result<(), Box<dyn std::error::Error>> {\n");
        },
    }
    reveal_strlit("    Ok(())\n}\n\n");
    assert(h.last() == '\n');
    assert(close.last() == '\n');
    // Peel the program apart at newline-terminated seams, left to right.
    let t5 = close + d;
    let t4 = cb + t5;
    let t3 = h + t4;
    let t2 = g + t3;
    let t1 = cl + t2;
    assert(spec_render(p, b, mode) =~= t1);
    lemma_contains_split_nl(close, d, m);
    assert(cb.len() == 0 || cb.last() == '\n');
    lemma_contains_split_nl(cb, t5, m);
    lemma_contains_split_nl(h, t4, m);
    assert(g.len() == 0 || g.last() == '\n');
    lemma_contains_split_nl(g, t3, m);
    assert(cl.len() == 0 || cl.last() == '\n');
    lemma_contains_split_nl(cl, t2, m);
    assert(!spec_contains(t1, m));
}

/// The generated program for `Async(r)` always contains runtime `r`'s own
/// dispatch marker.
pub proof fn lemma_render_has_marker(p: Seq<Seq<char>>, b: Seq<Seq<char>>, r: AsyncRuntime)
    ensures
        spec_contains(spec_render(p, b, Mode::Async(r)), spec_marker(r)),
{
    let mode = Mode::Async(r);
    let m = spec_marker(r);
    lemma_dispatch_has_marker(r);
    let left = spec_cat_lines(p, p.len() as int) + spec_gap(p) + spec_header(mode) + spec_cat_body(
        b,
        b.len() as int,
    ) + spec_entry_close();
    lemma_contains_in_concat(left, spec_dispatch(mode), m);
    assert(spec_render(p, b, mode) =~= left + spec_dispatch(mode));
}

/// Renders the complete program text for the given buffers and mode.
/// Rendering never fails on well-formed buffer contents; it has no
/// knowledge of whether the resulting program is syntactically valid.
pub fn render_program(preamble: &Vec<String>, body: &Vec<String>, mode: Mode) -> (out: String)
    ensures
        out@ == spec_render(preamble.deep_view(), body.deep_view(), mode),
{
    let ghost p = preamble.deep_view();
    let ghost b = body.deep_view();
    let mut out = String::new();
    push_lines(&mut out, preamble);
    proof {
        assert(out@ =~= spec_cat_lines(p, p.len() as int));
    }
    if preamble.len() > 0 {
        out.append("\n");
    }
    proof {
        assert(out@ =~= spec_cat_lines(p, p.len() as int) + spec_gap(p));
    }
    match mode {
        Mode::Sync => {
            out.append("fn __rsh_session() -> Result<(), Box<dyn std::error::Error>> {\n");
        },
        Mode::Async(_) => {
            out.append("async fn __rsh_session() -> Result<(), Box<dyn std::error::Error>> {\n");
        },
    }
    let ghost upto_header = spec_cat_lines(p, p.len() as int) + spec_gap(p) + spec_header(mode);
    proof {
        assert(out@ =~= upto_header);
    }
    push_body_lines(&mut out, body);
    proof {
        assert(out@ =~= upto_header + spec_cat_body(b, b.len() as int));
    }
    out.append("    Ok(())\n}\n\n");
    match mode {
        Mode::Sync => {
            out.append(
                "fn main() {\n    if let Err(e) = __rsh_session() {\n        eprintln!(\"{}\", e);\n    }\n}\n",
            );
        },
        Mode::Async(AsyncRuntime::Tokio) => {
            out.append(
                "#[tokio::main]\nasync fn main() {\n    if let Err(e) = __rsh_session().await {\n        eprintln!(\"{}\", e);\n    }\n}\n",
            );
        },
        Mode::Async(AsyncRuntime::AsyncStd) => {
            out.append(
                "#[async_std::main]\nasync fn main() {\n    if let Err(e) = __rsh_session().await {\n        eprintln!(\"{}\", e);\n    }\n}\n",
            );
        },
        Mode::Async(AsyncRuntime::Smol) => {
            out.append(
                "fn main() {\n    smol::block_on(async {\n        if let Err(e) = __rsh_session().await {\n            eprintln!(\"{}\", e);\n        }\n    });\n}\n",
            );
        },
    }
    proof {
        assert(out@ =~= spec_render(p, b, mode));
    }
    out
}

} // verus!
