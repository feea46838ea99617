use rsh::input::{classify_block, is_preamble_line, split_lines};
use rsh::session::{AsyncRuntime, FailureAction, Mode, Segment, Session};
use rsh::utils::{detect_async_runtime, looks_like_async_error};

const ASYNC_ERR: &str =
    "error[E0728]: `await` is only allowed inside `async` functions and blocks";

#[test]
fn test_classifier_is_deterministic() {
    let block = "use std::io;\nstruct T {\n    x: i32,\n}\nlet y = T { x: 1 };";
    let (p1, b1) = classify_block(block);
    let (p2, b2) = classify_block(block);
    assert_eq!(p1, p2);
    assert_eq!(b1, b2);
}

#[test]
fn test_statement_only_fragment_goes_to_body() {
    let (pre, body) = classify_block("let a = 1;\nlet b = 2;\na + b;");
    assert_eq!(pre.len(), 0);
    assert_eq!(body, vec!["let a = 1;", "let b = 2;", "a + b;"]);
}

#[test]
fn test_balanced_declaration_goes_to_preamble() {
    let (pre, body) = classify_block("struct Foo {\n    x: i32,\n    y: i32,\n}");
    assert_eq!(pre, vec!["struct Foo {", "    x: i32,", "    y: i32,", "}"]);
    assert_eq!(body.len(), 0);
}

#[test]
fn test_blank_line_kept_inside_open_construct() {
    let (pre, body) = classify_block("struct Foo {\n\n    x: i32,\n}\n\nlet a = 1;");
    // The blank line inside the declaration is preserved; the one outside
    // is dropped.
    assert_eq!(pre, vec!["struct Foo {", "", "    x: i32,", "}"]);
    assert_eq!(body, vec!["let a = 1;"]);
}

#[test]
fn test_multiline_function_stays_in_preamble() {
    let (pre, body) = classify_block("fn helper() -> i32 {\n    41\n}\nhelper() + 1;");
    assert_eq!(pre, vec!["fn helper() -> i32 {", "    41", "}"]);
    assert_eq!(body, vec!["helper() + 1;"]);
}

#[test]
fn test_unicode_whitespace_is_trimmed_before_lead_token_test() {
    // A line led by a form feed, vertical tab, or non-breaking space is
    // trimmed before the lead-token test, as Rust's own trimming would.
    let (pre, body) = classify_block("\u{000C}use std::io;\n\u{000B}let a = 1;\n\u{00A0}\u{2003}");
    assert_eq!(pre, vec!["\u{000C}use std::io;"]);
    // The whitespace-only line is blank and dropped outside a construct.
    assert_eq!(body, vec!["\u{000B}let a = 1;"]);
}

#[test]
fn test_crlf_input_is_split_like_lf() {
    let lines = split_lines("use std::io;\r\nlet x = 5;\r\n");
    assert_eq!(lines, vec!["use std::io;", "let x = 5;"]);
}

#[test]
fn test_split_lines_drops_trailing_empty_segment() {
    assert_eq!(split_lines("a\nb\n"), vec!["a", "b"]);
    assert_eq!(split_lines(""), Vec::<String>::new());
    assert_eq!(split_lines("a\n\nb"), vec!["a", "", "b"]);
}

#[test]
fn test_lead_tokens_recognized() {
    assert!(is_preamble_line("use std::io;"));
    assert!(is_preamble_line("mod foo;"));
    assert!(is_preamble_line("extern crate serde;"));
    assert!(is_preamble_line("#[derive(Debug)]"));
    assert!(is_preamble_line("#![allow(dead_code)]"));
    assert!(is_preamble_line("struct S;"));
    assert!(is_preamble_line("enum E { A }"));
    assert!(is_preamble_line("type T = u8;"));
    assert!(is_preamble_line("trait Tr {}"));
    assert!(is_preamble_line("fn f() {}"));
    assert!(is_preamble_line("const K: u8 = 1;"));
    assert!(is_preamble_line("static S: u8 = 1;"));
    assert!(is_preamble_line("impl S {}"));
    assert!(is_preamble_line("impl<T> Tr for T {}"));
}

#[test]
fn test_statement_lines_not_recognized_as_preamble() {
    assert!(!is_preamble_line("let x = 5;"));
    assert!(!is_preamble_line("println!(\"hi\");"));
    assert!(!is_preamble_line("async fn test() {}"));
    assert!(!is_preamble_line("x + 1;"));
    assert!(!is_preamble_line(""));
}

#[test]
fn test_async_error_patterns_match() {
    assert!(looks_like_async_error("error[E0728]: something"));
    assert!(looks_like_async_error("code E0752 was found"));
    assert!(looks_like_async_error(
        "`await` is only allowed inside `async` functions and blocks"
    ));
    assert!(looks_like_async_error(
        "`await` is only allowed inside async functions"
    ));
    assert!(looks_like_async_error(
        "`.await` cannot be used in a `fn` item that is not `async`"
    ));
    assert!(looks_like_async_error("future cannot be sent between threads safely"));
    assert!(looks_like_async_error("this value cannot be sent between threads safely"));
    assert!(looks_like_async_error("note: consider using async fn main"));
}

#[test]
fn test_non_async_errors_not_matched() {
    assert!(!looks_like_async_error("error[E0308]: mismatched types"));
    assert!(!looks_like_async_error(""));
    assert!(!looks_like_async_error("warning: unused variable `x`"));
}

#[test]
fn test_detect_runtime_priority_and_case() {
    assert_eq!(
        detect_async_runtime(Some("[dependencies]\ntokio = \"1\"")),
        Some(AsyncRuntime::Tokio)
    );
    assert_eq!(
        detect_async_runtime(Some("[dependencies]\nasync-std = \"1\"")),
        Some(AsyncRuntime::AsyncStd)
    );
    assert_eq!(
        detect_async_runtime(Some("[dependencies]\nsmol = \"1\"")),
        Some(AsyncRuntime::Smol)
    );
    // Matching is case-insensitive.
    assert_eq!(
        detect_async_runtime(Some("[dependencies]\nTOKIO = \"1\"")),
        Some(AsyncRuntime::Tokio)
    );
    // Priority is fixed, not textual order.
    assert_eq!(
        detect_async_runtime(Some("smol = \"1\"\nasync-std = \"1\"\ntokio = \"1\"")),
        Some(AsyncRuntime::Tokio)
    );
    assert_eq!(
        detect_async_runtime(Some("smol = \"1\"\nasync-std = \"1\"")),
        Some(AsyncRuntime::AsyncStd)
    );
    // No declaration, or no manifest at all, yields nothing.
    assert_eq!(detect_async_runtime(Some("[package]\nname = \"x\"")), None);
    assert_eq!(detect_async_runtime(None), None);
}

#[test]
fn test_delete_dedup_and_order_scenario() {
    // A request naming [1, 3, 1, 3] on a 5-line body keeps lines 0, 2, 4.
    let mut session = Session::new();
    session.add_code_block("let a = 1;\nlet b = 2;\nlet c = 3;\nlet d = 4;\nlet e = 5;");
    let r = session.delete(Segment::Body, &[1, 3, 1, 3]);
    assert!(r.is_ok());
    assert_eq!(session.body(), &vec!["let a = 1;", "let c = 3;", "let e = 5;"]);
}

#[test]
fn test_delete_out_of_bounds_reports_details() {
    let mut session = Session::new();
    session.add_code_block("let a = 1;\nlet b = 2;");
    let r = session.delete(Segment::Body, &[5]);
    let e = r.unwrap_err();
    assert_eq!(e.segment, Segment::Body);
    assert_eq!(e.index, 5);
    assert_eq!(e.len, 2);
    assert_eq!(session.body().len(), 2);
}

#[test]
fn test_delete_reports_largest_offending_index() {
    let mut session = Session::new();
    session.add_code_block("let a = 1;\nlet b = 2;\nlet c = 3;");
    let e = session.delete(Segment::Body, &[0, 10]).unwrap_err();
    assert_eq!(e.index, 10);
    assert_eq!(e.len, 3);
}

#[test]
fn test_show_exact_format() {
    let mut session = Session::new();
    session.add_code_block("use std::io;\nlet x = 5;");
    assert_eq!(
        session.show(),
        "--- PREAMBLE ---\n0: use std::io;\n--- BODY ---\n0: let x = 5;\n--- MODE ---\nSync\n"
    );
}

#[test]
fn test_show_empty_exact_format() {
    let session = Session::new();
    assert_eq!(
        session.show(),
        "--- PREAMBLE ---\n<empty>\n--- BODY ---\n<empty>\n--- MODE ---\nSync\n"
    );
}

#[test]
fn test_show_indexes_past_ten_lines() {
    let mut session = Session::new();
    let mut block = String::new();
    let mut want = String::from("--- PREAMBLE ---\n<empty>\n--- BODY ---\n");
    for i in 0..12 {
        block.push_str(&format!("line({});\n", i));
        want.push_str(&format!("{}: line({});\n", i, i));
    }
    want.push_str("--- MODE ---\nSync\n");
    session.add_code_block(&block);
    assert_eq!(session.body().len(), 12);
    assert_eq!(session.show(), want);
}

#[test]
fn test_show_names_async_mode() {
    let mut session = Session::new();
    session.add_code_block("x.await;");
    let _ = session.handle_run_failure(ASYNC_ERR, Some("smol = \"1\""));
    assert!(session.show().ends_with("--- MODE ---\nAsync(Smol)\n"));
}

#[test]
fn test_failed_async_run_keeps_new_lines_once_async() {
    // Once in an async mode, a further failing submission is kept, not
    // rolled back, and the runtime does not change.
    let mut session = Session::new();
    session.add_code_block("async fn a() {}\na().await;");
    let _ = session.handle_run_failure(ASYNC_ERR, Some("tokio = \"1\""));
    assert_eq!(session.body().len(), 2);

    session.add_code_block("async fn b() {}\nb().await;");
    let act = session.handle_run_failure(ASYNC_ERR, Some("tokio = \"1\""));
    assert!(matches!(act, FailureAction::KeptAsync));
    assert!(matches!(session.mode(), Mode::Async(AsyncRuntime::Tokio)));
    assert_eq!(session.body().len(), 4);
    assert_eq!(session.body()[2], "async fn b() {}");
    assert_eq!(session.body()[3], "b().await;");
}

#[test]
fn test_rollback_restores_exact_pre_submission_state() {
    let mut session = Session::new();
    session.add_code_block("use std::io;\nlet kept = 1;");
    session.add_code_block("use std::fs;\nlet failing = 2;");
    let act = session.handle_run_failure("error[E0308]: mismatched types", None);
    assert!(matches!(act, FailureAction::RolledBack));
    assert_eq!(session.preamble(), &vec!["use std::io;"]);
    assert_eq!(session.body(), &vec!["let kept = 1;"]);
}

#[test]
fn test_generated_sync_text_exact() {
    let mut session = Session::new();
    session.add_code_block("let x = 5;");
    assert_eq!(
        session.render_program(),
        "fn __rsh_session() -> Result<(), Box<dyn std::error::Error>> {\n    let x = 5;\n    Ok(())\n}\n\nfn main() {\n    if let Err(e) = __rsh_session() {\n        eprintln!(\"{}\", e);\n    }\n}\n"
    );
}

#[test]
fn test_generated_preamble_gap_only_when_nonempty() {
    let mut session = Session::new();
    session.add_code_block("use std::io;");
    let generated = session.render_program();
    assert!(generated.starts_with("use std::io;\n\nfn __rsh_session()"));

    let empty_preamble = Session::new().render_program();
    assert!(empty_preamble.starts_with("fn __rsh_session()"));
}

#[test]
fn test_generated_async_std_text_has_only_its_marker() {
    let mut session = Session::new();
    session.add_code_block("async fn t() {}\nt().await;");
    let _ = session.handle_run_failure(ASYNC_ERR, Some("async-std = \"1\""));
    let generated = session.render_program();
    assert!(generated.contains("#[async_std::main]"));
    assert!(!generated.contains("#[tokio::main]"));
    assert!(!generated.contains("smol::block_on"));
}

#[test]
fn test_reset_after_mixed_operations() {
    let mut session = Session::new();
    session.add_code_block("use std::io;\nlet a = 1;");
    let _ = session.delete(Segment::Body, &[0]);
    session.add_code_block("async fn t() {}\nt().await;");
    let _ = session.handle_run_failure(ASYNC_ERR, Some("tokio = \"1\""));
    session.reset();
    assert_eq!(session.preamble().len(), 0);
    assert_eq!(session.body().len(), 0);
    assert!(matches!(session.mode(), Mode::Sync));
}
