use rsh::session::{AsyncRuntime, FailureAction, Mode, Session};

const ASYNC_ERR: &str =
    "error[E0728]: `await` is only allowed inside `async` functions and blocks";
const TYPE_ERR: &str = "error[E0308]: mismatched types";

const BASIC_MANIFEST: &str = "[package]\nname = \"test-project\"\nversion = \"0.1.0\"\nedition = \"2021\"\n";
const TOKIO_MANIFEST: &str = "[package]\nname = \"test-project\"\nversion = \"0.1.0\"\nedition = \"2021\"\n\n[dependencies]\ntokio = { version = \"1.0\", features = [\"full\"] }\n";
const ASYNC_STD_MANIFEST: &str = "[package]\nname = \"test-project\"\nversion = \"0.1.0\"\nedition = \"2021\"\n\n[dependencies]\nasync-std = { version = \"1.12\", features = [\"attributes\"] }\n";
const SMOL_MANIFEST: &str = "[package]\nname = \"test-project\"\nversion = \"0.1.0\"\nedition = \"2021\"\n\n[dependencies]\nsmol = \"1.0\"\n";
const BOTH_MANIFEST: &str = "[package]\nname = \"test-project\"\nversion = \"0.1.0\"\nedition = \"2021\"\n\n[dependencies]\ntokio = { version = \"1.0\", features = [\"full\"] }\nasync-std = { version = \"1.12\", features = [\"attributes\"] }\n";

#[test]
fn test_sync_mode_code_executes_successfully() {
    let mut session = Session::new();

    // Verify starts in sync mode
    assert!(matches!(session.mode(), Mode::Sync));

    // Add simple sync code; a successful run keeps buffers and mode as-is.
    session.add_code_block("let x = 5;\nprintln!(\"x = {}\", x);");

    // Should still be in sync mode
    assert!(matches!(session.mode(), Mode::Sync));

    // Verify generated program has sync structure
    let generated = session.render_program();
    assert!(generated.contains("fn __rsh_session()"));
    assert!(!generated.contains("async fn __rsh_session()"));
    assert!(generated.contains("fn main()"));
}

#[test]
fn test_async_code_triggers_switch_with_tokio() {
    let mut session = Session::new();

    // Verify starts in sync mode
    assert!(matches!(session.mode(), Mode::Sync));

    // Add async code that will fail in sync mode
    session.add_code_block("async fn test() {}\ntest().await;");

    // Run fails with an async-pattern diagnostic; the manifest declares tokio.
    let act = session.handle_run_failure(ASYNC_ERR, Some(TOKIO_MANIFEST));
    assert!(matches!(act, FailureAction::Switched(AsyncRuntime::Tokio)));

    // Should have switched to async mode with tokio
    assert!(matches!(session.mode(), Mode::Async(AsyncRuntime::Tokio)));

    // Verify regenerated program has async structure with tokio
    let generated = session.render_program();
    assert!(generated.contains("async fn __rsh_session()"));
    assert!(generated.contains("#[tokio::main]"));
    assert!(generated.contains("async fn main()"));
    assert!(generated.contains(".await"));
}

#[test]
fn test_async_code_triggers_switch_with_async_std() {
    let mut session = Session::new();

    // Verify starts in sync mode
    assert!(matches!(session.mode(), Mode::Sync));

    // Add async code
    session.add_code_block("async fn test() {}\ntest().await;");

    // Run fails with an async-pattern diagnostic; the manifest declares async-std.
    let _ = session.handle_run_failure(ASYNC_ERR, Some(ASYNC_STD_MANIFEST));

    // Should have switched to async mode with async-std
    assert!(matches!(session.mode(), Mode::Async(AsyncRuntime::AsyncStd)));

    // Verify regenerated program has async structure with async-std
    let generated = session.render_program();
    assert!(generated.contains("async fn __rsh_session()"));
    assert!(generated.contains("#[async_std::main]"));
    assert!(generated.contains("async fn main()"));
}

#[test]
fn test_async_code_triggers_switch_with_smol() {
    let mut session = Session::new();

    // Verify starts in sync mode
    assert!(matches!(session.mode(), Mode::Sync));

    // Add async code
    session.add_code_block("async fn test() {}\ntest().await;");

    // Run fails with an async-pattern diagnostic; the manifest declares smol.
    let _ = session.handle_run_failure(ASYNC_ERR, Some(SMOL_MANIFEST));

    // Should have switched to async mode with smol
    assert!(matches!(session.mode(), Mode::Async(AsyncRuntime::Smol)));

    // Verify regenerated program has async structure with smol
    let generated = session.render_program();
    assert!(generated.contains("async fn __rsh_session()"));
    assert!(generated.contains("smol::block_on"));
    assert!(generated.contains("fn main()"));
    assert!(!generated.contains("#[tokio::main]"));
    assert!(!generated.contains("#[async_std::main]"));
}

#[test]
fn test_runtime_preference_tokio_over_async_std() {
    let mut session = Session::new();

    // Add async code
    session.add_code_block("async fn test() {}\ntest().await;");

    // Manifest declares both tokio and async-std; tokio should be preferred.
    let _ = session.handle_run_failure(ASYNC_ERR, Some(BOTH_MANIFEST));

    // Should have switched to tokio, not async-std
    assert!(matches!(session.mode(), Mode::Async(AsyncRuntime::Tokio)));
}

#[test]
fn test_async_code_fails_gracefully_no_runtime() {
    let mut session = Session::new();

    // Verify starts in sync mode
    assert!(matches!(session.mode(), Mode::Sync));

    // Add async code
    session.add_code_block("async fn test() {}\ntest().await;");

    // Run fails with an async-pattern diagnostic but no runtime is declared.
    let act = session.handle_run_failure(ASYNC_ERR, Some(BASIC_MANIFEST));
    assert!(matches!(act, FailureAction::NoRuntime));

    // Should still be in sync mode (no runtime found)
    assert!(matches!(session.mode(), Mode::Sync));

    // The buffers should be rolled back to their pre-submission state:
    // since we started empty, they should be empty.
    assert_eq!(session.preamble().len(), 0);
    assert_eq!(session.body().len(), 0);
}

#[test]
fn test_mode_persistence_once_async() {
    let mut session = Session::new();

    // Switch to async mode first
    session.add_code_block("async fn test() {}\ntest().await;");
    let _ = session.handle_run_failure(ASYNC_ERR, Some(TOKIO_MANIFEST));
    assert!(matches!(session.mode(), Mode::Async(AsyncRuntime::Tokio)));

    // Add more async code; its run fails again.
    session.add_code_block("async fn test2() {}\ntest2().await;");
    let _ = session.handle_run_failure(ASYNC_ERR, Some(TOKIO_MANIFEST));

    // Should still be in async mode (not switch again)
    assert!(matches!(session.mode(), Mode::Async(AsyncRuntime::Tokio)));
}

#[test]
fn test_successful_sync_code_no_switch() {
    let mut session = Session::new();

    // Add sync code that succeeds: no failure handling happens.
    session.add_code_block("let x = 42;\nprintln!(\"x = {}\", x);");

    // Should still be in sync mode
    assert!(matches!(session.mode(), Mode::Sync));
}

#[test]
fn test_non_async_errors_dont_trigger_switch() {
    let mut session = Session::new();

    // Add code with a non-async error (e.g., type error)
    session.add_code_block("let x: i32 = \"not a number\";");
    let act = session.handle_run_failure(TYPE_ERR, Some(TOKIO_MANIFEST));
    assert!(matches!(act, FailureAction::RolledBack));

    // Should still be in sync mode (not an async error)
    assert!(matches!(session.mode(), Mode::Sync));

    // Code should have been rolled back
    assert_eq!(session.preamble().len(), 0);
    assert_eq!(session.body().len(), 0);
}

#[test]
fn test_generated_code_structure_sync() {
    let mut session = Session::new();

    session.add_code_block("use std::io;\nstruct Test {}\nlet x = 5;\nprintln!(\"test\");");
    let generated = session.render_program();

    // Check preamble is at module scope
    assert!(generated.contains("use std::io;"));
    assert!(generated.contains("struct Test {}"));

    // Check body is in function
    assert!(generated.contains("fn __rsh_session()"));
    assert!(!generated.contains("async fn __rsh_session()"));
    assert!(generated.contains("    let x = 5;"));
    assert!(generated.contains("    println!(\"test\");"));

    // Check main function
    assert!(generated.contains("fn main()"));
    assert!(generated.contains("__rsh_session()"));
}

#[test]
fn test_generated_code_structure_async_tokio() {
    let mut session = Session::new();

    session.add_code_block("use std::io;\nstruct Test {}\nasync fn test() {}\ntest().await;");
    let _ = session.handle_run_failure(ASYNC_ERR, Some(TOKIO_MANIFEST));
    let generated = session.render_program();

    // Check preamble is at module scope
    assert!(generated.contains("use std::io;"));
    assert!(generated.contains("struct Test {}"));

    // Check async function
    assert!(generated.contains("async fn __rsh_session()"));
    assert!(generated.contains("    async fn test() {}"));
    assert!(generated.contains("    test().await;"));

    // Check tokio main
    assert!(generated.contains("#[tokio::main]"));
    assert!(generated.contains("async fn main()"));
    assert!(generated.contains("__rsh_session().await"));
}

#[test]
fn test_generated_code_structure_async_smol() {
    let mut session = Session::new();

    session.add_code_block("async fn test() {}\ntest().await;");
    let _ = session.handle_run_failure(ASYNC_ERR, Some(SMOL_MANIFEST));
    let generated = session.render_program();

    // Check async function
    assert!(generated.contains("async fn __rsh_session()"));

    // Check smol main structure
    assert!(generated.contains("fn main()"));
    assert!(generated.contains("smol::block_on"));
    assert!(generated.contains("__rsh_session().await"));
    assert!(!generated.contains("#[tokio::main]"));
    assert!(!generated.contains("#[async_std::main]"));
}

#[test]
fn test_preamble_and_body_placement_async() {
    // The manifest declares an async runtime but the code block has no async
    // syntax and its run succeeds, so the generated program stays sync.
    let mut session = Session::new();

    // Add preamble items and body items
    session.add_code_block("use std::fs;\nstruct MyStruct {}\nlet x = 10;\nprintln!(\"x = {}\", x);");
    let generated = session.render_program();

    // Preamble should be before the sync entry function
    let preamble_pos = generated
        .find("use std::fs;")
        .expect("Generated code should contain 'use std::fs;'");
    assert!(!generated.contains("async fn __rsh_session()"));
    let async_fn_pos = generated
        .find("fn __rsh_session()")
        .expect("Generated code should contain 'fn __rsh_session()'");
    assert!(preamble_pos < async_fn_pos);

    // Body should be inside the sync entry function
    assert!(generated.contains("    let x = 10;"));
    assert!(generated.contains("    println!(\"x = {}\", x);"));
}
