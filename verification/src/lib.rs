//! Session core of an interactive read-eval loop for a compiled language.
//!
//! Incoming source fragments are split into declaration-scope ("preamble")
//! and statement-scope ("body") lines, accumulated in ordered buffers, and
//! rendered into a complete program whose shape follows the session mode
//! (synchronous, or asynchronous under a detected runtime).

pub mod input;
pub mod render;
pub mod session;
pub mod strutil;
pub mod utils;
