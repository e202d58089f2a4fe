//! A tiny spreadsheet formula language for CSV cells.
//!
//! A cell whose text begins with `=` holds a function call over other cells,
//! literals and nested calls. The crate tokenizes and parses such cells,
//! evaluates them against the sheet, and reconciles the computed values of a
//! row.
//!
//! Every function carries a contract, and Verus proves it. The exceptions
//! are the few functions that call into `bigdecimal` and `multipeek`, and
//! the one that calls `String::push`: their contracts say what is taken on
//! trust of those calls, and the doc comment of each names the call.

pub mod errors;
pub mod text;
pub mod decimal;
pub mod tokenizer;
pub mod ast;
pub mod builtins;
pub mod parser;
pub mod utils;
pub mod engine;
