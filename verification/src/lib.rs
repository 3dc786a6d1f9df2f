//! An interactive regex tester and debugger, as a verified library.

pub mod app;
pub mod codegen;
pub mod debugger;
pub mod engine;
pub mod explain;
pub mod features;
pub mod filter;
pub mod highlight;
pub mod keys;
pub mod parser;
pub mod syntax;
pub mod program;
pub mod text;
pub mod ui;
