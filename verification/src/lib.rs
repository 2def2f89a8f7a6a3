//! Small verified building blocks: decimal text, error handling, iterators,
//! conversions, traits, and the line filter behind `log-grep`.
pub mod decimal;
pub mod text;
pub mod error_handling;
pub mod log_grep;
pub mod functions;
pub mod generics;
pub mod my_module;
pub mod parent_module;
pub mod sibling_a;
pub mod sibling_b;
pub mod lifetimes;
pub mod options;
pub mod iterators;
pub mod enums;
pub mod conversions;
pub mod structs;
pub mod traits;
pub mod clippy;
pub mod if_;
pub mod intro;
pub mod vecs;
pub mod hello;
pub mod reading_errors;
