//! What the parser needs before it runs clang: the compiler arguments.
pub mod compiler;
pub mod units;
