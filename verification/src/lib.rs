//! Conservative C ABI and Go `cgo` wrapper generation for C++ header surfaces.
pub mod text;
pub mod config;
pub mod domain;
pub mod parser;
pub mod codegen;
pub mod ir;
pub mod facade;
pub mod generator;
pub mod parsing;
pub mod compiler;
pub mod model;
pub mod env_tokens;
