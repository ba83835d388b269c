//! The clang arguments for parsing one header: those of the compilation
//! database, the configured ones, and the language defaults.
use vstd::prelude::*;
use crate::config::Config;
use crate::parsing::compiler::{path_exists, spec_with_language_defaults, with_language_defaults};
use crate::text;
use crate::text::{clone_strings, concat2};

verus! {

/// The database arguments, then the configured ones, with the language
/// defaults added.
pub open spec fn spec_collect_clang_args(config: Config, db_args: Seq<Seq<char>>) -> Seq<Seq<char>> {
    spec_with_language_defaults(db_args + text::views(config.input.clang_args@))
}

pub fn collect_clang_args(config: &Config, db_args: Vec<String>) -> (r: Vec<String>)
    ensures
        text::views(r@) == spec_collect_clang_args(*config, text::views(db_args@)),
{
    let mut args = db_args;
    let ghost a0 = text::views(args@);
    let mut extra = clone_strings(&config.input.clang_args);
    let ghost e = text::views(extra@);
    args.append(&mut extra);
    assert(text::views(args@) =~= a0 + e);
    with_language_defaults(args)
}

/// The message for a header that does not exist.
pub open spec fn missing_header_message(path: Seq<char>) -> Seq<char> {
    "header not found: "@ + path
}

/// The outcome of the existence check for a header, given whether the
/// file system has it.
pub open spec fn spec_check_header(path: Seq<char>, exists: bool) -> Result<(), Seq<char>> {
    if exists {
        Ok(())
    } else {
        Err(missing_header_message(path))
    }
}

pub fn check_header(header: &str, exists: bool) -> (r: Result<(), String>)
    ensures
        match r {
            Ok(()) => spec_check_header(header@, exists) == Ok::<(), Seq<char>>(()),
            Err(e) => spec_check_header(header@, exists) == Err::<(), Seq<char>>(e@),
        },
{
    if !exists {
        return Err(concat2("header not found: ", header));
    }
    Ok(())
}

/// Fails where the header does not exist; whether it exists is for the
/// file system to say.
pub fn ensure_header_exists(header: &str) -> (r: Result<(), String>)
    ensures
        r is Ok || spec_check_header(header@, false) == Err::<(), Seq<char>>(r->Err_0@),
{
    check_header(header, path_exists(header))
}

} // verus!
