//! The clang arguments for a parse: those of the compilation database, the
//! configured ones, the language defaults, the directory of the parsed
//! file, and the include directories that the platform's compiler driver
//! reports.
use vstd::prelude::*;
use crate::config::Config;
use crate::text;
use crate::text::{clone_strings, concat2, owned, str_eq};

verus! {

// ---------------------------------------------------------------------------
// The include search list of a compiler driver
// ---------------------------------------------------------------------------

/// What scanning the first `k` lines leaves: the candidates so far,
/// whether the `<...>` search list has started, and whether it has ended.
pub open spec fn scan_search_list(lines: Seq<Seq<char>>, k: int) -> (Seq<Seq<char>>, bool, bool)
    decreases k,
{
    if k <= 0 {
        (Seq::empty(), false, false)
    } else {
        let (c, in_list, stopped) = scan_search_list(lines, k - 1);
        let t = text::trim(lines[k - 1]);
        if stopped {
            (c, in_list, stopped)
        } else if t == "#include <...> search starts here:"@ {
            (c, true, false)
        } else if t == "End of search list."@ {
            (c, in_list, true)
        } else if !in_list || t.len() == 0 || text::starts_with(t, "(framework directory)"@) {
            (c, in_list, false)
        } else {
            (c.push(t), in_list, false)
        }
    }
}

/// The directories of the `#include <...>` search list in a driver's
/// verbose output, trimmed, without framework directories.
pub open spec fn spec_driver_include_candidates(stderr: Seq<char>) -> Seq<Seq<char>> {
    let lines = text::split_char(stderr, '\n');
    scan_search_list(lines, lines.len() as int).0
}

pub fn driver_include_candidates(stderr: &str) -> (r: Vec<String>)
    ensures
        text::views(r@) == spec_driver_include_candidates(stderr@),
{
    let lines = text::split_char_str(stderr, '\n');
    let ghost lv = text::views(lines@);
    let mut out: Vec<String> = Vec::new();
    let mut in_list = false;
    let mut i: usize = 0;
    while i < lines.len()
        invariant
            lv == text::views(lines@),
            lv == text::split_char(stderr@, '\n'),
            i <= lines@.len(),
            scan_search_list(lv, i as int) == (text::views(out@), in_list, false),
        decreases lines@.len() - i,
    {
        let t = text::trim_str(lines[i].as_str());
        assert(lv[i as int] == lines@[i as int]@);
        if str_eq(t.as_str(), "#include <...> search starts here:") {
            in_list = true;
        } else if str_eq(t.as_str(), "End of search list.") {
            proof {
                lemma_scan_stopped(lv, i + 1);
            }
            return out;
        } else if !in_list || t.as_str().is_empty() || text::has_prefix(
            t.as_str(),
            "(framework directory)",
        ) {
        } else {
            let ghost before = text::views(out@);
            out.push(t);
            assert(text::views(out@) =~= before.push(t@));
        }
        i += 1;
    }
    out
}

proof fn lemma_scan_stopped(lines: Seq<Seq<char>>, k: int)
    requires
        0 <= k <= lines.len(),
        scan_search_list(lines, k).2,
    ensures
        scan_search_list(lines, lines.len() as int).0 == scan_search_list(lines, k).0,
    decreases lines.len() - k,
{
    if k < lines.len() {
        lemma_scan_stopped(lines, k + 1);
    }
}

/// The strings whose flag is set, in order.
pub open spec fn select(items: Seq<Seq<char>>, keep: Seq<bool>) -> Seq<Seq<char>>
    decreases items.len(),
{
    if items.len() == 0 || keep.len() != items.len() {
        Seq::empty()
    } else {
        select(items.drop_last(), keep.drop_last()) + if keep.last() {
            seq![items.last()]
        } else {
            Seq::empty()
        }
    }
}

pub fn select_existing(items: &Vec<String>, exists: &Vec<bool>) -> (r: Vec<String>)
    requires
        items@.len() == exists@.len(),
    ensures
        text::views(r@) == select(text::views(items@), exists@),
{
    let ghost iv = text::views(items@);
    let mut out: Vec<String> = Vec::new();
    let mut i: usize = 0;
    assert(iv.take(0) =~= Seq::<Seq<char>>::empty());
    while i < items.len()
        invariant
            iv == text::views(items@),
            items@.len() == exists@.len(),
            i <= items@.len(),
            text::views(out@) == select(iv.take(i as int), exists@.take(i as int)),
        decreases items@.len() - i,
    {
        assert(iv.take(i + 1).drop_last() =~= iv.take(i as int));
        assert(exists@.take(i + 1).drop_last() =~= exists@.take(i as int));
        let ghost before = text::views(out@);
        if exists[i] {
            let s = items[i].clone();
            out.push(s);
            assert(text::views(out@) =~= before + seq![s@]);
        } else {
            assert(text::views(out@) =~= before + Seq::<Seq<char>>::empty());
        }
        i += 1;
    }
    assert(iv.take(items@.len() as int) =~= iv);
    assert(exists@.take(items@.len() as int) =~= exists@);
    out
}

/// Calls `Path::exists`; what it returns depends on the file system, so
/// nothing is claimed of it.
#[verifier::external_body]
pub(crate) fn path_exists(path: &str) -> bool {
    std::path::Path::new(path).exists()
}

/// The directories of the driver's include search list that exist.
pub fn parse_driver_include_search_list(stderr: &str) -> (r: Vec<String>)
    ensures
        exists|keep: Seq<bool>|
            keep.len() == spec_driver_include_candidates(stderr@).len() && text::views(r@)
                == select(spec_driver_include_candidates(stderr@), keep),
{
    let candidates = driver_include_candidates(stderr);
    let mut exists: Vec<bool> = Vec::new();
    let mut i: usize = 0;
    while i < candidates.len()
        invariant
            i <= candidates@.len(),
            exists@.len() == i,
        decreases candidates@.len() - i,
    {
        exists.push(path_exists(candidates[i].as_str()));
        i += 1;
    }
    select_existing(&candidates, &exists)
}

// ---------------------------------------------------------------------------
// Compilation database arguments
// ---------------------------------------------------------------------------

/// What splitting the first `k` characters on whitespace leaves: the
/// finished words and the word in progress.
pub open spec fn ws_words(s: Seq<char>, k: int) -> (Seq<Seq<char>>, Seq<char>)
    decreases k,
{
    if k <= 0 {
        (Seq::empty(), Seq::empty())
    } else {
        let (done, cur) = ws_words(s, k - 1);
        let c = s[k - 1];
        if text::is_ws(c) {
            if cur.len() > 0 {
                (done.push(cur), Seq::empty())
            } else {
                (done, Seq::empty())
            }
        } else {
            (done, cur.push(c))
        }
    }
}

/// `str::split_whitespace`: the maximal runs of non-whitespace characters.
pub open spec fn spec_split_whitespace(s: Seq<char>) -> Seq<Seq<char>> {
    let (done, cur) = ws_words(s, s.len() as int);
    if cur.len() > 0 {
        done.push(cur)
    } else {
        done
    }
}

/// The arguments of a compile command line: its words after the first.
pub open spec fn spec_split_command_line(command: Seq<char>) -> Seq<Seq<char>> {
    let words = spec_split_whitespace(command);
    if words.len() > 0 {
        words.drop_first()
    } else {
        words
    }
}

pub fn split_whitespace(s: &str) -> (r: Vec<String>)
    ensures
        text::views(r@) == spec_split_whitespace(s@),
{
    let v = text::chars_of(s);
    let mut words: Vec<String> = Vec::new();
    let mut cur: Vec<char> = Vec::new();
    let mut i: usize = 0;
    while i < v.len()
        invariant
            i <= v@.len(),
            v@ == s@,
            ws_words(v@, i as int) == (text::views(words@), cur@),
        decreases v@.len() - i,
    {
        let c = v[i];
        if text::char_is_ws(c) {
            if cur.len() > 0 {
                let w = text::string_of(&cur);
                let ghost before = text::views(words@);
                words.push(w);
                assert(text::views(words@) =~= before.push(w@));
                cur = Vec::new();
                assert(cur@ =~= Seq::<char>::empty());
            } else {
                cur = Vec::new();
                assert(cur@ =~= Seq::<char>::empty());
            }
        } else {
            cur.push(c);
        }
        i += 1;
    }
    if cur.len() > 0 {
        let w = text::string_of(&cur);
        let ghost before = text::views(words@);
        words.push(w);
        assert(text::views(words@) =~= before.push(w@));
    }
    words
}

pub fn split_command_line(command: &str) -> (r: Vec<String>)
    ensures
        text::views(r@) == spec_split_command_line(command@),
{
    let words = split_whitespace(command);
    let ghost all = text::views(words@);
    let mut out: Vec<String> = Vec::new();
    let mut k: usize = 1;
    assert(all.len() > 0 ==> all.drop_first().take(0) =~= Seq::<Seq<char>>::empty());
    while k < words.len()
        invariant
            all == text::views(words@),
            1 <= k,
            all.len() > 0 ==> k <= all.len(),
            all.len() > 0 ==> text::views(out@) == all.drop_first().take(k - 1),
            all.len() == 0 ==> out@.len() == 0,
        decreases words@.len() - k,
    {
        let w = words[k].clone();
        let ghost before = text::views(out@);
        out.push(w);
        assert(text::views(out@) =~= before.push(w@));
        assert(all.drop_first().take(k as int) =~= all.drop_first().take(k - 1).push(all[k as int]));
        k += 1;
    }
    proof {
        if all.len() > 0 {
            assert(all.drop_first().take(all.len() - 1) =~= all.drop_first());
        } else {
            assert(text::views(out@) =~= all);
        }
    }
    out
}

/// The arguments of a compilation database entry: its argument list, or
/// its command line split, or none.
pub open spec fn spec_command_args(arguments: Option<Seq<Seq<char>>>, command: Option<Seq<char>>) -> Seq<
    Seq<char>,
> {
    match arguments {
        Some(a) => a,
        None => match command {
            Some(c) => spec_split_command_line(c),
            None => Seq::empty(),
        },
    }
}

pub fn command_args(arguments: &Option<Vec<String>>, command: &Option<String>) -> (r: Vec<String>)
    ensures
        text::views(r@) == spec_command_args(
            match arguments {
                Some(a) => Some(text::views(a@)),
                None => None,
            },
            text::opt_view(*command),
        ),
{
    match arguments {
        Some(a) => clone_strings(a),
        None => match command {
            Some(c) => split_command_line(c.as_str()),
            None => Vec::new(),
        },
    }
}

/// An argument of a compile command that a parse keeps: not a source or
/// header file, not `-c`, not an output option.
pub open spec fn keeps_compile_arg(a: Seq<char>) -> bool {
    !text::ends_with(a, ".cpp"@) && !text::ends_with(a, ".cc"@) && !text::ends_with(a, ".cxx"@)
        && !text::ends_with(a, ".hpp"@) && !text::ends_with(a, ".hh"@) && !text::ends_with(a, ".h"@)
        && a != "-c"@ && !text::starts_with(a, "-o"@)
}

fn keeps_compile_arg_exec(a: &str) -> (r: bool)
    ensures
        r == keeps_compile_arg(a@),
{
    !text::has_suffix(a, ".cpp") && !text::has_suffix(a, ".cc") && !text::has_suffix(a, ".cxx")
        && !text::has_suffix(a, ".hpp") && !text::has_suffix(a, ".hh") && !text::has_suffix(a, ".h")
        && !str_eq(a, "-c") && !text::has_prefix(a, "-o")
}

pub open spec fn spec_retain_compile_args(args: Seq<Seq<char>>) -> Seq<Seq<char>> {
    args.filter(|a: Seq<char>| keeps_compile_arg(a))
}

pub fn retain_compile_args(args: &Vec<String>) -> (r: Vec<String>)
    ensures
        text::views(r@) == spec_retain_compile_args(text::views(args@)),
{
    let ghost av = text::views(args@);
    let mut out: Vec<String> = Vec::new();
    let mut i: usize = 0;
    assert(av.take(0).filter(|a: Seq<char>| keeps_compile_arg(a)) =~= Seq::<Seq<char>>::empty());
    while i < args.len()
        invariant
            av == text::views(args@),
            i <= args@.len(),
            text::views(out@) == av.take(i as int).filter(|a: Seq<char>| keeps_compile_arg(a)),
        decreases args@.len() - i,
    {
        assert(av.take(i + 1) =~= av.take(i as int).push(av[i as int]));
        proof {
            av.take(i as int).lemma_filter_push(av[i as int], |a: Seq<char>| keeps_compile_arg(a));
        }
        let ghost before = text::views(out@);
        if keeps_compile_arg_exec(args[i].as_str()) {
            let s = args[i].clone();
            out.push(s);
            assert(text::views(out@) =~= before.push(s@));
        }
        i += 1;
    }
    assert(av.take(args@.len() as int) =~= av);
    out
}

/// An argument as the parse passes it on: as it is, or a path operand that
/// is resolved against a directory and written after `prefix`.
pub enum ClangArg {
    Keep(String),
    Include { prefix: String, value: String },
}

/// The mathematical value of a `ClangArg`: `(false, arg, _)` for one kept
/// as it is, `(true, prefix, value)` for a path operand.
pub open spec fn clang_arg_view(a: ClangArg) -> (bool, Seq<char>, Seq<char>) {
    match a {
        ClangArg::Keep(s) => (false, s@, Seq::empty()),
        ClangArg::Include { prefix, value } => (true, prefix@, value@),
    }
}

pub open spec fn clang_args_view(v: Seq<ClangArg>) -> Seq<(bool, Seq<char>, Seq<char>)> {
    v.map_values(|a: ClangArg| clang_arg_view(a))
}

pub open spec fn keep_arg(a: Seq<char>) -> (bool, Seq<char>, Seq<char>) {
    (false, a, Seq::empty())
}

pub open spec fn include_arg(prefix: Seq<char>, value: Seq<char>) -> (bool, Seq<char>, Seq<char>) {
    (true, prefix, value)
}

/// The compiler names that a compile command starts with.
pub open spec fn is_compiler_name(a: Seq<char>) -> bool {
    a == "clang"@ || a == "clang++"@ || a == "clang-18"@ || a == "clang++-18"@ || a == "cc"@
}

/// How the compile arguments from `i` on are passed on: compiler names and
/// dependency-file options (with their operands) dropped, include
/// directories resolved, everything else kept.
pub open spec fn spec_classify_from(args: Seq<Seq<char>>, i: int) -> Seq<(bool, Seq<char>, Seq<char>)>
    decreases args.len() + 1 - i,
{
    if i >= args.len() || i < 0 {
        Seq::empty()
    } else {
        let a = args[i];
        if is_compiler_name(a) {
            spec_classify_from(args, i + 1)
        } else if a == "-I"@ || a == "-isystem"@ {
            if i + 1 < args.len() {
                seq![keep_arg(a), include_arg(Seq::empty(), args[i + 1])] + spec_classify_from(
                    args,
                    i + 2,
                )
            } else {
                Seq::empty()
            }
        } else if text::starts_with(a, "-I"@) {
            seq![include_arg("-I"@, a.skip(2))] + spec_classify_from(args, i + 1)
        } else if a == "-MF"@ || a == "-MT"@ || a == "-MQ"@ {
            spec_classify_from(args, i + 2)
        } else if text::starts_with(a, "-isystem"@) {
            (if a.len() == 8 {
                seq![keep_arg(a)]
            } else {
                seq![include_arg("-isystem"@, a.skip(8))]
            }) + spec_classify_from(args, i + 1)
        } else {
            seq![keep_arg(a)] + spec_classify_from(args, i + 1)
        }
    }
}

fn push_arg(out: &mut Vec<ClangArg>, a: ClangArg)
    ensures
        clang_args_view(final(out)@) == clang_args_view(old(out)@).push(clang_arg_view(a)),
{
    let ghost before = clang_args_view(out@);
    let ghost av = clang_arg_view(a);
    out.push(a);
    assert(clang_args_view(out@) =~= before.push(av));
}

pub fn classify_compile_args(args: &Vec<String>) -> (r: Vec<ClangArg>)
    ensures
        clang_args_view(r@) == spec_classify_from(text::views(args@), 0),
{
    let ghost av = text::views(args@);
    let mut out: Vec<ClangArg> = Vec::new();
    let mut i: usize = 0;
    proof {
        reveal_strlit("-isystem");
        reveal_strlit("-I");
    }
    assert(clang_args_view(out@) + spec_classify_from(av, 0) =~= spec_classify_from(av, 0));
    while i < args.len()
        invariant
            av == text::views(args@),
            i <= args@.len(),
            clang_args_view(out@) + spec_classify_from(av, i as int) == spec_classify_from(av, 0),
        decreases args@.len() - i,
    {
        let a = args[i].as_str();
        let ghost before = clang_args_view(out@);
        let ghost rest = spec_classify_from(av, i as int);
        assert(a@ == av[i as int]);
        if str_eq(a, "clang") || str_eq(a, "clang++") || str_eq(a, "clang-18") || str_eq(
            a,
            "clang++-18",
        ) || str_eq(a, "cc") {
            i += 1;
        } else if str_eq(a, "-I") || str_eq(a, "-isystem") {
            if i + 1 < args.len() {
                push_arg(&mut out, ClangArg::Keep(owned(a)));
                let empty = String::new();
                assert(empty@ =~= Seq::<char>::empty());
                push_arg(&mut out, ClangArg::Include { prefix: empty, value: args[i + 1].clone() });
                assert(clang_args_view(out@) + spec_classify_from(av, i + 2) =~= before + rest);
                i += 2;
            } else {
                assert(rest =~= Seq::<(bool, Seq<char>, Seq<char>)>::empty());
                assert(spec_classify_from(av, args@.len() as int) =~= Seq::<
                    (bool, Seq<char>, Seq<char>),
                >::empty());
                assert(clang_args_view(out@) + spec_classify_from(av, args@.len() as int)
                    =~= before + rest);
                i = args.len();
            }
        } else if text::has_prefix(a, "-I") {
            proof {
                reveal_strlit("-I");
            }
            let v = text::chars_of(a);
            let value = text::string_of_range(&v, 2, v.len());
            assert(value@ =~= av[i as int].skip(2));
            push_arg(&mut out, ClangArg::Include { prefix: owned("-I"), value });
            assert(clang_args_view(out@) + spec_classify_from(av, i + 1) =~= before + rest);
            i += 1;
        } else if str_eq(a, "-MF") || str_eq(a, "-MT") || str_eq(a, "-MQ") {
            if i + 1 < args.len() {
                i += 2;
            } else {
                assert(spec_classify_from(av, i + 2) =~= spec_classify_from(
                    av,
                    args@.len() as int,
                ));
                i = args.len();
            }
        } else if text::has_prefix(a, "-isystem") {
            proof {
                reveal_strlit("-isystem");
            }
            let v = text::chars_of(a);
            if v.len() == 8 {
                push_arg(&mut out, ClangArg::Keep(owned(a)));
            } else {
                let value = text::string_of_range(&v, 8, v.len());
                assert(value@ =~= av[i as int].skip(8));
                push_arg(&mut out, ClangArg::Include { prefix: owned("-isystem"), value });
            }
            assert(clang_args_view(out@) + spec_classify_from(av, i + 1) =~= before + rest);
            i += 1;
        } else {
            push_arg(&mut out, ClangArg::Keep(owned(a)));
            assert(clang_args_view(out@) + spec_classify_from(av, i + 1) =~= before + rest);
            i += 1;
        }
    }
    assert(spec_classify_from(av, i as int) =~= Seq::<(bool, Seq<char>, Seq<char>)>::empty());
    assert(clang_args_view(out@) + Seq::<(bool, Seq<char>, Seq<char>)>::empty() =~= clang_args_view(
        out@,
    ));
    out
}

// ---------------------------------------------------------------------------
// The argument list of a parse
// ---------------------------------------------------------------------------

/// Whether an argument equals `x`.
pub open spec fn has_arg(args: Seq<Seq<char>>, x: Seq<char>) -> bool {
    exists|i: int| 0 <= i < args.len() && #[trigger] args[i] == x
}

/// Whether an argument chooses the language standard.
pub open spec fn has_std_arg(args: Seq<Seq<char>>) -> bool {
    exists|i: int| 0 <= i < args.len() && text::starts_with(#[trigger] args[i], "-std="@)
}

/// The arguments with the defaults that a C++ parse needs: `-x c++` unless
/// a language is chosen, `-std=c++17` unless a standard is.
pub open spec fn spec_with_language_defaults(args: Seq<Seq<char>>) -> Seq<Seq<char>> {
    let a = if has_arg(args, "-x"@) {
        args
    } else {
        args + seq!["-x"@, "c++"@]
    };
    if has_std_arg(a) {
        a
    } else {
        a.push("-std=c++17"@)
    }
}

fn has_arg_exec(args: &Vec<String>, x: &str) -> (r: bool)
    ensures
        r == has_arg(text::views(args@), x@),
{
    let r = text::contains_string(args, x);
    proof {
        if r {
            let i = choose|i: int| 0 <= i < text::views(args@).len() && text::views(args@)[i] == x@;
            assert(text::views(args@)[i] == x@);
        }
    }
    r
}

fn has_std_arg_exec(args: &Vec<String>) -> (r: bool)
    ensures
        r == has_std_arg(text::views(args@)),
{
    let ghost av = text::views(args@);
    let mut i: usize = 0;
    while i < args.len()
        invariant
            av == text::views(args@),
            i <= args@.len(),
            forall|j: int| 0 <= j < i ==> !text::starts_with(#[trigger] av[j], "-std="@),
        decreases args@.len() - i,
    {
        assert(av[i as int] == args@[i as int]@);
        if text::has_prefix(args[i].as_str(), "-std=") {
            return true;
        }
        i += 1;
    }
    false
}

pub fn with_language_defaults(args: Vec<String>) -> (r: Vec<String>)
    ensures
        text::views(r@) == spec_with_language_defaults(text::views(args@)),
{
    let mut args = args;
    let ghost a0 = text::views(args@);
    if !has_arg_exec(&args, "-x") {
        args.push(owned("-x"));
        args.push(owned("c++"));
        assert(text::views(args@) =~= a0 + seq!["-x"@, "c++"@]);
    }
    let ghost a1 = text::views(args@);
    if !has_std_arg_exec(&args) {
        args.push(owned("-std=c++17"));
        assert(text::views(args@) =~= a1.push("-std=c++17"@));
    }
    args
}

/// Whether the arguments already name `dir` as an include directory,
/// as `-I dir`, `-isystem dir`, `-Idir` or `-isystemdir`.
pub open spec fn names_include_from(args: Seq<Seq<char>>, dir: Seq<char>, i: int) -> bool
    decreases args.len() + 1 - i,
{
    if i >= args.len() || i < 0 {
        false
    } else {
        let a = args[i];
        if a == "-I"@ || a == "-isystem"@ {
            (i + 1 < args.len() && args[i + 1] == dir) || names_include_from(args, dir, i + 2)
        } else {
            a == "-I"@ + dir || a == "-isystem"@ + dir || names_include_from(
                args,
                dir,
                i + 1,
            )
        }
    }
}

/// The arguments with `-I<dir>` added unless they name it already.
pub open spec fn spec_add_header_parent_include(args: Seq<Seq<char>>, dir: Seq<char>) -> Seq<
    Seq<char>,
> {
    if names_include_from(args, dir, 0) {
        args
    } else {
        args.push("-I"@ + dir)
    }
}

pub fn add_header_parent_include(args: &mut Vec<String>, dir: &str)
    ensures
        text::views(final(args)@) == spec_add_header_parent_include(text::views(old(args)@), dir@),
{
    let ghost av = text::views(args@);
    let with_i = concat2("-I", dir);
    let with_isystem = concat2("-isystem", dir);
    let mut found = false;
    let mut i: usize = 0;
    while i < args.len()
        invariant
            av == text::views(args@),
            av == text::views(old(args)@),
            i <= args@.len() + 1,
            with_i@ == "-I"@ + dir@,
            with_isystem@ == "-isystem"@ + dir@,
            names_include_from(av, dir@, 0) == (found || names_include_from(av, dir@, i as int)),
        ensures
            names_include_from(av, dir@, 0) == (found || names_include_from(av, dir@, i as int)),
            !found ==> i >= args@.len(),
        decreases args@.len() + 1 - i,
    {
        let a = args[i].as_str();
        assert(a@ == av[i as int]);
        if str_eq(a, "-I") || str_eq(a, "-isystem") {
            if i + 1 < args.len() && str_eq(args[i + 1].as_str(), dir) {
                found = true;
                break;
            }
            if i + 1 < args.len() {
                i += 2;
            } else {
                assert(!names_include_from(av, dir@, i + 2));
                assert(!names_include_from(av, dir@, args@.len() as int));
                i = args.len();
            }
        } else {
            if str_eq(a, with_i.as_str()) || str_eq(a, with_isystem.as_str()) {
                found = true;
                break;
            }
            i += 1;
        }
    }
    if !found {
        assert(!names_include_from(av, dir@, i as int));
        assert(!names_include_from(av, dir@, 0));
        let ghost before = text::views(args@);
        args.push(with_i);
        assert(text::views(args@) =~= before.push("-I"@ + dir@));
    } else {
        assert(names_include_from(av, dir@, 0));
    }
}

/// The arguments with `-isystem<dir>` added for each fallback include
/// directory that they do not name with `-I` or `-isystem` already.
pub open spec fn spec_add_fallback_includes(args: Seq<Seq<char>>, includes: Seq<Seq<char>>) -> Seq<
    Seq<char>,
>
    decreases includes.len(),
{
    if includes.len() == 0 {
        args
    } else {
        let a = spec_add_fallback_includes(args, includes.drop_last());
        let inc = includes.last();
        if has_arg(a, "-I"@ + inc) || has_arg(a, "-isystem"@ + inc) {
            a
        } else {
            a.push("-isystem"@ + inc)
        }
    }
}

pub fn add_platform_fallback_includes(args: &mut Vec<String>, includes: &Vec<String>)
    ensures
        text::views(final(args)@) == spec_add_fallback_includes(
            text::views(old(args)@),
            text::views(includes@),
        ),
{
    let ghost a0 = text::views(args@);
    let ghost iv = text::views(includes@);
    let mut k: usize = 0;
    assert(iv.take(0) =~= Seq::<Seq<char>>::empty());
    while k < includes.len()
        invariant
            iv == text::views(includes@),
            k <= includes@.len(),
            text::views(args@) == spec_add_fallback_includes(a0, iv.take(k as int)),
        decreases includes@.len() - k,
    {
        assert(iv.take(k + 1).drop_last() =~= iv.take(k as int));
        assert(iv.take(k + 1).last() == includes@[k as int]@);
        let inc = includes[k].as_str();
        let with_i = concat2("-I", inc);
        let with_isystem = concat2("-isystem", inc);
        if !has_arg_exec(args, with_i.as_str()) && !has_arg_exec(args, with_isystem.as_str()) {
            let ghost before = text::views(args@);
            args.push(with_isystem);
            assert(text::views(args@) =~= before.push("-isystem"@ + inc@));
        }
        k += 1;
    }
    assert(iv.take(includes@.len() as int) =~= iv);
}

/// On macOS, the SDK as `-isysroot` unless one is given.
pub open spec fn spec_add_fallback_sysroot(args: Seq<Seq<char>>, is_macos: bool, sysroot: Option<Seq<char>>) -> Seq<
    Seq<char>,
> {
    if !is_macos || has_arg(args, "-isysroot"@) {
        args
    } else {
        match sysroot {
            Some(s) => args + seq!["-isysroot"@, s],
            None => args,
        }
    }
}

pub fn add_platform_fallback_sysroot(args: &mut Vec<String>, is_macos: bool, sysroot: &Option<String>)
    ensures
        text::views(final(args)@) == spec_add_fallback_sysroot(
            text::views(old(args)@),
            is_macos,
            text::opt_view(*sysroot),
        ),
{
    if !is_macos || has_arg_exec(args, "-isysroot") {
        return;
    }
    match sysroot {
        Some(s) => {
            let ghost before = text::views(args@);
            args.push(owned("-isysroot"));
            args.push(s.clone());
            assert(text::views(args@) =~= before + seq!["-isysroot"@, s@]);
        },
        None => {},
    }
}

/// The clang arguments of a parse: those of the compilation database and
/// the configured ones, the language defaults, the directory of the parsed
/// file, the macOS SDK and the platform's fallback include directories.
pub open spec fn spec_collect_clang_args(
    config: Config,
    db_args: Seq<Seq<char>>,
    parent_include: Option<Seq<char>>,
    is_macos: bool,
    sysroot: Option<Seq<char>>,
    fallback_includes: Seq<Seq<char>>,
) -> Seq<Seq<char>> {
    let a = spec_with_language_defaults(db_args + text::views(config.input.clang_args@));
    let b = match parent_include {
        Some(p) => spec_add_header_parent_include(a, p),
        None => a,
    };
    spec_add_fallback_includes(spec_add_fallback_sysroot(b, is_macos, sysroot), fallback_includes)
}

pub fn collect_clang_args(
    config: &Config,
    db_args: Vec<String>,
    parent_include: &Option<String>,
    is_macos: bool,
    sysroot: &Option<String>,
    fallback_includes: &Vec<String>,
) -> (r: Vec<String>)
    ensures
        text::views(r@) == spec_collect_clang_args(
            *config,
            text::views(db_args@),
            text::opt_view(*parent_include),
            is_macos,
            text::opt_view(*sysroot),
            text::views(fallback_includes@),
        ),
{
    let mut args = db_args;
    let ghost a0 = text::views(args@);
    let mut extra = clone_strings(&config.input.clang_args);
    let ghost e = text::views(extra@);
    args.append(&mut extra);
    assert(text::views(args@) =~= a0 + e);
    let mut args = with_language_defaults(args);
    match parent_include {
        Some(p) => add_header_parent_include(&mut args, p.as_str()),
        None => {},
    }
    add_platform_fallback_sysroot(&mut args, is_macos, sysroot);
    add_platform_fallback_includes(&mut args, fallback_includes);
    args
}

/// The arguments of a compilation database entry as a parse passes them
/// on: split or listed, sources and outputs dropped, compiler names and
/// dependency-file options dropped, include directories marked.
pub open spec fn spec_compile_command_args(
    arguments: Option<Seq<Seq<char>>>,
    command: Option<Seq<char>>,
) -> Seq<(bool, Seq<char>, Seq<char>)> {
    spec_classify_from(spec_retain_compile_args(spec_command_args(arguments, command)), 0)
}

pub fn compile_command_args(arguments: &Option<Vec<String>>, command: &Option<String>) -> (r: Vec<ClangArg>)
    ensures
        clang_args_view(r@) == spec_compile_command_args(
            match arguments {
                Some(a) => Some(text::views(a@)),
                None => None,
            },
            text::opt_view(*command),
        ),
{
    let args = command_args(arguments, command);
    let kept = retain_compile_args(&args);
    classify_compile_args(&kept)
}

proof fn lemma_classify_keeps(args: Seq<Seq<char>>, i: int)
    requires
        forall|j: int| 0 <= j < args.len() ==> keeps_compile_arg(#[trigger] args[j]),
    ensures
        forall|k: int|
            0 <= k < spec_classify_from(args, i).len() && !(#[trigger] spec_classify_from(args, i)[k]).0
                ==> keeps_compile_arg(spec_classify_from(args, i)[k].1) && !is_compiler_name(
                spec_classify_from(args, i)[k].1,
            ),
    decreases args.len() + 1 - i,
{
    if 0 <= i < args.len() {
        let a = args[i];
        let r = spec_classify_from(args, i);
        assert(keeps_compile_arg(a));
        if is_compiler_name(a) {
            lemma_classify_keeps(args, i + 1);
            assert(r == spec_classify_from(args, i + 1));
        } else if a == "-I"@ || a == "-isystem"@ {
            if i + 1 < args.len() {
                lemma_classify_keeps(args, i + 2);
                let rest = spec_classify_from(args, i + 2);
                assert(r == seq![keep_arg(a), include_arg(Seq::empty(), args[i + 1])] + rest);
                assert forall|k: int| 0 <= k < r.len() && !(#[trigger] r[k]).0 implies keeps_compile_arg(
                    r[k].1,
                ) && !is_compiler_name(r[k].1) by {
                    if k >= 2 {
                        assert(r[k] == rest[k - 2]);
                    }
                }
            }
        } else if text::starts_with(a, "-I"@) {
            lemma_classify_keeps(args, i + 1);
            let rest = spec_classify_from(args, i + 1);
            assert(r == seq![include_arg("-I"@, a.skip(2))] + rest);
            assert forall|k: int| 0 <= k < r.len() && !(#[trigger] r[k]).0 implies keeps_compile_arg(
                r[k].1,
            ) && !is_compiler_name(r[k].1) by {
                if k >= 1 {
                    assert(r[k] == rest[k - 1]);
                }
            }
        } else if a == "-MF"@ || a == "-MT"@ || a == "-MQ"@ {
            lemma_classify_keeps(args, i + 2);
            assert(r == spec_classify_from(args, i + 2));
        } else {
            lemma_classify_keeps(args, i + 1);
            let rest = spec_classify_from(args, i + 1);
            let first: Seq<(bool, Seq<char>, Seq<char>)> = if text::starts_with(a, "-isystem"@) {
                if a.len() == 8 {
                    seq![keep_arg(a)]
                } else {
                    seq![include_arg("-isystem"@, a.skip(8))]
                }
            } else {
                seq![keep_arg(a)]
            };
            assert(r == first + rest);
            assert(keeps_compile_arg(a));
            assert forall|k: int| 0 <= k < r.len() && !(#[trigger] r[k]).0 implies keeps_compile_arg(
                r[k].1,
            ) && !is_compiler_name(r[k].1) by {
                if k >= 1 {
                    assert(r[k] == rest[k - 1]);
                } else {
                    assert(r[0] == first[0]);
                }
            }
        }
    }
}

/// Of a compilation database entry, a parse passes on no source or header
/// file, no `-c`, no output option and no compiler name as an argument of
/// its own.
pub proof fn law_compile_command_args_clean(arguments: Option<Seq<Seq<char>>>, command: Option<Seq<char>>)
    ensures
        forall|k: int|
            0 <= k < spec_compile_command_args(arguments, command).len() && !(
            #[trigger] spec_compile_command_args(arguments, command)[k]).0 ==> keeps_compile_arg(
                spec_compile_command_args(arguments, command)[k].1,
            ) && !is_compiler_name(spec_compile_command_args(arguments, command)[k].1),
{
    let all = spec_command_args(arguments, command);
    let kept = spec_retain_compile_args(all);
    let p = |a: Seq<char>| keeps_compile_arg(a);
    assert forall|j: int| 0 <= j < kept.len() implies keeps_compile_arg(#[trigger] kept[j]) by {
        all.lemma_filter_pred(p, j);
    }
    lemma_classify_keeps(kept, 0);
}

/// The compilation database entry whose file is the parse entry: the
/// first that matches, else the first entry, else none.
pub open spec fn spec_select_compile_command(matches: Seq<bool>) -> Option<int> {
    if exists|i: int| 0 <= i < matches.len() && matches[i] {
        Some(choose|i: int| 0 <= i < matches.len() && matches[i] && forall|j: int| 0 <= j < i ==> !matches[j])
    } else if matches.len() > 0 {
        Some(0)
    } else {
        None
    }
}

pub fn select_compile_command(matches: &Vec<bool>) -> (r: Option<usize>)
    ensures
        match r {
            Some(i) => spec_select_compile_command(matches@) == Some(i as int),
            None => spec_select_compile_command(matches@) is None,
        },
{
    let mut i: usize = 0;
    while i < matches.len()
        invariant
            i <= matches@.len(),
            forall|j: int| 0 <= j < i ==> !matches@[j],
        decreases matches@.len() - i,
    {
        if matches[i] {
            proof {
                let c = choose|k: int| 0 <= k < matches@.len() && matches@[k] && forall|j: int| 0 <= j < k ==> !matches@[j];
                assert(0 <= i < matches@.len() && matches@[i as int] && forall|j: int| 0 <= j < i ==> !matches@[j]);
                if c < i {
                    assert(!matches@[c]);
                }
                if c > i {
                    assert(!matches@[i as int]);
                }
            }
            return Some(i);
        }
        i += 1;
    }
    if matches.len() > 0 {
        Some(0)
    } else {
        None
    }
}

/// The message for a parse entry that does not exist.
pub open spec fn missing_parse_entry_message(path: Seq<char>) -> Seq<char> {
    "parse entry not found: "@ + path
}

/// The outcome of the existence check for a parse entry, given whether
/// the file system has it.
pub open spec fn spec_check_parse_entry(path: Seq<char>, exists: bool) -> Result<(), Seq<char>> {
    if exists {
        Ok(())
    } else {
        Err(missing_parse_entry_message(path))
    }
}

pub fn check_parse_entry(parse_entry: &str, exists: bool) -> (r: Result<(), String>)
    ensures
        match r {
            Ok(()) => spec_check_parse_entry(parse_entry@, exists) == Ok::<(), Seq<char>>(()),
            Err(e) => spec_check_parse_entry(parse_entry@, exists) == Err::<(), Seq<char>>(e@),
        },
{
    if !exists {
        return Err(concat2("parse entry not found: ", parse_entry));
    }
    Ok(())
}

/// Fails where the parse entry does not exist; whether it exists is for
/// the file system to say.
pub fn ensure_parse_entry_exists(parse_entry: &str) -> (r: Result<(), String>)
    ensures
        r is Ok || spec_check_parse_entry(parse_entry@, false) == Err::<(), Seq<char>>(r->Err_0@),
{
    check_parse_entry(parse_entry, path_exists(parse_entry))
}

pub fn ensure_header_exists(path: &str) -> (r: Result<(), String>)
    ensures
        r is Ok || spec_check_parse_entry(path@, false) == Err::<(), Seq<char>>(r->Err_0@),
{
    ensure_parse_entry_exists(path)
}

// ---------------------------------------------------------------------------
// Laws
// ---------------------------------------------------------------------------

/// Adding the language defaults chooses a language and a standard, and
/// adding them again changes nothing.
pub proof fn law_language_defaults_idempotent(args: Seq<Seq<char>>)
    ensures
        has_arg(spec_with_language_defaults(args), "-x"@),
        has_std_arg(spec_with_language_defaults(args)),
        spec_with_language_defaults(spec_with_language_defaults(args)) == spec_with_language_defaults(
            args,
        ),
{
    reveal_strlit("-std=c++17");
    reveal_strlit("-std=");
    let a = if has_arg(args, "-x"@) {
        args
    } else {
        args + seq!["-x"@, "c++"@]
    };
    if !has_arg(args, "-x"@) {
        assert(a[args.len() as int] == "-x"@);
    }
    assert(has_arg(a, "-x"@));
    let b = spec_with_language_defaults(args);
    if !has_std_arg(a) {
        assert(b == a.push("-std=c++17"@));
        assert("-std=c++17"@.take(5) =~= "-std="@);
        assert(text::starts_with(b[a.len() as int], "-std="@));
        let i = choose|i: int| 0 <= i < a.len() && #[trigger] a[i] == "-x"@;
        assert(b[i] == "-x"@);
    } else {
        let i = choose|i: int| 0 <= i < a.len() && text::starts_with(#[trigger] a[i], "-std="@);
        assert(text::starts_with(b[i], "-std="@));
    }
    assert(has_arg(b, "-x"@));
    assert(has_std_arg(b));
}

/// Whether `b` begins with all of `a`.
pub open spec fn extends(b: Seq<Seq<char>>, a: Seq<Seq<char>>) -> bool {
    a.len() <= b.len() && b.take(a.len() as int) == a
}

proof fn lemma_extends_has_arg(b: Seq<Seq<char>>, a: Seq<Seq<char>>, x: Seq<char>)
    requires
        extends(b, a),
        has_arg(a, x),
    ensures
        has_arg(b, x),
{
    let i = choose|i: int| 0 <= i < a.len() && #[trigger] a[i] == x;
    assert(b.take(a.len() as int)[i] == b[i]);
    assert(b[i] == x);
}

proof fn lemma_extends_has_std(b: Seq<Seq<char>>, a: Seq<Seq<char>>)
    requires
        extends(b, a),
        has_std_arg(a),
    ensures
        has_std_arg(b),
{
    let i = choose|i: int| 0 <= i < a.len() && text::starts_with(#[trigger] a[i], "-std="@);
    assert(b.take(a.len() as int)[i] == b[i]);
    assert(text::starts_with(b[i], "-std="@));
}

proof fn lemma_extends_trans(c: Seq<Seq<char>>, b: Seq<Seq<char>>, a: Seq<Seq<char>>)
    requires
        extends(c, b),
        extends(b, a),
    ensures
        extends(c, a),
{
    assert(c.take(a.len() as int) =~= c.take(b.len() as int).take(a.len() as int));
}

proof fn lemma_fallback_includes_extend(args: Seq<Seq<char>>, includes: Seq<Seq<char>>)
    ensures
        extends(spec_add_fallback_includes(args, includes), args),
    decreases includes.len(),
{
    if includes.len() == 0 {
        assert(args.take(args.len() as int) =~= args);
    } else {
        let a = spec_add_fallback_includes(args, includes.drop_last());
        lemma_fallback_includes_extend(args, includes.drop_last());
        let inc = includes.last();
        if !(has_arg(a, "-I"@ + inc) || has_arg(a, "-isystem"@ + inc)) {
            let b = a.push("-isystem"@ + inc);
            assert(b.take(a.len() as int) =~= a);
            lemma_extends_trans(b, a, args);
        }
    }
}

/// Whether the arguments name `inc` with `-I` or `-isystem`.
pub open spec fn names_fallback(args: Seq<Seq<char>>, inc: Seq<char>) -> bool {
    has_arg(args, "-I"@ + inc) || has_arg(args, "-isystem"@ + inc)
}

proof fn lemma_fallback_includes_named(args: Seq<Seq<char>>, includes: Seq<Seq<char>>)
    ensures
        forall|k: int|
            0 <= k < includes.len() ==> names_fallback(
                spec_add_fallback_includes(args, includes),
                #[trigger] includes[k],
            ),
    decreases includes.len(),
{
    if includes.len() > 0 {
        let pre = includes.drop_last();
        let a = spec_add_fallback_includes(args, pre);
        let r = spec_add_fallback_includes(args, includes);
        lemma_fallback_includes_named(args, pre);
        let inc = includes.last();
        if !names_fallback(a, inc) {
            assert(r == a.push("-isystem"@ + inc));
            assert(r.take(a.len() as int) =~= a);
            assert(r[a.len() as int] == "-isystem"@ + inc);
        } else {
            assert(r == a);
            assert(r.take(a.len() as int) =~= a);
        }
        assert(extends(r, a));
        assert forall|k: int| 0 <= k < includes.len() implies names_fallback(r, #[trigger] includes[k]) by {
            if k < includes.len() - 1 {
                assert(pre[k] == includes[k]);
                assert(names_fallback(a, includes[k]));
                if has_arg(a, "-I"@ + includes[k]) {
                    lemma_extends_has_arg(r, a, "-I"@ + includes[k]);
                } else {
                    lemma_extends_has_arg(r, a, "-isystem"@ + includes[k]);
                }
            }
        }
    }
}

proof fn lemma_fallback_includes_noop(args: Seq<Seq<char>>, includes: Seq<Seq<char>>)
    requires
        forall|k: int| 0 <= k < includes.len() ==> names_fallback(args, #[trigger] includes[k]),
    ensures
        spec_add_fallback_includes(args, includes) == args,
    decreases includes.len(),
{
    if includes.len() > 0 {
        let pre = includes.drop_last();
        assert forall|k: int| 0 <= k < pre.len() implies names_fallback(args, #[trigger] pre[k]) by {
            assert(pre[k] == includes[k]);
        }
        lemma_fallback_includes_noop(args, pre);
        assert(names_fallback(args, includes[includes.len() - 1]));
    }
}

/// Adding the fallback include directories again changes nothing.
pub proof fn law_fallback_includes_idempotent(args: Seq<Seq<char>>, includes: Seq<Seq<char>>)
    ensures
        spec_add_fallback_includes(spec_add_fallback_includes(args, includes), includes)
            == spec_add_fallback_includes(args, includes),
{
    lemma_fallback_includes_named(args, includes);
    lemma_fallback_includes_noop(spec_add_fallback_includes(args, includes), includes);
}

/// Adding the macOS SDK again changes nothing.
pub proof fn law_fallback_sysroot_idempotent(args: Seq<Seq<char>>, is_macos: bool, sysroot: Option<Seq<char>>)
    ensures
        spec_add_fallback_sysroot(spec_add_fallback_sysroot(args, is_macos, sysroot), is_macos, sysroot)
            == spec_add_fallback_sysroot(args, is_macos, sysroot),
{
    let b = spec_add_fallback_sysroot(args, is_macos, sysroot);
    if is_macos && !has_arg(args, "-isysroot"@) {
        if let Some(s) = sysroot {
            assert(b[args.len() as int] == "-isysroot"@);
            assert(has_arg(b, "-isysroot"@));
        }
    }
}

/// Filtering the compile arguments again changes nothing.
pub proof fn law_retain_compile_args_idempotent(args: Seq<Seq<char>>)
    ensures
        spec_retain_compile_args(spec_retain_compile_args(args)) == spec_retain_compile_args(args),
    decreases args.len(),
{
    let p = |a: Seq<char>| keeps_compile_arg(a);
    if args.len() > 0 {
        let pre = args.drop_last();
        let x = args.last();
        assert(pre.push(x) =~= args);
        pre.lemma_filter_push(x, p);
        law_retain_compile_args_idempotent(pre);
        let f = pre.filter(p);
        if keeps_compile_arg(x) {
            f.lemma_filter_push(x, p);
        }
    } else {
        assert(args.filter(p) =~= args) by {
            reveal(Seq::filter);
        }
    }
}

/// Whatever the database, the configuration and the platform give, the
/// clang arguments of a parse begin with the database's and the
/// configured arguments, and choose a language and a standard.
pub proof fn law_clang_args_choose_language(
    config: Config,
    db_args: Seq<Seq<char>>,
    parent_include: Option<Seq<char>>,
    is_macos: bool,
    sysroot: Option<Seq<char>>,
    fallback_includes: Seq<Seq<char>>,
)
    ensures
        has_arg(
            spec_collect_clang_args(config, db_args, parent_include, is_macos, sysroot, fallback_includes),
            "-x"@,
        ),
        has_std_arg(
            spec_collect_clang_args(config, db_args, parent_include, is_macos, sysroot, fallback_includes),
        ),
        extends(
            spec_collect_clang_args(config, db_args, parent_include, is_macos, sysroot, fallback_includes),
            db_args + text::views(config.input.clang_args@),
        ),
{
    let a = spec_with_language_defaults(db_args + text::views(config.input.clang_args@));
    law_language_defaults_idempotent(db_args + text::views(config.input.clang_args@));
    let b = match parent_include {
        Some(p) => spec_add_header_parent_include(a, p),
        None => a,
    };
    assert(extends(b, a)) by {
        assert(b.take(a.len() as int) =~= a);
    }
    let c = spec_add_fallback_sysroot(b, is_macos, sysroot);
    assert(extends(c, b)) by {
        assert(c.take(b.len() as int) =~= b);
    }
    let d = spec_add_fallback_includes(c, fallback_includes);
    lemma_fallback_includes_extend(c, fallback_includes);
    lemma_extends_trans(c, b, a);
    lemma_extends_trans(d, c, a);
    lemma_extends_has_arg(d, a, "-x"@);
    lemma_extends_has_std(d, a);
    let given = db_args + text::views(config.input.clang_args@);
    assert(extends(a, given)) by {
        let a1 = if has_arg(given, "-x"@) {
            given
        } else {
            given + seq!["-x"@, "c++"@]
        };
        assert(a1.take(given.len() as int) =~= given);
        assert(a.take(given.len() as int) =~= given);
    }
    lemma_extends_trans(d, a, given);
}

/// Where the scan for include directories that starts at `i` leaves the
/// arguments: past their end by one where a bare `-I` or `-isystem` at the
/// end takes no operand.
pub open spec fn include_scan_end(args: Seq<Seq<char>>, i: int) -> int
    decreases args.len() + 1 - i,
{
    if i >= args.len() || i < 0 {
        i
    } else if args[i] == "-I"@ || args[i] == "-isystem"@ {
        include_scan_end(args, i + 2)
    } else {
        include_scan_end(args, i + 1)
    }
}

proof fn lemma_pushed_include_named(args: Seq<Seq<char>>, dir: Seq<char>, i: int)
    requires
        0 <= i <= args.len(),
        dir.len() > 0,
        include_scan_end(args, i) == args.len(),
    ensures
        names_include_from(args.push("-I"@ + dir), dir, i),
    decreases args.len() - i,
{
    let pushed = args.push("-I"@ + dir);
    reveal_strlit("-I");
    reveal_strlit("-isystem");
    if i == args.len() {
        let a = pushed[i];
        assert(a == "-I"@ + dir);
        assert(a.len() > 2);
        assert(a != "-I"@);
        assert(a[1] == 'I');
        assert("-isystem"@[1] == 'i');
        assert(a != "-isystem"@);
    } else {
        assert(pushed[i] == args[i]);
        if args[i] == "-I"@ || args[i] == "-isystem"@ {
            if i + 2 > args.len() {
                assert(include_scan_end(args, i + 2) == i + 2);
            }
            lemma_pushed_include_named(args, dir, i + 2);
        } else {
            lemma_pushed_include_named(args, dir, i + 1);
        }
    }
}

/// After the parse entry's directory is added, the arguments name it, and
/// adding it again changes nothing; for a non-empty directory and
/// arguments that do not end in a bare `-I` or `-isystem` without operand.
pub proof fn law_parent_include_idempotent(args: Seq<Seq<char>>, dir: Seq<char>)
    requires
        dir.len() > 0,
        include_scan_end(args, 0) == args.len(),
    ensures
        names_include_from(spec_add_header_parent_include(args, dir), dir, 0),
        spec_add_header_parent_include(spec_add_header_parent_include(args, dir), dir)
            == spec_add_header_parent_include(args, dir),
{
    if !names_include_from(args, dir, 0) {
        lemma_pushed_include_named(args, dir, 0);
    }
}

/// Whether the arguments name `dir` as an include directory, in any of
/// the four forms.
pub open spec fn include_named(args: Seq<Seq<char>>, dir: Seq<char>) -> bool {
    has_arg(args, "-I"@ + dir) || has_arg(args, "-isystem"@ + dir) || exists|i: int|
        0 <= i && i + 1 < args.len() && (#[trigger] args[i] == "-I"@ || args[i] == "-isystem"@)
            && args[i + 1] == dir
}

proof fn lemma_names_include_witness(args: Seq<Seq<char>>, dir: Seq<char>, i: int)
    requires
        names_include_from(args, dir, i),
    ensures
        include_named(args, dir),
    decreases args.len() + 1 - i,
{
    if 0 <= i < args.len() {
        let a = args[i];
        if a == "-I"@ || a == "-isystem"@ {
            if !(i + 1 < args.len() && args[i + 1] == dir) {
                lemma_names_include_witness(args, dir, i + 2);
            }
        } else if !(a == "-I"@ + dir || a == "-isystem"@ + dir) {
            lemma_names_include_witness(args, dir, i + 1);
        }
    }
}

proof fn lemma_include_named_extends(b: Seq<Seq<char>>, a: Seq<Seq<char>>, dir: Seq<char>)
    requires
        extends(b, a),
        include_named(a, dir),
    ensures
        include_named(b, dir),
{
    if has_arg(a, "-I"@ + dir) {
        lemma_extends_has_arg(b, a, "-I"@ + dir);
    } else if has_arg(a, "-isystem"@ + dir) {
        lemma_extends_has_arg(b, a, "-isystem"@ + dir);
    } else {
        let i = choose|i: int|
            0 <= i && i + 1 < a.len() && (#[trigger] a[i] == "-I"@ || a[i] == "-isystem"@) && a[i + 1] == dir;
        assert(b.take(a.len() as int)[i] == b[i]);
        assert(b.take(a.len() as int)[i + 1] == b[i + 1]);
        assert(b[i] == a[i]);
    }
}

/// The directory of the parsed file is on the include path of its parse,
/// as `-I<dir>`, `-isystem<dir>`, or a bare `-I`/`-isystem` before it.
pub proof fn law_parent_include_present(
    config: Config,
    db_args: Seq<Seq<char>>,
    parent: Seq<char>,
    is_macos: bool,
    sysroot: Option<Seq<char>>,
    fallback_includes: Seq<Seq<char>>,
)
    ensures
        include_named(
            spec_collect_clang_args(config, db_args, Some(parent), is_macos, sysroot, fallback_includes),
            parent,
        ),
{
    let a = spec_with_language_defaults(db_args + text::views(config.input.clang_args@));
    let b = spec_add_header_parent_include(a, parent);
    if names_include_from(a, parent, 0) {
        lemma_names_include_witness(a, parent, 0);
    } else {
        assert(b[a.len() as int] == "-I"@ + parent);
    }
    let c = spec_add_fallback_sysroot(b, is_macos, sysroot);
    assert(extends(c, b)) by {
        assert(c.take(b.len() as int) =~= b);
    }
    let d = spec_add_fallback_includes(c, fallback_includes);
    lemma_fallback_includes_extend(c, fallback_includes);
    lemma_extends_trans(d, c, b);
    lemma_include_named_extends(d, b, parent);
}

} // verus!
