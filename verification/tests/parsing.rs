use cgo_gen::parsing::compiler::{
    add_header_parent_include, add_platform_fallback_includes, add_platform_fallback_sysroot,
    check_parse_entry, classify_compile_args, collect_clang_args, command_args,
    driver_include_candidates, parse_driver_include_search_list, retain_compile_args,
    select_compile_command, split_command_line, with_language_defaults, ClangArg,
};
use cgo_gen::config::Config;
use cgo_gen::parser::{
    canonicalize_type_name, filter_to_header, is_unnamed_enum_spelling, should_collect, CppEnum,
    ParsedApi,
};

fn strings(items: &[&str]) -> Vec<String> {
    items.iter().map(|s| s.to_string()).collect()
}

#[test]
fn parses_driver_include_search_list_from_verbose_output() {
    let stderr = r#"
#include "..." search starts here:
#include <...> search starts here:
 /usr/include/c++/13
 /usr/include/x86_64-linux-gnu/c++/13
 /usr/lib/llvm-18/lib/clang/18/include
 /usr/local/include
 /usr/include/x86_64-linux-gnu
 /usr/include
End of search list.
"#;

    let includes = parse_driver_include_search_list(stderr);
    assert_eq!(
        includes,
        vec![
            "/usr/include/c++/13".to_string(),
            "/usr/include/x86_64-linux-gnu/c++/13".to_string(),
            "/usr/lib/llvm-18/lib/clang/18/include".to_string(),
            "/usr/local/include".to_string(),
            "/usr/include/x86_64-linux-gnu".to_string(),
            "/usr/include".to_string(),
        ]
        .into_iter()
        .filter(|path| std::path::Path::new(path).exists())
        .collect::<Vec<_>>()
    );
}

#[test]
fn driver_candidates_skip_framework_dirs_and_stop_at_end() {
    let stderr = "noise\n#include <...> search starts here:\n /a\n\n /b (framework directory)\n (framework directory) /c\n /d \nEnd of search list.\n /e\n";
    assert_eq!(
        driver_include_candidates(stderr),
        strings(&["/a", "/b (framework directory)", "/d"])
    );
}

#[test]
fn split_command_line_drops_the_compiler() {
    assert_eq!(
        split_command_line("  clang++   -Iinc -c  a.cpp "),
        strings(&["-Iinc", "-c", "a.cpp"])
    );
    assert_eq!(split_command_line(""), Vec::<String>::new());
}

#[test]
fn command_args_prefer_the_argument_list() {
    let list = Some(strings(&["clang", "-DX"]));
    let line = Some("cc -DY".to_string());
    assert_eq!(command_args(&list, &line), strings(&["clang", "-DX"]));
    assert_eq!(command_args(&None, &line), strings(&["-DY"]));
    assert_eq!(command_args(&None, &None), Vec::<String>::new());
}

#[test]
fn retain_compile_args_drops_sources_and_outputs() {
    let args = strings(&["-DX", "a.cpp", "b.h", "-c", "-o", "out.o", "-ofile", "-Iinc", "x.cc"]);
    assert_eq!(retain_compile_args(&args), strings(&["-DX", "out.o", "-Iinc"]));
    let once = retain_compile_args(&args);
    assert_eq!(retain_compile_args(&once), once);
}

#[test]
fn classify_compile_args_resolves_include_operands() {
    let args = strings(&[
        "clang++", "-I", "inc", "-Isrc", "-MF", "dep.d", "-isystem", "-isystemsys", "-DX", "-I",
    ]);
    let classified = classify_compile_args(&args);
    let shown: Vec<String> = classified
        .iter()
        .map(|a| match a {
            ClangArg::Keep(s) => format!("keep:{s}"),
            ClangArg::Include { prefix, value } => format!("inc:{prefix}|{value}"),
        })
        .collect();
    assert_eq!(
        shown,
        strings(&["keep:-I", "inc:|inc", "inc:-I|src", "keep:-isystem", "inc:|-isystemsys", "keep:-DX"])
    );
}

#[test]
fn language_defaults_are_added_once() {
    let added = with_language_defaults(strings(&["-DX"]));
    assert_eq!(added, strings(&["-DX", "-x", "c++", "-std=c++17"]));
    assert_eq!(with_language_defaults(added.clone()), added);
    assert_eq!(
        with_language_defaults(strings(&["-x", "c", "-std=c11"])),
        strings(&["-x", "c", "-std=c11"])
    );
}

#[test]
fn header_parent_include_is_added_unless_named() {
    let mut args = strings(&["-DX"]);
    add_header_parent_include(&mut args, "/src");
    assert_eq!(args, strings(&["-DX", "-I/src"]));
    add_header_parent_include(&mut args, "/src");
    assert_eq!(args, strings(&["-DX", "-I/src"]));

    let mut spaced = strings(&["-isystem", "/src"]);
    add_header_parent_include(&mut spaced, "/src");
    assert_eq!(spaced, strings(&["-isystem", "/src"]));
}

#[test]
fn fallback_includes_and_sysroot_are_added_once() {
    let mut args = strings(&["-I/usr/include"]);
    let fallbacks = strings(&["/usr/include", "/usr/local/include"]);
    add_platform_fallback_includes(&mut args, &fallbacks);
    assert_eq!(args, strings(&["-I/usr/include", "-isystem/usr/local/include"]));
    add_platform_fallback_includes(&mut args, &fallbacks);
    assert_eq!(args, strings(&["-I/usr/include", "-isystem/usr/local/include"]));

    let sdk = Some("/sdk".to_string());
    let mut mac = strings(&["-DX"]);
    add_platform_fallback_sysroot(&mut mac, true, &sdk);
    assert_eq!(mac, strings(&["-DX", "-isysroot", "/sdk"]));
    add_platform_fallback_sysroot(&mut mac, true, &sdk);
    assert_eq!(mac, strings(&["-DX", "-isysroot", "/sdk"]));

    let mut linux = strings(&["-DX"]);
    add_platform_fallback_sysroot(&mut linux, false, &sdk);
    assert_eq!(linux, strings(&["-DX"]));
}

#[test]
fn collect_clang_args_orders_database_config_and_defaults() {
    let mut config = Config::default();
    config.input.clang_args = strings(&["-DCONFIG"]);
    let args = collect_clang_args(
        &config,
        strings(&["-DDB"]),
        &Some("/proj".to_string()),
        false,
        &None,
        &strings(&["/usr/include"]),
    );
    assert_eq!(
        args,
        strings(&["-DDB", "-DCONFIG", "-x", "c++", "-std=c++17", "-I/proj", "-isystem/usr/include"])
    );
}

#[test]
fn select_compile_command_prefers_the_match_then_the_first() {
    assert_eq!(select_compile_command(&vec![false, true, true]), Some(1));
    assert_eq!(select_compile_command(&vec![false, false]), Some(0));
    assert_eq!(select_compile_command(&vec![]), None);
}

#[test]
fn missing_parse_entry_is_reported() {
    assert_eq!(check_parse_entry("a.hpp", true), Ok(()));
    assert_eq!(
        check_parse_entry("a.hpp", false),
        Err("parse entry not found: a.hpp".to_string())
    );
    assert!(cgo_gen::parsing::compiler::ensure_parse_entry_exists("/definitely/not/here.hpp").is_err());
}

#[test]
fn type_names_lose_blanks_around_punctuation() {
    assert_eq!(canonicalize_type_name("const  char *"), "const char*");
    assert_eq!(canonicalize_type_name(" std::vector< int > "), "std::vector<int>");
    assert_eq!(canonicalize_type_name("int &"), "int&");
    assert_eq!(canonicalize_type_name("Foo * const"), "Foo*const");
}

#[test]
fn unnamed_enums_are_recognised() {
    assert!(is_unnamed_enum_spelling("(unnamed enum at a.h:3:1)"));
    assert!(!is_unnamed_enum_spelling("Color"));
}

#[test]
fn collection_follows_the_input_shape() {
    assert!(!should_collect(true, true, true, true, false, false, true, false, false));
    assert!(should_collect(false, true, true, false, false, false, false, false, false));
    assert!(!should_collect(false, true, true, true, false, false, true, true, false));
    assert!(should_collect(false, false, false, true, true, true, true, false, false));
    assert!(!should_collect(false, false, false, true, true, true, false, false, false));
}

#[test]
fn member_access_and_parameter_names() {
    assert!(cgo_gen::parser::is_accessible(cgo_gen::parser::MemberAccess::Public, false));
    assert!(cgo_gen::parser::is_accessible(cgo_gen::parser::MemberAccess::Unspecified, true));
    assert!(!cgo_gen::parser::is_accessible(cgo_gen::parser::MemberAccess::Unspecified, false));
    assert!(!cgo_gen::parser::is_accessible(cgo_gen::parser::MemberAccess::Private, true));
    assert_eq!(cgo_gen::parser::param_name("", 2), "arg2");
    assert_eq!(cgo_gen::parser::param_name("arg", 0), "arg0");
    assert_eq!(cgo_gen::parser::param_name("value", 3), "value");
}

#[test]
fn filtering_keeps_the_flagged_declarations_of_one_header() {
    let e = |n: &str| CppEnum {
        source_header: "a.h".to_string(),
        namespace: vec![],
        name: n.to_string(),
        variants: vec![],
    };
    let api = ParsedApi {
        headers: vec!["a.h".to_string(), "b.h".to_string()],
        functions: vec![],
        classes: vec![],
        enums: vec![e("A"), e("B"), e("C")],
        callbacks: vec![],
    };
    let filtered = filter_to_header(api, "a.h".to_string(), &vec![], &vec![], &vec![true, false, true], &vec![]);
    assert_eq!(filtered.headers, vec!["a.h".to_string()]);
    let names: Vec<&str> = filtered.enums.iter().map(|e| e.name.as_str()).collect();
    assert_eq!(names, vec!["A", "C"]);
}
