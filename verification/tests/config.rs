use cgo_gen::config::{
    classify_config_clang_args, classify_ldflags, to_snake_case, Config, KnownModelProjection,
};
use cgo_gen::parsing::compiler::ClangArg;

fn header_config(header: &str) -> Config {
    let mut config = Config::default();
    config.input.headers = vec![header.to_string()];
    config.output.dir = "gen".to_string();
    config
}

#[test]
fn derives_output_filenames_from_header_stem_when_defaults_are_kept() {
    let mut config = header_config("include/foo.hpp");
    config.apply_output_defaults();
    assert_eq!(config.output.header, "foo_wrapper.h");
    assert_eq!(config.output.source, "foo_wrapper.cpp");
    assert_eq!(config.output.ir, "foo_wrapper.ir.yaml");
    assert_eq!(config.go_filename("Foo"), "foo_wrapper.go");
    assert!(config.go_output_dir().ends_with("gen"));

    let before = config.output.header.clone();
    config.apply_output_defaults();
    assert_eq!(config.output.header, before);
}

#[test]
fn explicit_output_names_are_kept() {
    let mut config = header_config("include/foo.hpp");
    config.output.header = "custom.h".to_string();
    config.apply_output_defaults();
    assert_eq!(config.output.header, "custom.h");
    assert_eq!(config.output.source, "wrapper.cpp");
    assert!(!config.uses_default_output_names());
}

#[test]
fn scoped_header_from_dir_only_config_keeps_dir_and_derives_names() {
    let mut config = Config::default();
    config.input.dir = Some("include".to_string());
    config.output.dir = "gen".to_string();
    let scoped = config.clone().scoped_to_header("include/model.hpp".to_string());

    assert_eq!(scoped.input.dir, config.input.dir);
    assert!(scoped.input.headers.is_empty());
    assert_eq!(scoped.target_header, Some("include/model.hpp".to_string()));
    assert_eq!(scoped.output.header, "model_wrapper.h");
    assert_eq!(scoped.output.source, "model_wrapper.cpp");
    assert_eq!(scoped.output.ir, "model_wrapper.ir.yaml");
}

#[test]
fn scoped_header_without_dir_becomes_the_only_header() {
    let config = header_config("a.hpp");
    let scoped = config.scoped_to_header("include/UserProfile.hpp".to_string());
    assert_eq!(scoped.input.headers, vec!["include/UserProfile.hpp".to_string()]);
    assert_eq!(scoped.output.header, "user_profile_wrapper.h");
}

#[test]
fn snake_case_splits_words_and_digits() {
    assert_eq!(to_snake_case("UserProfile"), "user_profile");
    assert_eq!(to_snake_case("Http2Server"), "http_2_server");
    assert_eq!(to_snake_case("HTTPServer"), "http_server");
    assert_eq!(to_snake_case(""), "");
}

#[test]
fn parse_entries_prefer_translation_units() {
    let mut config = header_config("a.hpp");
    assert_eq!(config.parse_entries(), vec!["a.hpp".to_string()]);
    config.input.translation_units = vec!["a.cpp".to_string()];
    assert_eq!(config.parse_entries(), vec!["a.cpp".to_string()]);
}

#[test]
fn known_model_lookups_ignore_qualifiers() {
    let projection = KnownModelProjection {
        cpp_type: "ThingModel".to_string(),
        handle_name: "ThingModelHandle".to_string(),
        go_name: "ThingModel".to_string(),
        output_header: "thing.h".to_string(),
        constructor_symbol: "new".to_string(),
        destructor_symbol: None,
        fields: vec![],
    };
    let config = Config::default()
        .with_known_model_types(vec!["ns::ThingModel".to_string()])
        .with_known_model_projections(vec![projection]);
    assert!(config.is_known_model_type("const ThingModel&"));
    assert!(!config.is_known_model_type("Other"));
    assert_eq!(
        config.known_model_projection("ThingModel*").map(|p| p.go_name.clone()),
        Some("ThingModel".to_string())
    );
    assert!(config.known_model_projection("Other").is_none());
}

#[test]
fn config_clang_args_mark_path_operands() {
    let args: Vec<String> = ["-I", "inc", "-Iabs", "-isystemx", "-DY", "-isystem"]
        .iter()
        .map(|s| s.to_string())
        .collect();
    let shown: Vec<String> = classify_config_clang_args(&args)
        .iter()
        .map(|a| match a {
            ClangArg::Keep(s) => format!("keep:{s}"),
            ClangArg::Include { prefix, value } => format!("path:{prefix}|{value}"),
        })
        .collect();
    assert_eq!(
        shown,
        vec!["keep:-I", "path:|inc", "path:-I|abs", "path:-isystem|x", "keep:-DY", "keep:-isystem"]
    );
}

#[test]
fn ldflags_mark_library_directories() {
    let args: Vec<String> = ["-L", "lib", "-Lvendor/lib", "-lfoo", "-L"].iter().map(|s| s.to_string()).collect();
    let shown: Vec<String> = classify_ldflags(&args)
        .iter()
        .map(|a| match a {
            ClangArg::Keep(s) => format!("keep:{s}"),
            ClangArg::Include { prefix, value } => format!("path:{prefix}|{value}"),
        })
        .collect();
    assert_eq!(shown, vec!["keep:-L", "path:|lib", "path:-L|vendor/lib", "keep:-lfoo", "keep:-L"]);
}

#[test]
fn validation_needs_an_input() {
    let config = Config::default();
    assert_eq!(
        config.validate_shape(false),
        Err("config.input.dir or config.input.headers must be set".to_string())
    );
    let mut with_dir = Config::default();
    with_dir.input.dir = Some("inc".to_string());
    assert_eq!(with_dir.validate_shape(false), Ok(()));
    assert_eq!(
        with_dir.validate_shape(true),
        Err("config.input.dir must point to a directory: inc".to_string())
    );
}

#[test]
fn directory_wrapper_example_scopes_per_header_output_names() {
    let mut config = Config::default();
    config.input.dir = Some("/project/include".to_string());
    config.output.dir = "/project/pkg/sdk".to_string();
    config.naming.prefix = "sdk".to_string();
    config.naming.style = "preserve".to_string();

    let profile = config.clone().scoped_to_header("/project/include/UserProfile.hpp".to_string());
    let admin = config.clone().scoped_to_header("/project/include/AdminUser.hpp".to_string());

    assert_eq!(profile.output.header, "user_profile_wrapper.h");
    assert_eq!(profile.output.source, "user_profile_wrapper.cpp");
    assert_eq!(profile.output.ir, "user_profile_wrapper.ir.yaml");
    assert_eq!(profile.go_filename(""), "user_profile_wrapper.go");

    assert_eq!(admin.output.header, "admin_user_wrapper.h");
    assert_eq!(admin.output.source, "admin_user_wrapper.cpp");
    assert_eq!(admin.output.ir, "admin_user_wrapper.ir.yaml");
    assert_eq!(admin.go_filename(""), "admin_user_wrapper.go");
}
