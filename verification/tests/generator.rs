use cgo_gen::codegen::ir_norm::{IrFunction, IrModule, IrParam, IrType, SupportMetadata};
use cgo_gen::config::Config;
use cgo_gen::domain::kind::{IrFunctionKind, IrTypeKind};
use cgo_gen::facade::go_package_name;
use cgo_gen::generator::{
    exported_cxxflags, generation_targets, render_build_flags, GenerationTargets, render_function_def, render_go_mod, render_header,
    render_source,
};

fn strings(items: &[&str]) -> Vec<String> {
    items.iter().map(|s| s.to_string()).collect()
}

fn prim(t: &str) -> IrType {
    IrType { kind: IrTypeKind::Primitive, cpp_type: t.to_string(), c_type: t.to_string(), handle: None }
}

fn add_function() -> IrFunction {
    IrFunction {
        name: "cgowrap_add".to_string(),
        kind: IrFunctionKind::Function,
        cpp_name: "add".to_string(),
        method_of: None,
        owner_cpp_type: None,
        is_const: None,
        field_accessor: None,
        returns: prim("int"),
        params: vec![
            IrParam { name: "a".to_string(), ty: prim("int") },
            IrParam { name: "b".to_string(), ty: prim("int") },
        ],
    }
}

fn module(functions: Vec<IrFunction>, headers: Vec<String>) -> IrModule {
    IrModule {
        version: 1,
        module: "cgowrap".to_string(),
        source_headers: headers,
        opaque_types: vec![],
        functions,
        enums: vec![],
        callbacks: vec![],
        support: SupportMetadata {
            parser_backend: "libclang".to_string(),
            notes: vec![],
            skipped_declarations: vec![],
        },
    }
}

#[test]
fn go_mod_names_the_module_and_go_version() {
    assert_eq!(render_go_mod("example.com/acme/foo"), "module example.com/acme/foo\n\ngo 1.25\n");
}

#[test]
fn exported_cxxflags_keep_only_includes_defines_and_standard() {
    let raw = strings(&["-Iinc", "-DX=1", "-O2", "-std=c++17", "-I", "dir", "-Wall", "-isystem"]);
    assert_eq!(
        exported_cxxflags(&raw),
        strings(&["-I${SRCDIR}", "-Iinc", "-DX=1", "-std=c++17", "-I", "dir"])
    );
    assert_eq!(exported_cxxflags(&strings(&["-I", "-isystemx", "-D"])), strings(&["-I${SRCDIR}", "-I", "-isystemx"]));
}

#[test]
fn build_flags_emit_srcdir_and_exported_flags() {
    let mut config = Config::default();
    config.output.dir = "out/My-Pkg".to_string();
    let raw = strings(&["-Iinc", "-O2", "-DX"]);
    assert_eq!(
        render_build_flags(&config, &raw),
        "package my_pkg\n\n/*\n#cgo CFLAGS: -I${SRCDIR}\n#cgo CXXFLAGS: -I${SRCDIR} -Iinc -DX\n*/\nimport \"C\"\n"
    );
}

#[test]
fn go_package_name_sanitises_the_directory_name() {
    assert_eq!(go_package_name("gen/Foo.Bar"), "foo_bar");
    assert_eq!(go_package_name("gen"), "gen");
    assert_eq!(go_package_name("/"), "bindings");
}

#[test]
fn header_declares_each_wrapper_inside_the_guard() {
    let config = Config::default();
    let ir = module(vec![add_function()], vec![]);
    assert_eq!(
        render_header(&config, &ir),
        "#ifndef CGOWRAP_WRAPPER_H\n#define CGOWRAP_WRAPPER_H\n\n#include <stdbool.h>\n#include <stddef.h>\n#include <stdint.h>\n\n#ifdef __cplusplus\nextern \"C\" {\n#endif\n\nint cgowrap_add(int a, int b);\n#ifdef __cplusplus\n}\n#endif\n\n#endif /* CGOWRAP_WRAPPER_H */\n"
    );
}

#[test]
fn source_includes_headers_by_file_name_and_defines_wrappers() {
    let config = Config::default();
    let ir = module(vec![add_function()], vec!["include/math.hpp".to_string()]);
    assert_eq!(
        render_source(&config, &ir),
        "#include \"wrapper.h\"\n#include <cstdlib>\n#include <cstring>\n#include <new>\n#include <string>\n\n#include \"math.hpp\"\n\nint cgowrap_add(int a, int b) {\n    return add(a, b);\n}\n\n"
    );
}

#[test]
fn function_definition_casts_aliased_primitives() {
    let mut f = add_function();
    f.params[0].ty.cpp_type = "int32".to_string();
    f.params[0].ty.c_type = "int32_t".to_string();
    assert_eq!(
        render_function_def(&f),
        "int cgowrap_add(int32_t a, int b) {\n    return add(static_cast<int32>(a), b);\n}\n"
    );
}

#[test]
fn several_headers_need_default_output_names() {
    let headers = vec!["a.hpp".to_string(), "b.hpp".to_string()];
    match generation_targets(&Config::default(), headers.clone()) {
        Ok(GenerationTargets::Each(hs)) => assert_eq!(hs, headers),
        _ => panic!("expected one wrapper set per header"),
    }
    let mut custom = Config::default();
    custom.output.header = "api.h".to_string();
    match generation_targets(&custom, headers) {
        Err(e) => assert!(e.starts_with("multi-header generation does not support")),
        _ => panic!("expected an error"),
    }
    match generation_targets(&custom, vec!["a.hpp".to_string()]) {
        Ok(GenerationTargets::Single(Some(h))) => assert_eq!(h, "a.hpp"),
        _ => panic!("expected a single set"),
    }
    assert!(matches!(generation_targets(&custom, vec![]), Ok(GenerationTargets::Single(None))));
}

#[test]
fn build_flags_add_a_linker_line_for_configured_ldflags() {
    let mut config = Config::default();
    config.output.dir = "out".to_string();
    config.input.ldflags = strings(&["-L/opt/lib", "-lfoo"]);
    assert_eq!(
        render_build_flags(&config, &strings(&["-DX"])),
        "package out\n\n/*\n#cgo CFLAGS: -I${SRCDIR}\n#cgo CXXFLAGS: -I${SRCDIR} -DX\n#cgo LDFLAGS: -L/opt/lib -lfoo\n*/\nimport \"C\"\n"
    );
}
