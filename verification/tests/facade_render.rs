use cgo_gen::codegen::ir_norm::{assign_unique_function_symbols, ensure_unique_function_symbols, IrFunction, IrModule, IrParam, IrType, SupportMetadata};
use cgo_gen::config::Config;
use cgo_gen::domain::kind::{IrFunctionKind, IrTypeKind};
use cgo_gen::facade::render_go_facade;

fn ty(kind: IrTypeKind, t: &str) -> IrType {
    IrType { kind, cpp_type: t.to_string(), c_type: t.to_string(), handle: None }
}

fn free(name: &str, cpp_name: &str, returns: IrType, params: Vec<IrParam>) -> IrFunction {
    IrFunction {
        name: name.to_string(),
        kind: IrFunctionKind::Function,
        cpp_name: cpp_name.to_string(),
        method_of: None,
        owner_cpp_type: None,
        is_const: None,
        field_accessor: None,
        returns,
        params,
    }
}

fn module(functions: Vec<IrFunction>) -> IrModule {
    IrModule {
        version: 1,
        module: "cgowrap".to_string(),
        source_headers: vec![],
        opaque_types: vec![],
        functions,
        enums: vec![],
        callbacks: vec![],
        support: SupportMetadata {
            parser_backend: "libclang".to_string(),
            notes: vec![],
            skipped_declarations: vec![],
        },
    }
}

#[test]
fn rejects_free_functions_that_collide_in_go_exports() {
    let ir = module(vec![
        free("cgowrap_alpha_reset", "alpha::reset", ty(IrTypeKind::Void, "void"), vec![]),
        free("cgowrap_beta_reset", "beta::reset", ty(IrTypeKind::Void, "void"), vec![]),
    ]);
    let err = render_go_facade(&Config::default(), &ir).unwrap_err();
    assert_eq!(
        err,
        "facade export collision detected: Go facade export `Reset` collides for: alpha::reset, beta::reset"
    );
}

#[test]
fn renders_one_go_file_for_a_supported_free_function() {
    let ir = module(vec![free(
        "cgowrap_add",
        "add",
        ty(IrTypeKind::Primitive, "int"),
        vec![
            IrParam { name: "a".to_string(), ty: ty(IrTypeKind::Primitive, "int") },
            IrParam { name: "b".to_string(), ty: ty(IrTypeKind::Primitive, "int") },
        ],
    )]);
    let files = render_go_facade(&Config::default(), &ir).unwrap();
    assert_eq!(files.len(), 1);
    assert_eq!(files[0].filename, "wrapper.go");
    assert!(files[0].contents.starts_with("package "));
    assert!(files[0].contents.contains("func Add("));
}

#[test]
fn empty_module_renders_no_go_file() {
    let files = render_go_facade(&Config::default(), &module(vec![])).unwrap();
    assert!(files.is_empty());
}

#[test]
fn duplicate_wrapper_symbols_are_reported_with_their_origins() {
    let functions = vec![
        free("cgowrap_f", "a::f", ty(IrTypeKind::Void, "void"), vec![]),
        free("cgowrap_f", "b::f", ty(IrTypeKind::Void, "void"), vec![]),
        free("cgowrap_g", "g", ty(IrTypeKind::Void, "void"), vec![]),
    ];
    assert_eq!(
        ensure_unique_function_symbols(&functions).unwrap_err(),
        "overload collision detected after suffix assignment: wrapper symbol `cgowrap_f` collides for C++ declarations: a::f, b::f"
    );
    assert!(ensure_unique_function_symbols(&functions[1..]).is_ok());
}

#[test]
fn shared_symbols_get_signature_suffixes_and_numbers() {
    let p = |n: &str, t: &str| IrParam { name: n.to_string(), ty: ty(IrTypeKind::Primitive, t) };
    let mut functions = vec![
        free("cgowrap_add", "add", ty(IrTypeKind::Void, "void"), vec![p("a", "int")]),
        free("cgowrap_add", "add", ty(IrTypeKind::Void, "void"), vec![p("a", "bool")]),
        free("cgowrap_add", "add", ty(IrTypeKind::Void, "void"), vec![p("b", "int")]),
        free("cgowrap_sub", "sub", ty(IrTypeKind::Void, "void"), vec![]),
    ];
    assign_unique_function_symbols(&mut functions);
    let names: Vec<&str> = functions.iter().map(|f| f.name.as_str()).collect();
    assert_eq!(
        names,
        vec!["cgowrap_add__int", "cgowrap_add__bool", "cgowrap_add__int_2", "cgowrap_sub"]
    );
    assert!(ensure_unique_function_symbols(&functions).is_ok());

    let mut unique = vec![free("cgowrap_f", "f", ty(IrTypeKind::Void, "void"), vec![])];
    assign_unique_function_symbols(&mut unique);
    assert_eq!(unique[0].name, "cgowrap_f");
}

#[test]
fn a_method_without_its_handle_keeps_a_symbol_it_alone_carries() {
    let mut functions = vec![IrFunction {
        name: "cgowrap_Api_Broken".to_string(),
        kind: IrFunctionKind::Method,
        cpp_name: "Api::Broken".to_string(),
        method_of: Some("ApiHandle".to_string()),
        owner_cpp_type: Some("Api".to_string()),
        is_const: Some(false),
        field_accessor: None,
        returns: ty(IrTypeKind::Void, "void"),
        params: vec![],
    }];
    assign_unique_function_symbols(&mut functions);
    assert_eq!(functions[0].name, "cgowrap_Api_Broken");
}
