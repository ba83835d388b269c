use cgo_gen::codegen::ir_norm::{
    normalize, IrFunction, IrModule, IrParam, IrType, SupportMetadata,
};
use cgo_gen::config::Config;
use cgo_gen::domain::kind::{IrFunctionKind, IrTypeKind};
use cgo_gen::facade::collect_known_model_projections;
use cgo_gen::facade::projection::{build_model_projection, go_field_name, go_field_token};
use cgo_gen::parser::{CppClass, CppFunction, CppMethod, CppParam, ParsedApi};

fn prim(t: &str) -> IrType {
    IrType { kind: IrTypeKind::Primitive, cpp_type: t.to_string(), c_type: t.to_string(), handle: None }
}

fn void() -> IrType {
    IrType { kind: IrTypeKind::Void, cpp_type: "void".to_string(), c_type: "void".to_string(), handle: None }
}

fn self_param(owner: &str) -> IrParam {
    IrParam {
        name: "self".to_string(),
        ty: IrType {
            kind: IrTypeKind::Opaque,
            cpp_type: format!("{owner}*"),
            c_type: format!("{owner}Handle*"),
            handle: Some(format!("{owner}Handle")),
        },
    }
}

fn wrapper(owner: &str, kind: IrFunctionKind, method: &str, returns: IrType, extra: Vec<IrParam>) -> IrFunction {
    let mut params = vec![self_param(owner)];
    params.extend(extra);
    IrFunction {
        name: format!("cgowrap_{owner}_{method}"),
        kind,
        cpp_name: format!("{owner}::{method}"),
        method_of: Some(format!("{owner}Handle")),
        owner_cpp_type: Some(owner.to_string()),
        is_const: None,
        field_accessor: None,
        returns,
        params,
    }
}

fn value_param(t: IrType) -> Vec<IrParam> {
    vec![IrParam { name: "value".to_string(), ty: t }]
}

fn module(functions: Vec<IrFunction>) -> IrModule {
    IrModule {
        version: 1,
        module: "cgowrap".to_string(),
        source_headers: vec![],
        opaque_types: vec![],
        functions,
        enums: vec![],
        callbacks: vec![],
        support: SupportMetadata {
            parser_backend: "libclang".to_string(),
            notes: vec![],
            skipped_declarations: vec![],
        },
    }
}

#[test]
fn go_field_names_capitalise_initialisms() {
    assert_eq!(go_field_name("user_id"), "userID");
    assert_eq!(go_field_name("UserId"), "UserID");
    assert_eq!(go_field_name("HTTPServer"), "HTTPServer");
    assert_eq!(go_field_name("Value"), "Value");
    assert_eq!(go_field_name("api_url2"), "APIURL2");
    assert_eq!(go_field_name(""), "");
    assert_eq!(go_field_token("Json"), "JSON");
    assert_eq!(go_field_token("ABC"), "ABC");
    assert_eq!(go_field_token("Name"), "Name");
}

#[test]
fn projects_matching_getter_setter_pairs() {
    let functions = vec![
        wrapper("Thing", IrFunctionKind::Constructor, "new", prim("int"), vec![]),
        wrapper("Thing", IrFunctionKind::Destructor, "delete", void(), vec![]),
        wrapper("Thing", IrFunctionKind::Method, "GetValue", prim("int"), vec![]),
        wrapper("Thing", IrFunctionKind::Method, "SetValue", void(), value_param(prim("int"))),
        wrapper("Thing", IrFunctionKind::Method, "GetName", prim("double"), vec![]),
        wrapper("Thing", IrFunctionKind::Method, "SetName", void(), value_param(prim("int"))),
    ];
    let projection = build_model_projection(&functions, "Thing", "thing.h").unwrap().unwrap();
    assert_eq!(projection.cpp_type, "Thing");
    assert_eq!(projection.handle_name, "ThingHandle");
    assert_eq!(projection.go_name, "Thing");
    assert_eq!(projection.output_header, "thing.h");
    assert_eq!(projection.constructor_symbol, "cgowrap_Thing_new");
    assert_eq!(projection.destructor_symbol, Some("cgowrap_Thing_delete".to_string()));
    assert_eq!(projection.fields.len(), 1);
    let field = &projection.fields[0];
    assert_eq!(field.go_name, "Value");
    assert_eq!(field.go_type, "int");
    assert_eq!(field.getter_symbol, "cgowrap_Thing_GetValue");
    assert_eq!(field.setter_symbol, "cgowrap_Thing_SetValue");
    assert_eq!(field.return_kind, "primitive");
}

#[test]
fn class_without_pairs_has_no_projection() {
    let functions = vec![wrapper("Thing", IrFunctionKind::Method, "GetValue", prim("int"), vec![])];
    assert!(build_model_projection(&functions, "Thing", "thing.h").unwrap().is_none());
}

#[test]
fn projection_without_constructor_or_destructor_is_an_error() {
    let pair = vec![
        wrapper("Thing", IrFunctionKind::Method, "GetValue", prim("int"), vec![]),
        wrapper("Thing", IrFunctionKind::Method, "SetValue", void(), value_param(prim("int"))),
    ];
    assert_eq!(
        build_model_projection(&pair, "Thing", "thing.h").unwrap_err(),
        "model projection `Thing` is missing a constructor wrapper"
    );
    let mut with_ctor = pair.clone();
    with_ctor.push(wrapper("Thing", IrFunctionKind::Constructor, "new", prim("int"), vec![]));
    assert_eq!(
        build_model_projection(&with_ctor, "Thing", "thing.h").unwrap_err(),
        "model projection `Thing` is missing a destructor wrapper"
    );
}

#[test]
fn projections_come_sorted_by_class() {
    let mut functions = Vec::new();
    for owner in ["Zeta", "Alpha"] {
        functions.push(wrapper(owner, IrFunctionKind::Constructor, "new", prim("int"), vec![]));
        functions.push(wrapper(owner, IrFunctionKind::Destructor, "delete", void(), vec![]));
        functions.push(wrapper(owner, IrFunctionKind::Method, "GetCount", prim("int"), vec![]));
        functions.push(wrapper(owner, IrFunctionKind::Method, "SetCount", void(), value_param(prim("int"))));
    }
    let mut config = Config::default();
    config.output.header = "models.h".to_string();
    let projections = collect_known_model_projections(&config, &module(functions)).unwrap();
    let names: Vec<&str> = projections.iter().map(|p| p.cpp_type.as_str()).collect();
    assert_eq!(names, vec!["Alpha", "Zeta"]);
    assert!(projections.iter().all(|p| p.output_header == "models.h"));
}

fn param(name: &str, ty: &str) -> CppParam {
    CppParam {
        name: name.to_string(),
        ty: ty.to_string(),
        canonical_ty: ty.to_string(),
        is_function_pointer: false,
        callback_typedef: None,
    }
}

fn method(name: &str, ret: &str, params: Vec<CppParam>, is_const: bool) -> CppMethod {
    CppMethod {
        name: name.to_string(),
        return_type: ret.to_string(),
        return_canonical_type: ret.to_string(),
        return_is_function_pointer: false,
        params,
        is_const,
    }
}

#[test]
fn normalizes_a_class_and_a_function_into_wrappers() {
    let api = ParsedApi {
        headers: vec!["counter.hpp".to_string()],
        functions: vec![CppFunction {
            source_header: "counter.hpp".to_string(),
            namespace: vec![],
            name: "add".to_string(),
            return_type: "int".to_string(),
            return_canonical_type: "int".to_string(),
            return_is_function_pointer: false,
            params: vec![param("a", "int"), param("b", "int")],
        }],
        classes: vec![CppClass {
            source_header: "counter.hpp".to_string(),
            namespace: vec![],
            name: "Counter".to_string(),
            methods: vec![
                method("GetValue", "int", vec![], true),
                method("SetValue", "void", vec![param("value", "int")], false),
            ],
            constructors: vec![],
            fields: vec![],
            has_destructor: false,
            has_declared_constructor: false,
            is_abstract: false,
            is_struct: false,
        }],
        enums: vec![],
        callbacks: vec![],
    };
    let ir = normalize(&Config::default(), &api).unwrap();
    let names: Vec<&str> = ir.functions.iter().map(|f| f.name.as_str()).collect();
    assert_eq!(
        names,
        vec![
            "cgowrap_Counter_new",
            "cgowrap_Counter_delete",
            "cgowrap_Counter_GetValue",
            "cgowrap_Counter_SetValue",
            "cgowrap_add",
        ]
    );
    assert_eq!(ir.module, "cgowrap");
    assert_eq!(ir.opaque_types.len(), 1);
    assert_eq!(ir.opaque_types[0].name, "CounterHandle");
    assert!(ir.support.skipped_declarations.is_empty());
    assert_eq!(ir.support.notes.len(), 2);

    let projections = collect_known_model_projections(&Config::default(), &ir).unwrap();
    assert_eq!(projections.len(), 1);
    assert_eq!(projections[0].fields[0].go_name, "Value");
    assert_eq!(projections[0].fields[0].go_type, "int");
}

#[test]
fn pipeline_context_knows_the_parsed_models() {
    let api = ParsedApi {
        headers: vec!["counter.hpp".to_string()],
        functions: vec![],
        classes: vec![CppClass {
            source_header: "counter.hpp".to_string(),
            namespace: vec!["ns".to_string()],
            name: "Counter".to_string(),
            methods: vec![
                method("GetValue", "int", vec![], true),
                method("SetValue", "void", vec![param("value", "int")], false),
            ],
            constructors: vec![],
            fields: vec![],
            has_destructor: false,
            has_declared_constructor: false,
            is_abstract: false,
            is_struct: false,
        }],
        enums: vec![],
        callbacks: vec![],
    };
    let prepared = cgo_gen::generator::build_pipeline_context(Config::default(), &api).unwrap();
    assert_eq!(prepared.known_model_types, vec!["ns::Counter".to_string()]);
    assert_eq!(prepared.known_model_projections.len(), 1);
    assert_eq!(prepared.known_model_projections[0].cpp_type, "ns::Counter");
    assert_eq!(prepared.known_model_projections[0].handle_name, "nsCounterHandle");
}
