use cgo_gen::codegen::ir_norm::{
    IrEnum, IrEnumVariant, IrFunction, IrModule, IrParam, IrType, SupportMetadata,
};
use cgo_gen::config::Config;
use cgo_gen::domain::kind::{IrFunctionKind, IrTypeKind};
use cgo_gen::model::{render_go_models, render_go_structs, HeaderRole};

fn prim(t: &str) -> IrType {
    IrType { kind: IrTypeKind::Primitive, cpp_type: t.to_string(), c_type: t.to_string(), handle: None }
}

fn void() -> IrType {
    IrType { kind: IrTypeKind::Void, cpp_type: "void".to_string(), c_type: "void".to_string(), handle: None }
}

fn method(owner: &str, name: &str, returns: IrType, value: Option<IrType>) -> IrFunction {
    let mut params = vec![IrParam {
        name: "self".to_string(),
        ty: IrType {
            kind: IrTypeKind::Opaque,
            cpp_type: format!("{owner}*"),
            c_type: format!("{owner}Handle*"),
            handle: Some(format!("{owner}Handle")),
        },
    }];
    if let Some(t) = value {
        params.push(IrParam { name: "value".to_string(), ty: t });
    }
    IrFunction {
        name: format!("cgowrap_{owner}_{name}"),
        kind: IrFunctionKind::Method,
        cpp_name: format!("{owner}::{name}"),
        method_of: Some(format!("{owner}Handle")),
        owner_cpp_type: Some(owner.to_string()),
        is_const: None,
        field_accessor: None,
        returns,
        params,
    }
}

fn module(functions: Vec<IrFunction>, enums: Vec<IrEnum>) -> IrModule {
    IrModule {
        version: 1,
        module: "cgowrap".to_string(),
        source_headers: vec![],
        opaque_types: vec![],
        functions,
        enums,
        callbacks: vec![],
        support: SupportMetadata {
            parser_backend: "libclang".to_string(),
            notes: vec![],
            skipped_declarations: vec![],
        },
    }
}

fn model_config() -> Config {
    let mut config = Config::default();
    config.input.headers = vec!["include/user.hpp".to_string()];
    config.output.dir = "gen/models".to_string();
    config.output.header = "user_wrapper.h".to_string();
    config
}

fn color_enum() -> IrEnum {
    IrEnum {
        name: "cgowrap_Color".to_string(),
        cpp_name: "paint::Color".to_string(),
        variants: vec![
            IrEnumVariant { name: "Red".to_string(), value: Some("1".to_string()) },
            IrEnumVariant { name: "Blue".to_string(), value: None },
        ],
    }
}

#[test]
fn model_header_renders_enums_and_structs() {
    let ir = module(
        vec![
            method("app::User", "GetUserId", prim("int64_t"), None),
            method("app::User", "SetUserId", void(), Some(prim("int64_t"))),
            method("app::User", "GetAge", prim("int"), None),
            method("app::User", "SetAge", void(), Some(prim("short"))),
        ],
        vec![color_enum()],
    );
    let files = render_go_models(&model_config(), &ir, HeaderRole::Model).unwrap();
    assert_eq!(files.len(), 1);
    assert_eq!(files[0].filename, "user_wrapper.go");
    assert_eq!(
        files[0].contents,
        "package models\n\ntype Color int64\n\nconst (\n    Red Color = 1\n    Blue Color = 1\n)\n\ntype User struct {\n    UserID int64\n}\n\n"
    );
}

#[test]
fn facade_header_renders_no_model_file() {
    let ir = module(vec![], vec![color_enum()]);
    assert!(render_go_models(&model_config(), &ir, HeaderRole::Facade).unwrap().is_empty());
    assert!(render_go_structs(&model_config(), &ir, HeaderRole::Unclassified).unwrap().is_empty());
    assert!(render_go_models(&Config::default(), &ir, HeaderRole::Model).unwrap().is_empty());
}

#[test]
fn struct_file_for_a_model_header_may_be_empty() {
    let files = render_go_structs(&model_config(), &module(vec![], vec![color_enum()]), HeaderRole::Model).unwrap();
    assert_eq!(files.len(), 1);
    assert_eq!(files[0].contents, "package models\n\n");
}
