use cgo_gen::codegen::ir_norm::{IrFunction, IrParam, IrType};
use cgo_gen::config::{Config, KnownModelField, KnownModelProjection};
use cgo_gen::domain::kind::{IrFunctionKind, IrTypeKind};
use cgo_gen::facade::{go_overload_token, go_param_type, method_supported};

fn test_config_with_known_model() -> Config {
    Config {
        known_model_projections: vec![KnownModelProjection {
            cpp_type: "ThingModel".to_string(),
            handle_name: "ThingModelHandle".to_string(),
            go_name: "ThingModel".to_string(),
            output_header: "raw/thing_model_wrapper.h".to_string(),
            constructor_symbol: "cgowrap_ThingModel_new".to_string(),
            destructor_symbol: Some("cgowrap_ThingModel_delete".to_string()),
            fields: vec![KnownModelField {
                go_name: "Value".to_string(),
                go_type: "int".to_string(),
                getter_symbol: "cgowrap_ThingModel_GetValue".to_string(),
                setter_symbol: "cgowrap_ThingModel_SetValue".to_string(),
                return_kind: "primitive".to_string(),
            }],
        }],
        ..Config::default()
    }
}

fn primitive_type(cpp_type: &str, c_type: &str) -> IrType {
    IrType {
        kind: IrTypeKind::Primitive,
        cpp_type: cpp_type.to_string(),
        c_type: c_type.to_string(),
        handle: None,
    }
}

fn model_type(kind: IrTypeKind, cpp_type: &str) -> IrType {
    IrType {
        kind,
        cpp_type: cpp_type.to_string(),
        c_type: format!("{cpp_type}Handle*"),
        handle: Some(format!("{cpp_type}Handle")),
    }
}

fn reference_type(cpp_type: &str, c_type: &str) -> IrType {
    IrType {
        kind: IrTypeKind::Reference,
        cpp_type: cpp_type.to_string(),
        c_type: c_type.to_string(),
        handle: None,
    }
}

fn api_self_param() -> IrParam {
    IrParam {
        name: "self".to_string(),
        ty: IrType {
            kind: IrTypeKind::Opaque,
            cpp_type: "Api".to_string(),
            c_type: "ApiHandle*".to_string(),
            handle: Some("ApiHandle".to_string()),
        },
    }
}

#[test]
fn method_supports_known_model_reference_params() {
    let config = test_config_with_known_model();
    let function = IrFunction {
        name: "cgowrap_Api_GetThing".to_string(),
        kind: IrFunctionKind::Method,
        cpp_name: "Api::GetThing".to_string(),
        method_of: Some("Api".to_string()),
        owner_cpp_type: Some("Api".to_string()),
        is_const: Some(false),
        field_accessor: None,
        returns: primitive_type("bool", "bool"),
        params: vec![
            api_self_param(),
            IrParam {
                name: "out".to_string(),
                ty: model_type(IrTypeKind::ModelReference, "ThingModel"),
            },
            IrParam {
                name: "id".to_string(),
                ty: primitive_type("int", "int"),
            },
        ],
    };

    assert!(method_supported(&config, &function));
}

#[test]
fn method_supports_unknown_model_params_as_handles() {
    let config = test_config_with_known_model();
    let function = IrFunction {
        name: "cgowrap_Api_GetThing".to_string(),
        kind: IrFunctionKind::Method,
        cpp_name: "Api::GetThing".to_string(),
        method_of: Some("Api".to_string()),
        owner_cpp_type: Some("Api".to_string()),
        is_const: Some(false),
        field_accessor: None,
        returns: primitive_type("bool", "bool"),
        params: vec![
            api_self_param(),
            IrParam {
                name: "value".to_string(),
                ty: model_type(IrTypeKind::ModelReference, "UnknownThing"),
            },
        ],
    };

    assert!(method_supported(&config, &function));
}

#[test]
fn method_supports_primitive_reference_and_known_model_params() {
    let config = test_config_with_known_model();
    let function = IrFunction {
        name: "cgowrap_Api_NextThing".to_string(),
        kind: IrFunctionKind::Method,
        cpp_name: "Api::NextThing".to_string(),
        method_of: Some("Api".to_string()),
        owner_cpp_type: Some("Api".to_string()),
        is_const: Some(false),
        field_accessor: None,
        returns: primitive_type("bool", "bool"),
        params: vec![
            api_self_param(),
            IrParam {
                name: "pos".to_string(),
                ty: reference_type("int32&", "int32_t*"),
            },
            IrParam {
                name: "out".to_string(),
                ty: model_type(IrTypeKind::ModelReference, "ThingModel"),
            },
        ],
    };

    assert!(method_supported(&config, &function));
    assert_eq!(
        go_param_type(&config, &function.params[1].ty),
        Some("*int32".to_string())
    );
}

#[test]
fn overload_tokens_distinguish_model_ref_and_ptr() {
    assert_eq!(
        go_overload_token(&model_type(IrTypeKind::ModelReference, "ThingModel")),
        "ThingModelRef"
    );
    assert_eq!(
        go_overload_token(&model_type(IrTypeKind::ModelPointer, "ThingModel")),
        "ThingModelPtr"
    );
    assert_eq!(
        go_overload_token(&IrType {
            kind: IrTypeKind::ModelPointer,
            cpp_type: "ThingModel**".to_string(),
            c_type: "ThingModelHandle**".to_string(),
            handle: Some("ThingModelHandle".to_string()),
        }),
        "ThingModelPtrPtr"
    );
}

#[test]
fn overload_tokens_preserve_typedef_identity_for_alias_backed_scalars() {
    assert_eq!(
        go_overload_token(&primitive_type("time_t", "int64_t")),
        "TimeT"
    );
    assert_eq!(
        go_overload_token(&primitive_type("uint32", "uint32_t")),
        "Uint32"
    );
    assert_eq!(
        go_overload_token(&IrType {
            kind: IrTypeKind::CString,
            cpp_type: "NPCSTR".to_string(),
            c_type: "const char*".to_string(),
            handle: None,
        }),
        "NPCSTR"
    );
    assert_eq!(
        go_overload_token(&IrType {
            kind: IrTypeKind::String,
            cpp_type: "NPSTR".to_string(),
            c_type: "char*".to_string(),
            handle: None,
        }),
        "NPSTR"
    );
}
