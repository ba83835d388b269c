use cgo_gen::codegen::ir_norm::{
    byte_array_length, fixed_array_elem_type, fixed_array_length, flatten_cpp_name,
    is_raw_unsafe_by_value_param_type, normalize_return_type_with_canonical, normalize_type,
    normalize_type_with_canonical, raw_safe_model_handle_name,
};
use cgo_gen::config::Config;
use cgo_gen::domain::kind::{IrFunctionKind, IrTypeKind};

#[test]
fn normalizes_struct_timeval_pointer_and_reference_as_external_structs() {
    let callback_names: Vec<String> = Vec::new();

    let pointer = normalize_type("struct timeval*", &callback_names).unwrap();
    assert_eq!(pointer.kind, IrTypeKind::ExternStructPointer);
    assert_eq!(pointer.c_type, "struct timeval*");
    assert_eq!(pointer.handle, None);

    let reference = normalize_type("struct timeval&", &callback_names).unwrap();
    assert_eq!(reference.kind, IrTypeKind::ExternStructReference);
    assert_eq!(reference.c_type, "struct timeval*");
    assert_eq!(reference.handle, None);
}

#[test]
fn normalizes_timeval_alias_from_canonical_type() {
    let callback_names: Vec<String> = Vec::new();
    let ty = normalize_type_with_canonical(
        &Config::default(),
        "timeval*",
        "struct timeval*",
        &callback_names,
    )
    .unwrap();

    assert_eq!(ty.kind, IrTypeKind::ExternStructPointer);
    assert_eq!(ty.cpp_type, "timeval*");
    assert_eq!(ty.c_type, "struct timeval*");
    assert_eq!(ty.handle, None);
}

#[test]
fn rejects_by_value_type_when_only_canonical_form_is_pointer() {
    let callback_names: Vec<String> = Vec::new();
    let result =
        normalize_type_with_canonical(&Config::default(), "MTime", "MTime*", &callback_names)
            .unwrap();

    assert_eq!(result.kind, IrTypeKind::ModelValue);
    assert_eq!(result.c_type, "MTimeHandle*");
}

#[test]
fn rejects_by_value_type_when_only_canonical_form_is_reference() {
    let callback_names: Vec<String> = Vec::new();
    let result = normalize_type_with_canonical(
        &Config::default(),
        "TD_IE_CALL",
        "TD_IE_CALL&",
        &callback_names,
    )
    .unwrap();

    assert_eq!(result.kind, IrTypeKind::ModelValue);
    assert_eq!(result.c_type, "TD_IE_CALLHandle*");
}

#[test]
fn by_value_model_params_are_supported() {
    let callback_names: Vec<String> = Vec::new();
    assert!(!is_raw_unsafe_by_value_param_type("MTime", "MTime", &callback_names));
}

#[test]
fn normalizes_model_pointer_returns_as_model_view() {
    let callback_names: Vec<String> = Vec::new();
    let abstract_types: Vec<String> = Vec::new();
    let ty = normalize_return_type_with_canonical(
        &Config::default(),
        "ThingModel*",
        "ThingModel*",
        &abstract_types,
        &callback_names,
    )
    .unwrap();

    assert_eq!(ty.kind, IrTypeKind::ModelView);
    assert_eq!(ty.c_type, "ThingModelHandle*");
}

#[test]
fn keeps_abstract_model_pointer_returns_as_model_pointer() {
    let callback_names: Vec<String> = Vec::new();
    let abstract_types = vec![String::from("DBHandler")];
    let ty = normalize_return_type_with_canonical(
        &Config::default(),
        "DBHandler*",
        "DBHandler*",
        &abstract_types,
        &callback_names,
    )
    .unwrap();

    assert_eq!(ty.kind, IrTypeKind::ModelPointer);
    assert_eq!(ty.c_type, "DBHandlerHandle*");
}

#[test]
fn normalizes_char_array_as_c_string() {
    let callback_names: Vec<String> = Vec::new();
    let ty = normalize_type("char[33]", &callback_names).unwrap();

    assert_eq!(ty.kind, IrTypeKind::CString);
    assert_eq!(ty.cpp_type, "char[33]");
    assert_eq!(ty.c_type, "const char*");
    assert_eq!(ty.handle, None);
}

#[test]
fn array_types_are_not_promoted_to_model_handles() {
    assert_eq!(raw_safe_model_handle_name("char[33]"), None);
    assert_eq!(raw_safe_model_handle_name("uint32[8]"), None);
}

#[test]
fn normalizes_unsigned_char_array_as_fixed_byte_array() {
    let callback_names: Vec<String> = Vec::new();
    let ty = normalize_type("unsigned char[16]", &callback_names).unwrap();
    assert_eq!(ty.kind, IrTypeKind::FixedByteArray);
    assert_eq!(ty.cpp_type, "unsigned char[16]");
    assert_eq!(ty.c_type, "uint8_t*");
    assert_eq!(ty.handle, None);
}

#[test]
fn normalizes_const_unsigned_char_array_as_fixed_byte_array() {
    let callback_names: Vec<String> = Vec::new();
    let ty = normalize_type("const unsigned char[32]", &callback_names).unwrap();
    assert_eq!(ty.kind, IrTypeKind::FixedByteArray);
    assert_eq!(ty.cpp_type, "const unsigned char[32]");
    assert_eq!(ty.c_type, "uint8_t*");
    assert_eq!(ty.handle, None);
}

#[test]
fn normalizes_uuid_t_alias_via_canonical_as_fixed_byte_array() {
    let callback_names: Vec<String> = Vec::new();
    let ty = normalize_type_with_canonical(
        &Config::default(),
        "uuid_t",
        "unsigned char[16]",
        &callback_names,
    )
    .unwrap();
    assert_eq!(ty.kind, IrTypeKind::FixedByteArray);
    assert_eq!(ty.cpp_type, "uuid_t");
    assert_eq!(ty.c_type, "uint8_t*");
}

#[test]
fn byte_array_length_extracts_size() {
    assert_eq!(byte_array_length("unsigned char[16]"), Some(16));
    assert_eq!(byte_array_length("const unsigned char[32]"), Some(32));
    assert_eq!(byte_array_length("unsigned char[1]"), Some(1));
    assert_eq!(byte_array_length("char[16]"), None);
    assert_eq!(byte_array_length("unsigned char*"), None);
    assert_eq!(byte_array_length("unsigned char"), None);
}

#[test]
fn normalizes_int_array_as_fixed_array() {
    let callback_names: Vec<String> = Vec::new();
    let ty = normalize_type("int[4]", &callback_names).unwrap();
    assert_eq!(ty.kind, IrTypeKind::FixedArray);
    assert_eq!(ty.cpp_type, "int[4]");
    assert_eq!(ty.c_type, "int*");
    assert_eq!(ty.handle, None);
}

#[test]
fn normalizes_bool_array_as_fixed_array() {
    let callback_names: Vec<String> = Vec::new();
    let ty = normalize_type("bool[8]", &callback_names).unwrap();
    assert_eq!(ty.kind, IrTypeKind::FixedArray);
    assert_eq!(ty.cpp_type, "bool[8]");
    assert_eq!(ty.c_type, "bool*");
    assert_eq!(ty.handle, None);
}

#[test]
fn normalizes_float_array_as_fixed_array() {
    let callback_names: Vec<String> = Vec::new();
    let ty = normalize_type("float[3]", &callback_names).unwrap();
    assert_eq!(ty.kind, IrTypeKind::FixedArray);
    assert_eq!(ty.cpp_type, "float[3]");
    assert_eq!(ty.c_type, "float*");
    assert_eq!(ty.handle, None);
}

#[test]
fn normalizes_uint32_t_array_as_fixed_array() {
    let callback_names: Vec<String> = Vec::new();
    let ty = normalize_type("uint32_t[2]", &callback_names).unwrap();
    assert_eq!(ty.kind, IrTypeKind::FixedArray);
    assert_eq!(ty.cpp_type, "uint32_t[2]");
    assert_eq!(ty.c_type, "uint32_t*");
    assert_eq!(ty.handle, None);
}

#[test]
fn normalizes_model_array_as_fixed_model_array() {
    let callback_names: Vec<String> = Vec::new();
    let ty = normalize_type("FooModel[3]", &callback_names).unwrap();
    assert_eq!(ty.kind, IrTypeKind::FixedModelArray);
    assert_eq!(ty.cpp_type, "FooModel[3]");
    assert_eq!(ty.c_type, "FooModelHandle**");
    assert_eq!(ty.handle, Some("FooModelHandle".to_string()));
}

#[test]
fn fixed_array_length_extracts_size() {
    assert_eq!(fixed_array_length("int[4]"), Some(4));
    assert_eq!(fixed_array_length("bool[8]"), Some(8));
    assert_eq!(fixed_array_length("float[3]"), Some(3));
    assert_eq!(fixed_array_length("FooModel[3]"), Some(3));
    assert_eq!(fixed_array_length("int"), None);
    assert_eq!(fixed_array_length("int*"), None);
}

#[test]
fn fixed_array_elem_type_extracts_elem() {
    assert_eq!(fixed_array_elem_type("int[4]").as_deref(), Some("int"));
    assert_eq!(fixed_array_elem_type("bool[8]").as_deref(), Some("bool"));
    assert_eq!(fixed_array_elem_type("float[3]").as_deref(), Some("float"));
    assert_eq!(fixed_array_elem_type("int"), None);
}

#[test]
fn flatten_cpp_name_joins_namespaces() {
    let ns = vec!["acme".to_string(), "net".to_string()];
    assert_eq!(flatten_cpp_name(&ns, "Client"), "acmenetClient");
    assert_eq!(flatten_cpp_name(&[], "Client"), "Client");
}

#[test]
fn unsupported_type_is_an_error_with_its_spelling() {
    let callback_names: Vec<String> = Vec::new();
    let err = normalize_type("std::vector<int>", &callback_names).unwrap_err();
    assert_eq!(err, "unsupported C++ type in v1: std::vector<int>");
}

#[test]
fn kinds_are_spelled_in_snake_case() {
    assert_eq!(IrTypeKind::ModelValue.as_str(), "model_value");
    assert_eq!(IrTypeKind::ExternStructPointer.as_str(), "extern_struct_pointer");
    assert_eq!(IrFunctionKind::Constructor.as_str(), "constructor");
}

#[test]
fn array_spellings_read_back() {
    assert_eq!(fixed_array_elem_type("Foo[12]").as_deref(), Some("Foo"));
    assert_eq!(fixed_array_length("Foo[12]"), Some(12));
    assert_eq!(fixed_array_elem_type("const Foo[2]").as_deref(), Some("Foo"));
    assert_eq!(fixed_array_length("int[0]"), None);
}
