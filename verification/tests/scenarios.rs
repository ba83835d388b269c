use cgo_gen::codegen::ir_norm::normalize;
use cgo_gen::config::Config;
use cgo_gen::facade::render_go_facade;
use cgo_gen::generator::{render_build_flags, render_go_structs, render_header, render_source};
use cgo_gen::parser::{CppClass, CppConstructor, CppField, CppEnum, CppEnumVariant, CppFunction, CppMethod, CppParam, ParsedApi};

fn param(name: &str, ty: &str) -> CppParam {
    CppParam {
        name: name.to_string(),
        ty: ty.to_string(),
        canonical_ty: ty.to_string(),
        is_function_pointer: false,
        callback_typedef: None,
    }
}

fn function(namespace: &[&str], name: &str, ret: &str, params: Vec<CppParam>) -> CppFunction {
    CppFunction {
        source_header: "include/Api.hpp".to_string(),
        namespace: namespace.iter().map(|s| s.to_string()).collect(),
        name: name.to_string(),
        return_type: ret.to_string(),
        return_canonical_type: ret.to_string(),
        return_is_function_pointer: false,
        params,
    }
}

fn api(functions: Vec<CppFunction>) -> ParsedApi {
    ParsedApi {
        headers: vec!["include/Api.hpp".to_string()],
        functions,
        classes: vec![],
        enums: vec![],
        callbacks: vec![],
    }
}

fn config() -> Config {
    let mut config = Config::default();
    config.input.headers = vec!["include/Api.hpp".to_string()];
    config.output.dir = "out".to_string();
    config
}

#[test]
fn facade_for_a_simple_free_function() {
    let config = config();
    let ir = normalize(
        &config,
        &api(vec![function(&[], "add", "int", vec![param("lhs", "int"), param("rhs", "int")])]),
    )
    .unwrap();
    let files = render_go_facade(&config, &ir).unwrap();
    let go = &files[0].contents;
    assert!(go.contains("import \"C\""));
    assert!(go.contains("#include \"wrapper.h\""));
    assert!(go.contains("func Add(lhs int, rhs int) int {"));
    assert!(go.contains("C.cgowrap_add(C.int(lhs), C.int(rhs))"));
}

#[test]
fn facade_for_bool_and_string_returns() {
    let config = config();
    let ir = normalize(
        &config,
        &api(vec![
            function(&[], "is_ready", "bool", vec![]),
            function(&[], "version", "std::string", vec![]),
            function(&[], "banner", "const char*", vec![]),
        ]),
    )
    .unwrap();
    let files = render_go_facade(&config, &ir).unwrap();
    let go = &files[0].contents;
    assert!(go.contains("import \"errors\""));
    assert!(go.contains("func IsReady() bool {"));
    assert!(go.contains("return bool(C.cgowrap_is_ready())"));
    assert!(go.contains("func Version() (string, error) {"));
    assert!(go.contains("raw := C.cgowrap_version()"));
    assert!(go.contains("defer C.cgowrap_string_free(raw)"));
    assert!(go.contains("return C.GoString(raw), nil"));
    assert!(go.contains("func Banner() (string, error) {"));
    assert!(go.contains("raw := C.cgowrap_banner()"));
    let banner_section = go.split("func Banner() (string, error) {").nth(1).unwrap();
    let banner_body = banner_section.split("}\n").next().unwrap();
    assert!(!banner_body.contains("string_free"));

    let header = render_header(&config, &ir);
    assert!(header.contains("void cgowrap_string_free(char* value);"));
    let source = render_source(&config, &ir);
    assert!(source.contains("#include \"Api.hpp\""));
}

#[test]
fn namespaced_functions_that_share_a_go_name_are_rejected() {
    let config = config();
    let ir = normalize(
        &config,
        &api(vec![function(&["alpha"], "init", "int", vec![]), function(&["beta"], "init", "int", vec![])]),
    )
    .unwrap();
    let names: Vec<&str> = ir.functions.iter().map(|f| f.name.as_str()).collect();
    assert_eq!(names, vec!["cgowrap_alpha_init", "cgowrap_beta_init"]);
    let error = render_go_facade(&config, &ir).unwrap_err();
    assert!(error.contains("facade export collision"));
}

#[test]
fn build_flags_keep_only_exportable_raw_flags() {
    let mut config = config();
    config.output.dir = "/tmp/project/out".to_string();
    let raw: Vec<String> = ["-I${SDK_INCLUDE}", "-DMODE=1", "-std=c++20", "-Wall", "-Winvalid-offsetof"]
        .iter()
        .map(|s| s.to_string())
        .collect();
    let flags = render_build_flags(&config, &raw);
    assert!(flags.contains("package out"));
    assert!(flags.contains("#cgo CFLAGS: -I${SRCDIR}"));
    assert!(flags.contains("#cgo CXXFLAGS: -I${SRCDIR} -I${SDK_INCLUDE} -DMODE=1 -std=c++20"));
    assert!(!flags.contains("-Winvalid-offsetof"));
    assert!(!flags.contains("-Wall"));
}

fn canonical_param(name: &str, ty: &str, canonical: &str) -> CppParam {
    CppParam {
        name: name.to_string(),
        ty: ty.to_string(),
        canonical_ty: canonical.to_string(),
        is_function_pointer: false,
        callback_typedef: None,
    }
}

#[test]
fn const_char_return_keeps_its_spelling_with_a_plain_c_type() {
    let class = CppClass {
        source_header: "include/Api.hpp".to_string(),
        namespace: vec![],
        name: "Api".to_string(),
        methods: vec![CppMethod {
            name: "GetMarker".to_string(),
            return_type: "const char".to_string(),
            return_canonical_type: "const char".to_string(),
            return_is_function_pointer: false,
            params: vec![],
            is_const: true,
        }],
        constructors: vec![],
        fields: vec![],
        has_destructor: false,
        has_declared_constructor: false,
        is_abstract: false,
        is_struct: false,
    };
    let mut parsed = api(vec![]);
    parsed.classes = vec![class];
    let ir = normalize(&config(), &parsed).unwrap();
    let marker = ir.functions.iter().find(|f| f.cpp_name == "Api::GetMarker").unwrap();
    assert_eq!(marker.returns.cpp_type, "const char");
    assert_eq!(marker.returns.c_type, "char");
}

#[test]
fn typedef_anonymous_enum_renders_with_alias_name() {
    let mut parsed = api(vec![]);
    parsed.enums = vec![CppEnum {
        source_header: "include/Api.hpp".to_string(),
        namespace: vec![],
        name: "FooState".to_string(),
        variants: vec![
            CppEnumVariant { name: "FooDisabled".to_string(), value: Some("0".to_string()) },
            CppEnumVariant { name: "FooEnabled".to_string(), value: Some("1".to_string()) },
        ],
    }];
    let config = config();
    let ir = normalize(&config, &parsed).unwrap();
    let header = render_header(&config, &ir);
    let go = render_go_structs(&config, &ir).unwrap();
    assert!(!header.contains("FooState"));
    assert!(go[0].contents.contains("type FooState int64"));
    assert!(go[0].contents.contains("FooDisabled FooState = 0"));
    assert!(go[0].contents.contains("FooEnabled FooState = 1"));
}

#[test]
fn primitive_alias_pointers_and_references_use_fixed_width_c_types() {
    let config = config();
    let parsed = api(vec![
        function(&[], "TakeAliasPtr", "bool", vec![canonical_param("value", "int32*", "int *")]),
        function(&[], "TakeAliasRef", "bool", vec![canonical_param("value", "uint32&", "unsigned int &")]),
    ]);
    let ir = normalize(&config, &parsed).unwrap();
    let header = render_header(&config, &ir);
    let ptr = ir.functions.iter().find(|f| f.cpp_name == "TakeAliasPtr").unwrap();
    assert_eq!(ptr.params[0].ty.cpp_type, "int32*");
    assert_eq!(ptr.params[0].ty.c_type, "int32_t*");
    let r = ir.functions.iter().find(|f| f.cpp_name == "TakeAliasRef").unwrap();
    assert_eq!(r.params[0].ty.cpp_type, "uint32&");
    assert_eq!(r.params[0].ty.c_type, "uint32_t*");
    assert!(header.contains("bool cgowrap_TakeAliasPtr(int32_t* value);"));
    assert!(header.contains("bool cgowrap_TakeAliasRef(uint32_t* value);"));
    assert!(!header.contains("int32* value"));
}

fn fn_pointer_param(name: &str) -> CppParam {
    CppParam {
        name: name.to_string(),
        ty: "void (*)(int)".to_string(),
        canonical_ty: "void (*)(int)".to_string(),
        is_function_pointer: true,
        callback_typedef: None,
    }
}

fn cpp_method(name: &str, ret: &str, params: Vec<CppParam>, is_const: bool) -> CppMethod {
    CppMethod {
        name: name.to_string(),
        return_type: ret.to_string(),
        return_canonical_type: ret.to_string(),
        return_is_function_pointer: false,
        params,
        is_const,
    }
}

fn class(namespace: &[&str], name: &str, methods: Vec<CppMethod>, constructors: Vec<CppConstructor>) -> CppClass {
    CppClass {
        source_header: "include/Api.hpp".to_string(),
        namespace: namespace.iter().map(|s| s.to_string()).collect(),
        name: name.to_string(),
        methods,
        has_declared_constructor: !constructors.is_empty(),
        constructors,
        fields: vec![],
        has_destructor: false,
        is_abstract: false,
        is_struct: false,
    }
}

#[test]
fn declarations_with_function_pointers_are_skipped_and_recorded() {
    let mut parsed = api(vec![
        function(&[], "add", "int", vec![param("lhs", "int"), param("rhs", "int")]),
        function(&[], "set_callback", "void", vec![fn_pointer_param("cb")]),
    ]);
    parsed.classes = vec![class(
        &[],
        "Api",
        vec![
            cpp_method("GetValue", "int", vec![], true),
            cpp_method("SetCallback", "void", vec![fn_pointer_param("cb")], false),
        ],
        vec![],
    )];
    let ir = normalize(&config(), &parsed).unwrap();
    assert!(ir.functions.iter().any(|f| f.name == "cgowrap_add"));
    assert!(ir.functions.iter().any(|f| f.name == "cgowrap_Api_GetValue"));
    assert!(!ir.functions.iter().any(|f| f.name == "cgowrap_set_callback"));
    assert!(!ir.functions.iter().any(|f| f.name == "cgowrap_Api_SetCallback"));
    let skipped = &ir.support.skipped_declarations;
    assert_eq!(skipped.len(), 2);
    assert!(skipped.iter().any(|s| s.cpp_name == "set_callback" && s.reason.contains("function pointer")));
    assert!(skipped.iter().any(|s| s.cpp_name == "Api::SetCallback" && s.reason.contains("function pointer")));
    assert_eq!(ir.support.notes.len(), 3);
}

#[test]
fn operator_declarations_are_skipped_and_recorded() {
    let value_ref = || param("rhs", "const Value&");
    let mut parsed = api(vec![
        function(&[], "operator-", "Value", vec![param("lhs", "const Value&"), value_ref()]),
        function(&[], "plain_add", "int", vec![param("lhs", "int"), param("rhs", "int")]),
    ]);
    parsed.classes = vec![class(
        &[],
        "Value",
        vec![
            cpp_method("operator+", "Value", vec![value_ref()], true),
            cpp_method("operator==", "bool", vec![value_ref()], true),
            cpp_method("GetCode", "int", vec![], true),
        ],
        vec![],
    )];
    let ir = normalize(&config(), &parsed).unwrap();
    assert!(ir.functions.iter().any(|f| f.name == "cgowrap_plain_add"));
    assert!(ir.functions.iter().any(|f| f.name == "cgowrap_Value_GetCode"));
    assert!(!ir.functions.iter().any(|f| f.cpp_name.contains("operator")));
    let skipped = &ir.support.skipped_declarations;
    assert!(skipped.iter().any(|s| s.cpp_name == "Value::operator+" && s.reason.contains("operator declarations")));
    assert!(skipped.iter().any(|s| s.cpp_name == "Value::operator==" && s.reason.contains("operator declarations")));
    assert!(skipped.iter().any(|s| s.cpp_name == "operator-" && s.reason.contains("operator declarations")));
}

#[test]
fn overloaded_constructors_get_signature_suffixes() {
    let mut parsed = api(vec![]);
    parsed.classes = vec![class(
        &[],
        "Widget",
        vec![],
        vec![CppConstructor { params: vec![] }, CppConstructor { params: vec![param("value", "int")] }],
    )];
    let ir = normalize(&config(), &parsed).unwrap();
    assert!(ir.functions.iter().any(|f| f.name == "cgowrap_Widget_new__void"));
    assert!(ir.functions.iter().any(|f| f.name == "cgowrap_Widget_new__int"));
}

#[test]
fn overloaded_functions_and_methods_get_signature_suffixes() {
    let mut config = config();
    config.naming.style = "snake_case".to_string();
    let mut parsed = api(vec![
        function(&["clash"], "add", "int", vec![param("lhs", "int"), param("rhs", "int")]),
        function(&["clash"], "add", "double", vec![param("lhs", "double"), param("rhs", "double")]),
    ]);
    parsed.classes = vec![class(
        &["clash"],
        "Widget",
        vec![
            cpp_method("set", "int", vec![param("value", "int")], false),
            cpp_method("set", "int", vec![param("value", "double")], false),
        ],
        vec![],
    )];
    let ir = normalize(&config, &parsed).unwrap();
    let names: Vec<&str> = ir.functions.iter().map(|f| f.name.as_str()).collect();
    assert!(names.contains(&"cgowrap_clash_add__int_int"));
    assert!(names.contains(&"cgowrap_clash_add__double_double"));
    assert!(names.contains(&"cgowrap_clash_widget_set__int_mut"));
    assert!(names.contains(&"cgowrap_clash_widget_set__double_mut"));
    let header = render_header(&config, &ir);
    let source = render_source(&config, &ir);
    assert!(header.contains("int cgowrap_clash_add__int_int(int lhs, int rhs);"));
    assert!(header.contains("double cgowrap_clash_add__double_double(double lhs, double rhs);"));
    assert!(header.contains("int cgowrap_clash_widget_set__int_mut(clashWidgetHandle* self, int value);"));
    assert!(header.contains("int cgowrap_clash_widget_set__double_mut(clashWidgetHandle* self, double value);"));
    assert!(source.contains("int cgowrap_clash_add__int_int(int lhs, int rhs)"));
    assert!(source.contains("cgowrap_clash_widget_set__double_mut"));
}

fn field(name: &str, ty: &str, canonical: &str) -> CppField {
    CppField {
        name: name.to_string(),
        ty: ty.to_string(),
        canonical_ty: canonical.to_string(),
        is_function_pointer: false,
    }
}

#[test]
fn struct_fields_get_synthetic_accessors() {
    let mut counter = class(&[], "Counter", vec![], vec![]);
    counter.is_struct = true;
    counter.fields = vec![
        field("value", "int", "int"),
        field("total_count", "uint32_t", "unsigned int"),
        field("read_only", "const int", "const int"),
    ];
    let mut parsed = api(vec![]);
    parsed.classes = vec![counter];
    let config = config();
    let ir = normalize(&config, &parsed).unwrap();
    let header = render_header(&config, &ir);
    let source = render_source(&config, &ir);
    assert!(header.contains("int cgowrap_Counter_GetValue(const CounterHandle* self);"));
    assert!(header.contains("void cgowrap_Counter_SetValue(CounterHandle* self, int value);"));
    assert!(header.contains("int cgowrap_Counter_GetReadOnly(const CounterHandle* self);"));
    assert!(!header.contains("cgowrap_Counter_SetReadOnly"));
    assert!(source.contains("return reinterpret_cast<const Counter*>(self)->value;"));
    assert!(source.contains("reinterpret_cast<Counter*>(self)->value = value;"));
    assert!(source.contains("reinterpret_cast<Counter*>(self)->total_count = value;"));
    let go = render_go_structs(&config, &ir).unwrap();
    assert_eq!(go.len(), 1);
    assert!(go[0].contents.contains("type Counter struct {"));
    assert!(go[0].contents.contains("func (c *Counter) GetValue() int {"));
    assert!(go[0].contents.contains("func (c *Counter) SetValue(value int) {"));
    assert!(!go[0].contents.contains("SetReadOnly("));
}

#[test]
fn model_value_return_is_an_owned_handle_copy() {
    let mtime = class(&[], "MTime", vec![cpp_method("GetValue", "int", vec![], true)], vec![]);
    let api_class = class(&[], "Api", vec![cpp_method("GetCreateTime", "MTime", vec![], true)], vec![]);
    let mut parsed = api(vec![]);
    parsed.classes = vec![mtime, api_class];
    let config = config();
    let ir = normalize(&config, &parsed).unwrap();
    let getter = ir.functions.iter().find(|f| f.cpp_name == "Api::GetCreateTime").unwrap();
    assert_eq!(getter.returns.kind, cgo_gen::domain::kind::IrTypeKind::ModelValue);
    assert_eq!(getter.returns.c_type, "MTimeHandle*");
    let header = render_header(&config, &ir);
    let source = render_source(&config, &ir);
    assert!(header.contains("MTimeHandle* cgowrap_Api_GetCreateTime(const ApiHandle* self);"));
    assert!(source.contains(
        "return reinterpret_cast<MTimeHandle*>(new MTime(reinterpret_cast<const Api*>(self)->GetCreateTime()));"
    ));
}

#[test]
fn methods_that_share_a_go_name_are_rejected() {
    let mut parsed = api(vec![]);
    parsed.classes = vec![class(
        &[],
        "Api",
        vec![cpp_method("get_value", "int", vec![], true), cpp_method("GetValue", "int", vec![], true)],
        vec![],
    )];
    let config = config();
    let ir = normalize(&config, &parsed).unwrap();
    assert_eq!(
        render_go_facade(&config, &ir).unwrap_err(),
        "facade export collision detected: Go facade method `Api.GetValue` collides for: Api::get_value, Api::GetValue"
    );
}

#[test]
fn every_symbol_carries_the_prefix_and_is_unique() {
    let mut config = config();
    config.naming.prefix = "acme".to_string();
    let mut parsed = api(vec![
        function(&[], "add", "int", vec![param("lhs", "int")]),
        function(&[], "add", "int", vec![param("lhs", "double")]),
    ]);
    parsed.classes = vec![class(&["ns"], "Thing", vec![cpp_method("Get", "int", vec![], true)], vec![])];
    let ir = normalize(&config, &parsed).unwrap();
    let names: Vec<&str> = ir.functions.iter().map(|f| f.name.as_str()).collect();
    assert_eq!(
        names,
        vec!["acme_ns_Thing_new", "acme_ns_Thing_delete", "acme_ns_Thing_Get", "acme_add__int", "acme_add__double"]
    );
    for (i, a) in names.iter().enumerate() {
        assert!(a.starts_with("acme_"));
        for b in &names[i + 1..] {
            assert_ne!(a, b);
        }
    }
}

#[test]
fn fails_when_declared_constructors_are_filtered_out() {
    let mut gadget = class(&["safe"], "Gadget", vec![], vec![]);
    gadget.has_declared_constructor = true;
    let mut parsed = api(vec![]);
    parsed.classes = vec![gadget];
    let error = normalize(&config(), &parsed).unwrap_err();
    assert!(error.contains("safe::Gadget"));
    assert!(error.contains("refusing to synthesize a default constructor"));
}

fn fixture_api() -> ParsedApi {
    let mut bar = class(
        &["foo"],
        "Bar",
        vec![cpp_method("name", "std::string", vec![], true)],
        vec![CppConstructor { params: vec![param("value", "int")] }],
    );
    bar.has_destructor = true;
    let mut parsed = api(vec![function(&["foo"], "add", "int", vec![param("lhs", "int"), param("rhs", "int")])]);
    parsed.classes = vec![bar];
    parsed
}

fn fixture_config() -> Config {
    let mut config = config();
    config.naming.style = "snake_case".to_string();
    config
}

#[test]
fn renders_header_and_source_from_fixture() {
    let config = fixture_config();
    let ir = normalize(&config, &fixture_api()).unwrap();
    let header = render_header(&config, &ir);
    assert!(header.contains("typedef struct fooBarHandle fooBarHandle;"));
    assert!(header.contains("fooBarHandle* cgowrap_foo_bar_new(int value);"));
    assert!(header.contains("char* cgowrap_foo_bar_name(const fooBarHandle* self);"));
    let source = render_source(&config, &ir);
    assert!(source.contains(&format!("#include \"{}\"", config.output.header)));
    assert!(source.contains("return reinterpret_cast<fooBarHandle*>(new foo::Bar(value));"));
    assert!(source.contains("delete reinterpret_cast<foo::Bar*>(self);"));
}

#[test]
fn renders_unified_go_wrapper() {
    let config = fixture_config();
    let ir = normalize(&config, &fixture_api()).unwrap();
    let go = render_go_structs(&config, &ir).unwrap();
    assert_eq!(go.len(), 1);
    assert!(go[0].contents.contains("type Bar struct {"));
    assert!(go[0].contents.contains("func Add(lhs int, rhs int) int {"));
}

#[test]
fn struct_fixed_model_array_fields_render_element_type_in_source() {
    let mut item = class(&[], "Item", vec![], vec![]);
    item.is_struct = true;
    item.fields = vec![field("value", "int", "int")];
    let mut holder = class(&[], "Holder", vec![], vec![]);
    holder.is_struct = true;
    holder.fields = vec![field("items", "Item[3]", "Item[3]")];
    let mut parsed = api(vec![]);
    parsed.classes = vec![item, holder];
    let config = config();
    let ir = normalize(&config, &parsed).unwrap();
    let header = render_header(&config, &ir);
    let source = render_source(&config, &ir);
    assert!(header.contains("ItemHandle** cgowrap_Holder_GetItems(const HolderHandle* self);"));
    assert!(header.contains("void cgowrap_Holder_SetItems(HolderHandle* self, ItemHandle** value);"));
    assert!(source.contains(
        "_r[_i] = reinterpret_cast<ItemHandle*>(new Item(reinterpret_cast<const Holder*>(self)->items[_i]));"
    ));
    assert!(source.contains(
        "reinterpret_cast<Holder*>(self)->items[_i] = *reinterpret_cast<Item*>(value[_i]);"
    ));
    assert!(!source.contains("new Item[3](reinterpret_cast<const Holder*>(self)->items[_i])"));
    assert!(!source.contains("reinterpret_cast<Item[3]*>(value[_i])"));
}
