//! The raw C ABI wrapper: the C header that declares the wrappers and the
//! C++ source that implements them over the parsed declarations.
use vstd::prelude::*;
use crate::codegen::ir_norm::{
    base_model_cpp_type, fixed_array_elem_type, fixed_array_length, spec_parse_array_type, function_views, is_supported_primitive, param_views,
    spec_base_model_cpp_type, spec_is_supported_primitive, IrCallback, IrFunction, IrFunctionV,
    IrModule, IrParam, IrParamV, IrType, IrTypeV,
};
use crate::config::Config;
use crate::domain::kind::{FieldAccessKind, IrFunctionKind, IrTypeKind};
use crate::text;
use crate::text::{concat2, concat3, concat4, concat5, opt_view, owned, str_eq};

verus! {

// ---------------------------------------------------------------------------
// Arguments
// ---------------------------------------------------------------------------

/// The C++ type that a reference or pointer to a primitive typedef is cast
/// to, where its C spelling differs.
pub open spec fn spec_primitive_alias_cast_target(t: IrTypeV) -> Option<Seq<char>> {
    if t.kind != IrTypeKind::Reference && t.kind != IrTypeKind::Pointer {
        None
    } else {
        let cpp_base = if t.kind == IrTypeKind::Reference {
            text::trim(text::trim_end_char(t.cpp_type, '&'))
        } else {
            text::trim(text::trim_end_char(t.cpp_type, '*'))
        };
        let c_base = text::trim(text::trim_end_char(t.c_type, '*'));
        if spec_is_supported_primitive(cpp_base) && cpp_base != c_base {
            Some(cpp_base)
        } else {
            None
        }
    }
}

pub fn primitive_alias_cast_target(ty: &IrType) -> (r: Option<String>)
    ensures
        opt_view(r) == spec_primitive_alias_cast_target(ty@),
{
    if ty.kind != IrTypeKind::Reference && ty.kind != IrTypeKind::Pointer {
        return None;
    }
    let stripped = if ty.kind == IrTypeKind::Reference {
        text::trim_end_char_str(ty.cpp_type.as_str(), '&')
    } else {
        text::trim_end_char_str(ty.cpp_type.as_str(), '*')
    };
    let cpp_base = text::trim_str(stripped.as_str());
    let c_stripped = text::trim_end_char_str(ty.c_type.as_str(), '*');
    let c_base = text::trim_str(c_stripped.as_str());
    if is_supported_primitive(cpp_base.as_str()) && !str_eq(cpp_base.as_str(), c_base.as_str()) {
        Some(cpp_base)
    } else {
        None
    }
}

/// How a C argument is passed on to the C++ callee.
pub open spec fn spec_render_cpp_arg(t: IrTypeV, name: Seq<char>) -> Seq<char> {
    if t.kind == IrTypeKind::Primitive && t.cpp_type != t.c_type {
        "static_cast<"@ + t.cpp_type + ">("@ + name + ")"@
    } else if t.kind == IrTypeKind::String {
        "std::string("@ + name + " != nullptr ? "@ + name + " : \"\")"@
    } else if t.kind == IrTypeKind::Reference {
        match spec_primitive_alias_cast_target(t) {
            Some(c) => "*reinterpret_cast<"@ + c + "*>("@ + name + ")"@,
            None => "*"@ + name,
        }
    } else if t.kind == IrTypeKind::Pointer {
        match spec_primitive_alias_cast_target(t) {
            Some(c) => "reinterpret_cast<"@ + c + "*>("@ + name + ")"@,
            None => name,
        }
    } else if t.kind == IrTypeKind::ExternStructReference {
        "*"@ + name
    } else if t.kind == IrTypeKind::ModelReference {
        "*reinterpret_cast<"@ + spec_base_model_cpp_type(t.cpp_type) + "*>("@ + name + ")"@
    } else if t.kind == IrTypeKind::ModelPointer {
        "reinterpret_cast<"@ + spec_base_model_cpp_type(t.cpp_type) + "*>("@ + name + ")"@
    } else {
        name
    }
}

pub fn render_cpp_arg(ty: &IrType, name: &str) -> (r: String)
    ensures
        r@ == spec_render_cpp_arg(ty@, name@),
{
    if ty.kind == IrTypeKind::Primitive && !str_eq(ty.cpp_type.as_str(), ty.c_type.as_str()) {
        text::concat5("static_cast<", ty.cpp_type.as_str(), ">(", name, ")")
    } else if ty.kind == IrTypeKind::String {
        text::concat5("std::string(", name, " != nullptr ? ", name, " : \"\")")
    } else if ty.kind == IrTypeKind::Reference {
        match primitive_alias_cast_target(ty) {
            Some(c) => text::concat5("*reinterpret_cast<", c.as_str(), "*>(", name, ")"),
            None => concat2("*", name),
        }
    } else if ty.kind == IrTypeKind::Pointer {
        match primitive_alias_cast_target(ty) {
            Some(c) => text::concat5("reinterpret_cast<", c.as_str(), "*>(", name, ")"),
            None => owned(name),
        }
    } else if ty.kind == IrTypeKind::ExternStructReference {
        concat2("*", name)
    } else if ty.kind == IrTypeKind::ModelReference {
        let base = base_model_cpp_type(ty.cpp_type.as_str());
        text::concat5("*reinterpret_cast<", base.as_str(), "*>(", name, ")")
    } else if ty.kind == IrTypeKind::ModelPointer {
        let base = base_model_cpp_type(ty.cpp_type.as_str());
        text::concat5("reinterpret_cast<", base.as_str(), "*>(", name, ")")
    } else {
        owned(name)
    }
}

/// The C++ call arguments of the parameters from `start` on.
pub open spec fn spec_call_args(params: Seq<IrParamV>) -> Seq<char> {
    text::join(params.map_values(|p: IrParamV| spec_render_cpp_arg(p.ty, p.name)), ", "@)
}

pub fn call_args(function: &IrFunction, start: usize) -> (r: String)
    requires
        start <= function.params@.len(),
    ensures
        r@ == spec_call_args(function@.params.skip(start as int)),
{
    let ghost fv = function@;
    let ghost ps = fv.params.skip(start as int);
    let ghost items = ps.map_values(|p: IrParamV| spec_render_cpp_arg(p.ty, p.name));
    let mut parts: Vec<String> = Vec::new();
    let mut i: usize = start;
    assert(items.take(0) =~= Seq::<Seq<char>>::empty());
    while i < function.params.len()
        invariant
            start <= i <= function.params@.len(),
            fv == function@,
            ps == fv.params.skip(start as int),
            items == ps.map_values(|p: IrParamV| spec_render_cpp_arg(p.ty, p.name)),
            text::views(parts@) == items.take(i - start),
        decreases function.params@.len() - i,
    {
        let p = &function.params[i];
        let part = render_cpp_arg(&p.ty, p.name.as_str());
        let ghost before = text::views(parts@);
        parts.push(part);
        proof {
            assert(fv.params[i as int] == p@);
            assert(ps[i - start] == p@);
            assert(text::views(parts@) =~= before.push(part@));
            assert(items.take(i + 1 - start) =~= items.take(i - start).push(items[i - start]));
        }
        i += 1;
    }
    assert(items.take(function.params@.len() - start) =~= items);
    text::join_strings(&parts, ", ")
}

/// `type name` for each parameter, or `void` for none.
pub open spec fn spec_c_param_list(params: Seq<IrParamV>) -> Seq<char> {
    if params.len() == 0 {
        "void"@
    } else {
        text::join(params.map_values(|p: IrParamV| p.ty.c_type + " "@ + p.name), ", "@)
    }
}

fn c_param_list(params: &Vec<IrParam>) -> (r: String)
    ensures
        r@ == spec_c_param_list(param_views(params@)),
{
    if params.len() == 0 {
        return owned("void");
    }
    let ghost ps = param_views(params@);
    let ghost items = ps.map_values(|p: IrParamV| p.ty.c_type + " "@ + p.name);
    let mut parts: Vec<String> = Vec::new();
    let mut i: usize = 0;
    while i < params.len()
        invariant
            i <= params@.len(),
            ps == param_views(params@),
            items == ps.map_values(|p: IrParamV| p.ty.c_type + " "@ + p.name),
            text::views(parts@) == items.take(i as int),
        decreases params@.len() - i,
    {
        let p = &params[i];
        let part = concat3(p.ty.c_type.as_str(), " ", p.name.as_str());
        let ghost before = text::views(parts@);
        parts.push(part);
        proof {
            assert(ps[i as int] == p@);
            assert(text::views(parts@) =~= before.push(part@));
            assert(items.take(i + 1) =~= items.take(i as int).push(items[i as int]));
        }
        i += 1;
    }
    assert(items.take(params@.len() as int) =~= items);
    text::join_strings(&parts, ", ")
}

pub open spec fn spec_render_param_list(f: IrFunctionV) -> Seq<char> {
    spec_c_param_list(f.params)
}

pub fn render_param_list(function: &IrFunction) -> (r: String)
    ensures
        r@ == spec_render_param_list(function@),
{
    c_param_list(&function.params)
}

/// The declaration of a wrapper in the C header.
pub open spec fn spec_render_function_decl(f: IrFunctionV) -> Seq<char> {
    f.returns.c_type + " "@ + f.name + "("@ + spec_render_param_list(f) + ");"@
}

pub fn render_function_decl(function: &IrFunction) -> (r: String)
    ensures
        r@ == spec_render_function_decl(function@),
{
    let params = render_param_list(function);
    let mut out = text::concat5(
        function.returns.c_type.as_str(),
        " ",
        function.name.as_str(),
        "(",
        params.as_str(),
    );
    out.append(");");
    out
}

// ---------------------------------------------------------------------------
// Bodies
// ---------------------------------------------------------------------------

/// The C++ class that a member wrapper belongs to, or `void`.
pub open spec fn owner_or_void(f: IrFunctionV) -> Seq<char> {
    match f.owner_cpp_type {
        Some(o) => o,
        None => "void"@,
    }
}

fn owner_name(function: &IrFunction) -> (r: String)
    ensures
        r@ == owner_or_void(function@),
{
    match &function.owner_cpp_type {
        Some(o) => o.clone(),
        None => owned("void"),
    }
}

/// Returning a model view: a copy of the referenced object, or null for a
/// null pointer.
pub open spec fn spec_render_model_view_return(f: IrFunctionV, target: Seq<char>, args: Seq<char>) -> Seq<
    char,
> {
    let base = spec_base_model_cpp_type(f.returns.cpp_type);
    if text::ends_with(text::trim_end(f.returns.cpp_type), "*"@) {
        "    auto result = "@ + target + "("@ + args
            + ");\n    if (result == nullptr) {\n        return nullptr;\n    }\n    return reinterpret_cast<"@
            + f.returns.c_type + ">(new "@ + base + "(*result));\n"@
    } else {
        "    return reinterpret_cast<"@ + f.returns.c_type + ">(new "@ + base + "("@ + target + "("@
            + args + ")));\n"@
    }
}

pub fn render_model_view_return(function: &IrFunction, target: &str, args: &str) -> (r: String)
    ensures
        r@ == spec_render_model_view_return(function@, target@, args@),
{
    let base = base_model_cpp_type(function.returns.cpp_type.as_str());
    let v = text::chars_of(function.returns.cpp_type.as_str());
    let end = text::ws_trimmed_end(&v, 0);
    let trimmed = text::string_of_range(&v, 0, end);
    proof {
        assert(v@.skip(0) =~= v@);
        assert(trimmed@ == text::trim_end(function.returns.cpp_type@));
    }
    if text::has_suffix(trimmed.as_str(), "*") {
        let mut out = text::concat4("    auto result = ", target, "(", args);
        out.append(
            ");\n    if (result == nullptr) {\n        return nullptr;\n    }\n    return reinterpret_cast<",
        );
        out.append(function.returns.c_type.as_str());
        out.append(">(new ");
        out.append(base.as_str());
        out.append("(*result));\n");
        out
    } else {
        let mut out = text::concat5(
            "    return reinterpret_cast<",
            function.returns.c_type.as_str(),
            ">(new ",
            base.as_str(),
            "(",
        );
        out.append(target);
        out.append("(");
        out.append(args);
        out.append(")));\n");
        out
    }
}

/// The body of a wrapper that calls `target` with the parameters from
/// `start` on, and converts what it returns.
pub open spec fn spec_render_callable_body(f: IrFunctionV, target: Seq<char>, start: int) -> Seq<char> {
    let args = spec_call_args(f.params.skip(start));
    let r = f.returns;
    if r.kind == IrTypeKind::Void {
        "    "@ + target + "("@ + args + ");\n"@
    } else if r.kind == IrTypeKind::String {
        "    std::string result = "@ + target + "("@ + args
            + ");\n    char* buffer = static_cast<char*>(std::malloc(result.size() + 1));\n    if (buffer == nullptr) {\n        return nullptr;\n    }\n    std::memcpy(buffer, result.c_str(), result.size() + 1);\n    return buffer;\n"@
    } else if r.kind == IrTypeKind::ModelView {
        spec_render_model_view_return(f, target, args)
    } else if r.kind == IrTypeKind::ModelValue {
        "    return reinterpret_cast<"@ + r.c_type + ">(new "@ + spec_base_model_cpp_type(r.cpp_type)
            + "("@ + target + "("@ + args + ")));\n"@
    } else if r.handle is Some {
        "    return reinterpret_cast<"@ + r.c_type + ">("@ + target + "("@ + args + "));\n"@
    } else {
        "    return "@ + target + "("@ + args + ");\n"@
    }
}

pub fn render_callable_body(function: &IrFunction, target: &str, arg_start: usize) -> (r: String)
    requires
        arg_start <= function.params@.len(),
    ensures
        r@ == spec_render_callable_body(function@, target@, arg_start as int),
{
    let args = call_args(function, arg_start);
    let ret = &function.returns;
    if ret.kind == IrTypeKind::Void {
        let mut out = text::concat4("    ", target, "(", args.as_str());
        out.append(");\n");
        out
    } else if ret.kind == IrTypeKind::String {
        let mut out = text::concat4("    std::string result = ", target, "(", args.as_str());
        out.append(
            ");\n    char* buffer = static_cast<char*>(std::malloc(result.size() + 1));\n    if (buffer == nullptr) {\n        return nullptr;\n    }\n    std::memcpy(buffer, result.c_str(), result.size() + 1);\n    return buffer;\n",
        );
        out
    } else if ret.kind == IrTypeKind::ModelView {
        render_model_view_return(function, target, args.as_str())
    } else if ret.kind == IrTypeKind::ModelValue {
        let base = base_model_cpp_type(ret.cpp_type.as_str());
        let mut out = text::concat5(
            "    return reinterpret_cast<",
            ret.c_type.as_str(),
            ">(new ",
            base.as_str(),
            "(",
        );
        out.append(target);
        out.append("(");
        out.append(args.as_str());
        out.append(")));\n");
        out
    } else if ret.handle.is_some() {
        let mut out = text::concat5("    return reinterpret_cast<", ret.c_type.as_str(), ">(", target, "(");
        out.append(args.as_str());
        out.append("));\n");
        out
    } else {
        let mut out = text::concat4("    return ", target, "(", args.as_str());
        out.append(");\n");
        out
    }
}

/// The body of a synthesized getter.
pub open spec fn spec_render_field_getter_body(f: IrFunctionV, receiver: Seq<char>, field: Seq<char>) -> Seq<
    char,
> {
    if f.returns.kind == IrTypeKind::ModelValue {
        "    return reinterpret_cast<"@ + f.returns.c_type + ">(new "@ + spec_base_model_cpp_type(
            f.returns.cpp_type,
        ) + "("@ + receiver + "->"@ + field + "));\n"@
    } else if f.returns.kind == IrTypeKind::FixedModelArray {
        let t = f.returns;
        let ptr = element_handle_ptr(t);
        let count = text::decimal(array_count(t.cpp_type) as nat);
        "    "@ + ptr + "* _r = new "@ + ptr + "["@ + count + "];\n    for (size_t _i = 0; _i < "@
            + count + "; ++_i) {\n        _r[_i] = reinterpret_cast<"@ + ptr + ">(new "@
            + array_element_class(t.cpp_type) + "("@ + receiver + "->"@ + field
            + "[_i]));\n    }\n    return _r;\n"@
    } else {
        "    return "@ + receiver + "->"@ + field + ";\n"@
    }
}

/// The element type of a fixed array spelling, or the spelling itself.
pub open spec fn array_element(cpp_type: Seq<char>) -> Seq<char> {
    match spec_parse_array_type(cpp_type) {
        Some((e, _)) => e,
        None => cpp_type,
    }
}

/// The length of a fixed array spelling, or 0.
pub open spec fn array_count(cpp_type: Seq<char>) -> usize {
    match spec_parse_array_type(cpp_type) {
        Some((_, n)) => n,
        None => 0,
    }
}

/// The class of the elements of a fixed model array.
pub open spec fn array_element_class(cpp_type: Seq<char>) -> Seq<char> {
    spec_base_model_cpp_type(array_element(cpp_type))
}

/// The C handle pointer of one element of a fixed model array: its
/// handle type and `*`.
pub open spec fn element_handle_ptr(t: IrTypeV) -> Seq<char> {
    match t.handle {
        Some(h) => h + "*"@,
        None => array_element_class(t.cpp_type) + "Handle*"@,
    }
}

fn array_element_class_exec(cpp_type: &str) -> (r: String)
    ensures
        r@ == array_element_class(cpp_type@),
{
    let e = match fixed_array_elem_type(cpp_type) {
        Some(e) => e,
        None => owned(cpp_type),
    };
    base_model_cpp_type(e.as_str())
}

fn array_count_exec(cpp_type: &str) -> (r: String)
    ensures
        r@ == text::decimal(array_count(cpp_type@) as nat),
{
    let n: usize = match fixed_array_length(cpp_type) {
        Some(n) => n,
        None => 0,
    };
    text::usize_to_string(n)
}

fn element_handle_ptr_exec(ty: &IrType) -> (r: String)
    ensures
        r@ == element_handle_ptr(ty@),
{
    match &ty.handle {
        Some(h) => concat2(h.as_str(), "*"),
        None => {
            let c = array_element_class_exec(ty.cpp_type.as_str());
            concat2(c.as_str(), "Handle*")
        },
    }
}

pub fn render_field_getter_body(function: &IrFunction, receiver: &str, field_name: &str) -> (r: String)
    ensures
        r@ == spec_render_field_getter_body(function@, receiver@, field_name@),
{
    if function.returns.kind == IrTypeKind::ModelValue {
        let base = base_model_cpp_type(function.returns.cpp_type.as_str());
        let mut out = text::concat5(
            "    return reinterpret_cast<",
            function.returns.c_type.as_str(),
            ">(new ",
            base.as_str(),
            "(",
        );
        out.append(receiver);
        out.append("->");
        out.append(field_name);
        out.append("));\n");
        out
    } else if function.returns.kind == IrTypeKind::FixedModelArray {
        let t = &function.returns;
        let ptr = element_handle_ptr_exec(t);
        let count = array_count_exec(t.cpp_type.as_str());
        let class = array_element_class_exec(t.cpp_type.as_str());
        let mut out = text::concat5("    ", ptr.as_str(), "* _r = new ", ptr.as_str(), "[");
        out.append(count.as_str());
        out.append("];\n    for (size_t _i = 0; _i < ");
        out.append(count.as_str());
        out.append("; ++_i) {\n        _r[_i] = reinterpret_cast<");
        out.append(ptr.as_str());
        out.append(">(new ");
        out.append(class.as_str());
        out.append("(");
        out.append(receiver);
        out.append("->");
        out.append(field_name);
        out.append("[_i]));\n    }\n    return _r;\n");
        out
    } else {
        text::concat5("    return ", receiver, "->", field_name, ";\n")
    }
}

/// The body of a synthesized setter.
pub open spec fn spec_render_field_setter_body(f: IrFunctionV, receiver: Seq<char>, field: Seq<char>) -> Seq<
    char,
> {
    if f.params.len() >= 2 && f.params[1].ty.kind == IrTypeKind::ModelValue {
        "    "@ + receiver + "->"@ + field + " = *reinterpret_cast<"@ + spec_base_model_cpp_type(
            f.params[1].ty.cpp_type,
        ) + "*>(value);\n"@
    } else if f.params.len() >= 2 && f.params[1].ty.kind == IrTypeKind::FixedModelArray {
        let t = f.params[1].ty;
        "    for (size_t _i = 0; _i < "@ + text::decimal(array_count(t.cpp_type) as nat)
            + "; ++_i) {\n        "@ + receiver + "->"@ + field + "[_i] = *reinterpret_cast<"@
            + array_element_class(t.cpp_type) + "*>(value[_i]);\n    }\n"@
    } else {
        "    "@ + receiver + "->"@ + field + " = value;\n"@
    }
}

pub fn render_field_setter_body(function: &IrFunction, receiver: &str, field_name: &str) -> (r: String)
    ensures
        r@ == spec_render_field_setter_body(function@, receiver@, field_name@),
{
    if function.params.len() >= 2 && function.params[1].ty.kind == IrTypeKind::ModelValue {
        let base = base_model_cpp_type(function.params[1].ty.cpp_type.as_str());
        let mut out = text::concat5("    ", receiver, "->", field_name, " = *reinterpret_cast<");
        out.append(base.as_str());
        out.append("*>(value);\n");
        out
    } else if function.params.len() >= 2 && function.params[1].ty.kind == IrTypeKind::FixedModelArray {
        let t = &function.params[1].ty;
        let count = array_count_exec(t.cpp_type.as_str());
        let class = array_element_class_exec(t.cpp_type.as_str());
        let mut out = text::concat5("    for (size_t _i = 0; _i < ", count.as_str(), "; ++_i) {\n        ", receiver, "->");
        out.append(field_name);
        out.append("[_i] = *reinterpret_cast<");
        out.append(class.as_str());
        out.append("*>(value[_i]);\n    }\n");
        out
    } else {
        text::concat5("    ", receiver, "->", field_name, " = value;\n")
    }
}

/// `self` cast to the owner class, const where the method is.
pub open spec fn spec_receiver(f: IrFunctionV) -> Seq<char> {
    if f.is_const == Some(true) {
        "reinterpret_cast<const "@ + owner_or_void(f) + "*>(self)"@
    } else {
        "reinterpret_cast<"@ + owner_or_void(f) + "*>(self)"@
    }
}

/// The body of a wrapper, by what it wraps.
pub open spec fn spec_render_body(f: IrFunctionV) -> Seq<char> {
    if f.kind == IrFunctionKind::Constructor {
        "    return reinterpret_cast<"@ + f.returns.c_type + ">(new "@ + owner_or_void(f) + "("@
            + spec_call_args(f.params.skip(0)) + "));\n"@
    } else if f.kind == IrFunctionKind::Destructor {
        "    delete reinterpret_cast<"@ + owner_or_void(f) + "*>(self);\n"@
    } else if f.kind == IrFunctionKind::Method {
        match f.field_accessor {
            Some((field, FieldAccessKind::Get)) => spec_render_field_getter_body(
                f,
                spec_receiver(f),
                field,
            ),
            Some((field, FieldAccessKind::Assign)) => spec_render_field_setter_body(
                f,
                spec_receiver(f),
                field,
            ),
            None => spec_render_callable_body(
                f,
                spec_receiver(f) + "->"@ + text::last_segment(f.cpp_name, "::"@),
                if f.params.len() >= 1 {
                    1
                } else {
                    0
                },
            ),
        }
    } else {
        spec_render_callable_body(f, f.cpp_name, 0)
    }
}

fn render_body(function: &IrFunction) -> (r: String)
    ensures
        r@ == spec_render_body(function@),
{
    let owner = owner_name(function);
    if function.kind == IrFunctionKind::Constructor {
        let args = call_args(function, 0);
        let mut out = text::concat5(
            "    return reinterpret_cast<",
            function.returns.c_type.as_str(),
            ">(new ",
            owner.as_str(),
            "(",
        );
        out.append(args.as_str());
        out.append("));\n");
        out
    } else if function.kind == IrFunctionKind::Destructor {
        concat3("    delete reinterpret_cast<", owner.as_str(), "*>(self);\n")
    } else if function.kind == IrFunctionKind::Method {
        let receiver = if function.is_const == Some(true) {
            concat3("reinterpret_cast<const ", owner.as_str(), "*>(self)")
        } else {
            concat3("reinterpret_cast<", owner.as_str(), "*>(self)")
        };
        match &function.field_accessor {
            Some(accessor) => {
                match accessor.access {
                    FieldAccessKind::Get => render_field_getter_body(
                        function,
                        receiver.as_str(),
                        accessor.field_name.as_str(),
                    ),
                    FieldAccessKind::Assign => render_field_setter_body(
                        function,
                        receiver.as_str(),
                        accessor.field_name.as_str(),
                    ),
                }
            },
            None => {
                proof {
                    reveal_strlit("::");
                }
                let method = text::last_segment_str(function.cpp_name.as_str(), "::");
                let target = concat3(receiver.as_str(), "->", method.as_str());
                let start: usize = if function.params.len() >= 1 {
                    1
                } else {
                    0
                };
                render_callable_body(function, target.as_str(), start)
            },
        }
    } else {
        render_callable_body(function, function.cpp_name.as_str(), 0)
    }
}

/// The definition of a wrapper in the C++ source.
pub open spec fn spec_render_function_def(f: IrFunctionV) -> Seq<char> {
    f.returns.c_type + " "@ + f.name + "("@ + spec_render_param_list(f) + ")"@ + " {\n"@
        + spec_render_body(f) + "}\n"@
}

pub fn render_function_def(function: &IrFunction) -> (r: String)
    ensures
        r@ == spec_render_function_def(function@),
{
    let params = render_param_list(function);
    let body = render_body(function);
    let mut out = text::concat5(
        function.returns.c_type.as_str(),
        " ",
        function.name.as_str(),
        "(",
        params.as_str(),
    );
    out.append(")");
    out.append(" {\n");
    out.append(body.as_str());
    out.append("}\n");
    out
}


// ---------------------------------------------------------------------------
// Callback bridges
// ---------------------------------------------------------------------------

/// Whether a wrapper takes a callback.
pub open spec fn takes_callback(f: IrFunctionV) -> bool {
    exists|i: int| 0 <= i < f.params.len() && #[trigger] f.params[i].ty.kind == IrTypeKind::Callback
}

fn takes_callback_exec(function: &IrFunction) -> (r: bool)
    ensures
        r == takes_callback(function@),
{
    let ghost fv = function@;
    let mut i: usize = 0;
    while i < function.params.len()
        invariant
            fv == function@,
            i <= function.params@.len(),
            forall|j: int| 0 <= j < i ==> #[trigger] fv.params[j].ty.kind != IrTypeKind::Callback,
        decreases function.params@.len() - i,
    {
        assert(fv.params[i as int] == function.params@[i as int]@);
        if function.params[i].ty.kind == IrTypeKind::Callback {
            assert(fv.params[i as int].ty.kind == IrTypeKind::Callback);
            return true;
        }
        i += 1;
    }
    false
}

/// A bridge parameter: a callback becomes the flag `use_cbN`.
pub open spec fn bridge_param(p: IrParamV, i: int) -> IrParamV {
    if p.ty.kind == IrTypeKind::Callback {
        IrParamV {
            name: "use_cb"@ + text::decimal(i as nat),
            ty: IrTypeV {
                kind: IrTypeKind::Primitive,
                cpp_type: "bool"@,
                c_type: "bool"@,
                handle: None,
            },
        }
    } else {
        p
    }
}

/// The bridge of a wrapper that takes callbacks: a free function that
/// takes a flag per callback and passes the Go trampolines on.
pub open spec fn spec_bridge_function(f: IrFunctionV) -> IrFunctionV {
    IrFunctionV {
        name: f.name + "_bridge"@,
        kind: IrFunctionKind::Function,
        field_accessor: None,
        params: Seq::new(f.params.len(), |i: int| bridge_param(f.params[i], i)),
        ..f
    }
}

fn copy_param(p: &IrParam) -> (r: IrParam)
    ensures
        r@ == p@,
{
    IrParam { name: p.name.clone(), ty: crate::codegen::ir_norm::copy_type(&p.ty) }
}

pub fn make_callback_bridge_function(function: &IrFunction) -> (r: IrFunction)
    ensures
        r@ == spec_bridge_function(function@),
{
    let ghost fv = function@;
    let mut params: Vec<IrParam> = Vec::new();
    let mut i: usize = 0;
    while i < function.params.len()
        invariant
            fv == function@,
            i <= function.params@.len(),
            param_views(params@) == Seq::new(
                fv.params.len(),
                |j: int| bridge_param(fv.params[j], j),
            ).take(i as int),
        decreases function.params@.len() - i,
    {
        let p = &function.params[i];
        let np = if p.ty.kind == IrTypeKind::Callback {
            let d = text::usize_to_string(i);
            IrParam {
                name: concat2("use_cb", d.as_str()),
                ty: IrType {
                    kind: IrTypeKind::Primitive,
                    cpp_type: owned("bool"),
                    c_type: owned("bool"),
                    handle: None,
                },
            }
        } else {
            copy_param(p)
        };
        let ghost before = param_views(params@);
        params.push(np);
        proof {
            assert(fv.params[i as int] == p@);
            assert(param_views(params@) =~= before.push(np@));
            let all = Seq::new(fv.params.len(), |j: int| bridge_param(fv.params[j], j));
            assert(all.take(i + 1) =~= all.take(i as int).push(all[i as int]));
        }
        i += 1;
    }
    proof {
        let all = Seq::new(fv.params.len(), |j: int| bridge_param(fv.params[j], j));
        assert(all.take(fv.params.len() as int) =~= all);
    }
    IrFunction {
        name: concat2(function.name.as_str(), "_bridge"),
        kind: IrFunctionKind::Function,
        cpp_name: function.cpp_name.clone(),
        method_of: text::copy_opt(&function.method_of),
        owner_cpp_type: text::copy_opt(&function.owner_cpp_type),
        is_const: function.is_const,
        field_accessor: None,
        returns: crate::codegen::ir_norm::copy_type(&function.returns),
        params,
    }
}

/// The trampoline that carries callback parameter `index` of a wrapper.
pub open spec fn spec_trampoline_name(f: IrFunctionV, index: nat) -> Seq<char> {
    f.name + "_cb"@ + text::decimal(index) + "_trampoline"@
}

pub fn callback_trampoline_name(function: &IrFunction, index: usize) -> (r: String)
    ensures
        r@ == spec_trampoline_name(function@, index as nat),
{
    let d = text::usize_to_string(index);
    text::concat4(function.name.as_str(), "_cb", d.as_str(), "_trampoline")
}

/// The exported Go function that a trampoline calls.
pub open spec fn spec_callback_go_export_name(f: IrFunctionV, index: nat) -> Seq<char> {
    "go_"@ + f.name + "_cb"@ + text::decimal(index)
}

pub fn callback_go_export_name(function: &IrFunction, index: usize) -> (r: String)
    ensures
        r@ == spec_callback_go_export_name(function@, index as nat),
{
    let d = text::usize_to_string(index);
    text::concat4("go_", function.name.as_str(), "_cb", d.as_str())
}

/// The names of the parameters, joined by `, `.
pub open spec fn spec_param_names(params: Seq<IrParamV>) -> Seq<char> {
    text::join(params.map_values(|p: IrParamV| p.name), ", "@)
}

fn param_names(params: &Vec<IrParam>) -> (r: String)
    ensures
        r@ == spec_param_names(param_views(params@)),
{
    let ghost ps = param_views(params@);
    let ghost items = ps.map_values(|p: IrParamV| p.name);
    let mut parts: Vec<String> = Vec::new();
    let mut i: usize = 0;
    while i < params.len()
        invariant
            i <= params@.len(),
            ps == param_views(params@),
            items == ps.map_values(|p: IrParamV| p.name),
            text::views(parts@) == items.take(i as int),
        decreases params@.len() - i,
    {
        let n = params[i].name.clone();
        let ghost before = text::views(parts@);
        parts.push(n);
        proof {
            assert(ps[i as int] == params@[i as int]@);
            assert(text::views(parts@) =~= before.push(n@));
            assert(items.take(i + 1) =~= items.take(i as int).push(items[i as int]));
        }
        i += 1;
    }
    assert(items.take(params@.len() as int) =~= items);
    text::join_strings(&parts, ", ")
}

/// The declaration of the exported Go function and the trampoline that
/// calls it, for callback parameter `index`.
pub open spec fn spec_render_callback_trampoline_decl(f: IrFunctionV, index: nat, c: IrCallback) -> Seq<
    char,
> {
    let params = spec_c_param_list(param_views(c.params@));
    let args = spec_param_names(param_views(c.params@));
    let go = spec_callback_go_export_name(f, index);
    let invoke = if c.returns.kind == IrTypeKind::Void {
        go + "("@ + args + ");"@
    } else {
        "return "@ + go + "("@ + args + ");"@
    };
    "    extern "@ + c.returns.c_type@ + " "@ + go + "("@ + params + ");\n    "@ + c.name@ + " "@
        + spec_trampoline_name(f, index) + " = []("@ + params + ") -> "@ + c.returns.c_type@ + " { "@
        + invoke + " };\n"@
}

pub fn render_callback_trampoline_decl(function: &IrFunction, index: usize, callback: &IrCallback) -> (r:
    String)
    ensures
        r@ == spec_render_callback_trampoline_decl(function@, index as nat, *callback),
{
    let params = c_param_list(&callback.params);
    let args = param_names(&callback.params);
    let go = callback_go_export_name(function, index);
    let invoke = if callback.returns.kind == IrTypeKind::Void {
        text::concat4(go.as_str(), "(", args.as_str(), ");")
    } else {
        text::concat5("return ", go.as_str(), "(", args.as_str(), ");")
    };
    let tramp = callback_trampoline_name(function, index);
    let mut out = text::concat5("    extern ", callback.returns.c_type.as_str(), " ", go.as_str(), "(");
    out.append(params.as_str());
    out.append(");\n    ");
    out.append(callback.name.as_str());
    out.append(" ");
    out.append(tramp.as_str());
    out.append(" = [](");
    out.append(params.as_str());
    out.append(") -> ");
    out.append(callback.returns.c_type.as_str());
    out.append(" { ");
    out.append(invoke.as_str());
    out.append(" };\n");
    out
}

/// Every callback parameter of the module's wrappers names a callback
/// typedef that the module records.
pub open spec fn callbacks_resolved(ir: IrModule) -> bool {
    forall|fi: int, i: int|
        0 <= fi < ir.functions@.len() && 0 <= i < ir.functions@[fi].params@.len()
            && #[trigger] ir.functions@[fi].params@[i].ty.kind == IrTypeKind::Callback
            ==> crate::facade::lookup_callback(
            ir.callbacks@,
            ir.functions@[fi].params@[i].ty.cpp_type@,
            ir.callbacks@.len() as int,
        ) is Some
}

/// The trampolines of the first `k` parameters.
pub open spec fn spec_trampolines(f: IrFunctionV, cbs: Seq<IrCallback>, k: int) -> Seq<char>
    decreases k,
{
    if k <= 0 {
        Seq::empty()
    } else {
        let p = f.params[k - 1];
        spec_trampolines(f, cbs, k - 1) + if p.ty.kind == IrTypeKind::Callback {
            spec_render_callback_trampoline_decl(
                f,
                (k - 1) as nat,
                cbs[crate::facade::lookup_callback(cbs, p.ty.cpp_type, cbs.len() as int)->0 as int],
            )
        } else {
            Seq::empty()
        }
    }
}

/// What the bridge passes for parameter `i`: the trampoline where the flag
/// is set, the parameter itself otherwise.
pub open spec fn bridge_call_arg(f: IrFunctionV, p: IrParamV, i: int) -> Seq<char> {
    if p.ty.kind == IrTypeKind::Callback {
        "use_cb"@ + text::decimal(i as nat) + " ? "@ + spec_trampoline_name(f, i as nat)
            + " : nullptr"@
    } else {
        p.name
    }
}

/// The body of a bridge: its trampolines and the call of the wrapper.
pub open spec fn spec_render_callback_bridge_body(f: IrFunctionV, cbs: Seq<IrCallback>) -> Seq<char> {
    let args = text::join(
        Seq::new(f.params.len(), |i: int| bridge_call_arg(f, f.params[i], i)),
        ", "@,
    );
    spec_trampolines(f, cbs, f.params.len() as int) + if f.returns.kind == IrTypeKind::Void {
        "    "@ + f.name + "("@ + args + ");\n"@
    } else {
        "    return "@ + f.name + "("@ + args + ");\n"@
    }
}

/// Whether every callback parameter names a known callback typedef.
pub fn check_callbacks_resolved(ir: &IrModule) -> (r: bool)
    ensures
        r == callbacks_resolved(*ir),
{
    let mut fi: usize = 0;
    while fi < ir.functions.len()
        invariant
            fi <= ir.functions@.len(),
            forall|f: int, i: int|
                0 <= f < fi && 0 <= i < ir.functions@[f].params@.len()
                    && #[trigger] ir.functions@[f].params@[i].ty.kind == IrTypeKind::Callback
                    ==> crate::facade::lookup_callback(
                    ir.callbacks@,
                    ir.functions@[f].params@[i].ty.cpp_type@,
                    ir.callbacks@.len() as int,
                ) is Some,
        decreases ir.functions@.len() - fi,
    {
        let params = &ir.functions[fi].params;
        let mut i: usize = 0;
        while i < params.len()
            invariant
                fi < ir.functions@.len(),
                params == &ir.functions@[fi as int].params,
                i <= params@.len(),
                forall|f: int, j: int|
                    0 <= f < fi && 0 <= j < ir.functions@[f].params@.len()
                        && #[trigger] ir.functions@[f].params@[j].ty.kind == IrTypeKind::Callback
                        ==> crate::facade::lookup_callback(
                        ir.callbacks@,
                        ir.functions@[f].params@[j].ty.cpp_type@,
                        ir.callbacks@.len() as int,
                    ) is Some,
                forall|j: int|
                    0 <= j < i && #[trigger] ir.functions@[fi as int].params@[j].ty.kind
                        == IrTypeKind::Callback ==> crate::facade::lookup_callback(
                        ir.callbacks@,
                        ir.functions@[fi as int].params@[j].ty.cpp_type@,
                        ir.callbacks@.len() as int,
                    ) is Some,
            decreases params@.len() - i,
        {
            if params[i].ty.kind == IrTypeKind::Callback {
                if crate::facade::lookup_callback_exec(ir, params[i].ty.cpp_type.as_str()).is_none() {
                    return false;
                }
            }
            i += 1;
        }
        fi += 1;
    }
    true
}

pub fn render_callback_bridge_body(ir: &IrModule, fi: usize) -> (r: String)
    requires
        fi < ir.functions@.len(),
        callbacks_resolved(*ir),
    ensures
        r@ == spec_render_callback_bridge_body(ir.functions@[fi as int]@, ir.callbacks@),
{
    let function = &ir.functions[fi];
    let ghost fv = function@;
    let mut out = String::new();
    let mut args: Vec<String> = Vec::new();
    let ghost all_args = Seq::new(fv.params.len(), |i: int| bridge_call_arg(fv, fv.params[i], i));
    let mut i: usize = 0;
    while i < function.params.len()
        invariant
            fi < ir.functions@.len(),
            *function == ir.functions@[fi as int],
            fv == function@,
            callbacks_resolved(*ir),
            all_args == Seq::new(fv.params.len(), |i: int| bridge_call_arg(fv, fv.params[i], i)),
            i <= function.params@.len(),
            out@ == spec_trampolines(fv, ir.callbacks@, i as int),
            text::views(args@) == all_args.take(i as int),
        decreases function.params@.len() - i,
    {
        let p = &function.params[i];
        assert(fv.params[i as int] == p@);
        let ghost before = text::views(args@);
        if p.ty.kind == IrTypeKind::Callback {
            assert(ir.functions@[fi as int].params@[i as int].ty.kind == IrTypeKind::Callback);
            let c = match crate::facade::lookup_callback_exec(ir, p.ty.cpp_type.as_str()) {
                Some(c) => c,
                None => 0,
            };
            let decl = render_callback_trampoline_decl(function, i, &ir.callbacks[c]);
            out.append(decl.as_str());
            let d = text::usize_to_string(i);
            let tramp = callback_trampoline_name(function, i);
            let a = text::concat5("use_cb", d.as_str(), " ? ", tramp.as_str(), " : nullptr");
            args.push(a);
            assert(text::views(args@) =~= before.push(a@));
        } else {
            assert(out@ =~= out@ + Seq::<char>::empty());
            let a = p.name.clone();
            args.push(a);
            assert(text::views(args@) =~= before.push(a@));
        }
        assert(all_args.take(i + 1) =~= all_args.take(i as int).push(all_args[i as int]));
        i += 1;
    }
    assert(all_args.take(function.params@.len() as int) =~= all_args);
    let joined = text::join_strings(&args, ", ");
    if function.returns.kind == IrTypeKind::Void {
        out.append("    ");
        out.append(function.name.as_str());
        out.append("(");
        out.append(joined.as_str());
        out.append(");\n");
    } else {
        out.append("    return ");
        out.append(function.name.as_str());
        out.append("(");
        out.append(joined.as_str());
        out.append(");\n");
    }
    out
}

/// The definition of a bridge in the C++ source.
pub open spec fn spec_render_callback_bridge_def(f: IrFunctionV, cbs: Seq<IrCallback>) -> Seq<char> {
    let b = spec_bridge_function(f);
    b.returns.c_type + " "@ + b.name + "("@ + spec_c_param_list(b.params) + ")"@ + " {\n"@
        + spec_render_callback_bridge_body(f, cbs) + "}\n"@
}

pub fn render_callback_bridge_def(ir: &IrModule, fi: usize) -> (r: String)
    requires
        fi < ir.functions@.len(),
        callbacks_resolved(*ir),
    ensures
        r@ == spec_render_callback_bridge_def(ir.functions@[fi as int]@, ir.callbacks@),
{
    let bridge = make_callback_bridge_function(&ir.functions[fi]);
    let params = c_param_list(&bridge.params);
    let body = render_callback_bridge_body(ir, fi);
    let mut out = text::concat5(
        bridge.returns.c_type.as_str(),
        " ",
        bridge.name.as_str(),
        "(",
        params.as_str(),
    );
    out.append(")");
    out.append(" {\n");
    out.append(body.as_str());
    out.append("}\n");
    out
}


// ---------------------------------------------------------------------------
// The header
// ---------------------------------------------------------------------------

/// Every type that the wrappers and the callbacks mention.
pub open spec fn module_types(ir: IrModule) -> Seq<IrTypeV> {
    crate::codegen::ir_norm::spec_all_types(function_views(ir.functions@)) + callback_types(
        ir.callbacks@,
    )
}

/// The return and parameter types of each callback, in order.
pub open spec fn callback_types(cbs: Seq<IrCallback>) -> Seq<IrTypeV>
    decreases cbs.len(),
{
    if cbs.len() == 0 {
        Seq::empty()
    } else {
        callback_types(cbs.drop_last()) + seq![cbs.last().returns@] + param_views(
            cbs.last().params@,
        ).map_values(|p: IrParamV| p.ty)
    }
}

/// A `struct timeval` passed by pointer or reference.
pub open spec fn is_timeval(t: IrTypeV) -> bool {
    (t.kind == IrTypeKind::ExternStructReference || t.kind == IrTypeKind::ExternStructPointer)
        && spec_base_model_cpp_type(t.c_type) == "struct timeval"@
}

/// Whether the module mentions `struct timeval`, so that the header must
/// include `<sys/time.h>`.
pub open spec fn spec_ir_uses_struct_timeval(ir: IrModule) -> bool {
    exists|i: int| 0 <= i < module_types(ir).len() && #[trigger] is_timeval(module_types(ir)[i])
}

fn is_timeval_exec(ty: &IrType) -> (r: bool)
    ensures
        r == is_timeval(ty@),
{
    (ty.kind == IrTypeKind::ExternStructReference || ty.kind == IrTypeKind::ExternStructPointer)
        && str_eq(base_model_cpp_type(ty.c_type.as_str()).as_str(), "struct timeval")
}

pub fn ir_uses_struct_timeval(ir: &IrModule) -> (r: bool)
    ensures
        r == spec_ir_uses_struct_timeval(*ir),
{
    let fts = crate::codegen::ir_norm::flat_types_of(&ir.functions);
    let mut types = fts;
    let ghost a = types@.map_values(|t: IrType| t@);
    let mut i: usize = 0;
    let ghost cbs = ir.callbacks@;
    assert(cbs.take(0) =~= Seq::<IrCallback>::empty());
    assert(types@.map_values(|t: IrType| t@) =~= a + callback_types(cbs.take(0)));
    while i < ir.callbacks.len()
        invariant
            cbs == ir.callbacks@,
            i <= cbs.len(),
            types@.map_values(|t: IrType| t@) == a + callback_types(cbs.take(i as int)),
        decreases cbs.len() - i,
    {
        assert(cbs.take(i + 1).drop_last() =~= cbs.take(i as int));
        assert(cbs.take(i + 1).last() == cbs[i as int]);
        let c = &ir.callbacks[i];
        let ghost before = types@.map_values(|t: IrType| t@);
        let r = crate::codegen::ir_norm::copy_type(&c.returns);
        types.push(r);
        assert(types@.map_values(|t: IrType| t@) =~= before + seq![c.returns@]);
        let ghost mid = types@.map_values(|t: IrType| t@);
        let ghost pv = param_views(c.params@).map_values(|p: IrParamV| p.ty);
        let mut j: usize = 0;
        while j < c.params.len()
            invariant
                *c == ir.callbacks@[i as int],
                pv == param_views(c.params@).map_values(|p: IrParamV| p.ty),
                j <= c.params@.len(),
                types@.map_values(|t: IrType| t@) == mid + pv.take(j as int),
            decreases c.params@.len() - j,
        {
            let t = crate::codegen::ir_norm::copy_type(&c.params[j].ty);
            let ghost b2 = types@.map_values(|t: IrType| t@);
            types.push(t);
            assert(types@.map_values(|t: IrType| t@) =~= b2.push(t@));
            assert(pv.take(j + 1) =~= pv.take(j as int).push(pv[j as int]));
            j += 1;
        }
        assert(pv.take(c.params@.len() as int) =~= pv);
        proof {
            let prev = callback_types(cbs.take(i as int));
            assert(a + prev + seq![c.returns@] + pv =~= a + (prev + seq![c.returns@] + pv));
        }
        i += 1;
    }
    assert(cbs.take(cbs.len() as int) =~= cbs);
    let ghost tv = types@.map_values(|t: IrType| t@);
    assert(tv == module_types(*ir));
    let mut k: usize = 0;
    while k < types.len()
        invariant
            tv == types@.map_values(|t: IrType| t@),
            tv == module_types(*ir),
            k <= types@.len(),
            forall|j: int| 0 <= j < k ==> !is_timeval(#[trigger] tv[j]),
        decreases types@.len() - k,
    {
        if is_timeval_exec(&types[k]) {
            assert(is_timeval(tv[k as int]));
            return true;
        }
        k += 1;
    }
    false
}

/// `typedef struct H H;` for each handle type.
pub open spec fn spec_opaque_decls(os: Seq<crate::codegen::ir_norm::OpaqueType>) -> Seq<char>
    decreases os.len(),
{
    if os.len() == 0 {
        Seq::empty()
    } else {
        spec_opaque_decls(os.drop_last()) + "typedef struct "@ + os.last().name@ + " "@
            + os.last().name@ + ";\n"@
    }
}

/// The function pointer typedef of a callback, and a blank line.
pub open spec fn spec_render_callback_decl(c: IrCallback) -> Seq<char> {
    "typedef "@ + c.returns.c_type@ + " (*"@ + c.name@ + ")("@ + spec_c_param_list(
        param_views(c.params@),
    ) + ");\n\n"@
}

pub fn render_callback_decl(out: &mut String, callback: &IrCallback)
    ensures
        final(out)@ == old(out)@ + spec_render_callback_decl(*callback),
{
    let params = c_param_list(&callback.params);
    let ghost before = out@;
    out.append("typedef ");
    out.append(callback.returns.c_type.as_str());
    out.append(" (*");
    out.append(callback.name.as_str());
    out.append(")(");
    out.append(params.as_str());
    out.append(");\n\n");
    assert(out@ =~= before + spec_render_callback_decl(*callback));
}

pub open spec fn spec_callback_decls(cbs: Seq<IrCallback>) -> Seq<char>
    decreases cbs.len(),
{
    if cbs.len() == 0 {
        Seq::empty()
    } else {
        spec_callback_decls(cbs.drop_last()) + spec_render_callback_decl(cbs.last())
    }
}

/// Each wrapper's declaration and a newline.
pub open spec fn spec_function_decls(fs: Seq<IrFunctionV>) -> Seq<char>
    decreases fs.len(),
{
    if fs.len() == 0 {
        Seq::empty()
    } else {
        spec_function_decls(fs.drop_last()) + spec_render_function_decl(fs.last()) + "\n"@
    }
}

/// Each bridge's declaration and a newline, for the wrappers that take
/// callbacks.
pub open spec fn spec_bridge_decls(fs: Seq<IrFunctionV>) -> Seq<char>
    decreases fs.len(),
{
    if fs.len() == 0 {
        Seq::empty()
    } else {
        spec_bridge_decls(fs.drop_last()) + if takes_callback(fs.last()) {
            spec_render_function_decl(spec_bridge_function(fs.last())) + "\n"@
        } else {
            Seq::empty()
        }
    }
}

/// Whether a wrapper returns an owned string, so that the string release
/// function is needed.
pub open spec fn any_returns_owned_string(fs: Seq<IrFunctionV>) -> bool {
    exists|i: int| 0 <= i < fs.len() && #[trigger] fs[i].returns.kind == IrTypeKind::String
}

fn any_returns_owned_string_exec(ir: &IrModule) -> (r: bool)
    ensures
        r == any_returns_owned_string(function_views(ir.functions@)),
{
    let ghost fs = function_views(ir.functions@);
    let mut i: usize = 0;
    while i < ir.functions.len()
        invariant
            fs == function_views(ir.functions@),
            i <= ir.functions@.len(),
            forall|j: int| 0 <= j < i ==> #[trigger] fs[j].returns.kind != IrTypeKind::String,
        decreases ir.functions@.len() - i,
    {
        assert(fs[i as int] == ir.functions@[i as int]@);
        if ir.functions[i].returns.kind == IrTypeKind::String {
            assert(fs[i as int].returns.kind == IrTypeKind::String);
            return true;
        }
        i += 1;
    }
    false
}

/// The include guard: the prefix and the header name, uppercased, with
/// dots as underscores.
pub open spec fn spec_include_guard(config: Config) -> Seq<char> {
    text::upper_str(config.naming.prefix@) + "_"@ + text::upper_str(
        text::replace_char(config.output.header@, '.', "_"@),
    )
}

/// The C header of the wrappers.
pub open spec fn spec_render_header(config: Config, ir: IrModule) -> Seq<char> {
    let g = spec_include_guard(config);
    let fs = function_views(ir.functions@);
    "#ifndef "@ + g + "\n#define "@ + g + "\n\n"@
        + "#include <stdbool.h>\n#include <stddef.h>\n#include <stdint.h>\n\n"@ + (
    if spec_ir_uses_struct_timeval(ir) {
        "#include <sys/time.h>\n\n"@
    } else {
        Seq::empty()
    }) + "#ifdef __cplusplus\nextern \"C\" {\n#endif\n\n"@ + spec_opaque_decls(ir.opaque_types@) + (
    if ir.opaque_types@.len() > 0 {
        "\n"@
    } else {
        Seq::empty()
    }) + spec_callback_decls(ir.callbacks@) + spec_function_decls(fs) + spec_bridge_decls(fs) + (
    if any_returns_owned_string(fs) {
        "void "@ + config.naming.prefix@ + "_string_free(char* value);\n\n"@
    } else {
        Seq::empty()
    }) + "#ifdef __cplusplus\n}\n#endif\n\n"@ + "#endif /* "@ + g + " */\n"@
}

pub fn render_header(config: &Config, ir: &IrModule) -> (r: String)
    ensures
        r@ == spec_render_header(*config, *ir),
{
    let ghost fs = function_views(ir.functions@);
    let up_prefix = text::to_uppercase(config.naming.prefix.as_str());
    let dotted = text::replace_char_str(config.output.header.as_str(), '.', "_");
    let up_header = text::to_uppercase(dotted.as_str());
    let guard = concat3(up_prefix.as_str(), "_", up_header.as_str());
    let mut out = text::concat5("#ifndef ", guard.as_str(), "\n#define ", guard.as_str(), "\n\n");
    out.append("#include <stdbool.h>\n#include <stddef.h>\n#include <stdint.h>\n\n");
    let ghost p1 = out@;
    if ir_uses_struct_timeval(ir) {
        out.append("#include <sys/time.h>\n\n");
    } else {
        assert(out@ =~= p1 + Seq::<char>::empty());
    }
    out.append("#ifdef __cplusplus\nextern \"C\" {\n#endif\n\n");
    let ghost p2 = out@;
    let mut i: usize = 0;
    assert(ir.opaque_types@.take(0) =~= Seq::<crate::codegen::ir_norm::OpaqueType>::empty());
    while i < ir.opaque_types.len()
        invariant
            i <= ir.opaque_types@.len(),
            out@ == p2 + spec_opaque_decls(ir.opaque_types@.take(i as int)),
        decreases ir.opaque_types@.len() - i,
    {
        assert(ir.opaque_types@.take(i + 1).drop_last() =~= ir.opaque_types@.take(i as int));
        let n = ir.opaque_types[i].name.as_str();
        out.append("typedef struct ");
        out.append(n);
        out.append(" ");
        out.append(n);
        out.append(";\n");
        i += 1;
    }
    assert(ir.opaque_types@.take(ir.opaque_types@.len() as int) =~= ir.opaque_types@);
    let ghost p3 = out@;
    if ir.opaque_types.len() > 0 {
        out.append("\n");
    } else {
        assert(out@ =~= p3 + Seq::<char>::empty());
    }
    let ghost p4 = out@;
    i = 0;
    assert(ir.callbacks@.take(0) =~= Seq::<IrCallback>::empty());
    while i < ir.callbacks.len()
        invariant
            i <= ir.callbacks@.len(),
            out@ == p4 + spec_callback_decls(ir.callbacks@.take(i as int)),
        decreases ir.callbacks@.len() - i,
    {
        assert(ir.callbacks@.take(i + 1).drop_last() =~= ir.callbacks@.take(i as int));
        render_callback_decl(&mut out, &ir.callbacks[i]);
        i += 1;
    }
    assert(ir.callbacks@.take(ir.callbacks@.len() as int) =~= ir.callbacks@);
    let ghost p5 = out@;
    i = 0;
    assert(fs.take(0) =~= Seq::<IrFunctionV>::empty());
    while i < ir.functions.len()
        invariant
            fs == function_views(ir.functions@),
            i <= ir.functions@.len(),
            out@ == p5 + spec_function_decls(fs.take(i as int)),
        decreases ir.functions@.len() - i,
    {
        assert(fs.take(i + 1).drop_last() =~= fs.take(i as int));
        assert(fs.take(i + 1).last() == ir.functions@[i as int]@);
        let d = render_function_decl(&ir.functions[i]);
        out.append(d.as_str());
        out.append("\n");
        i += 1;
    }
    assert(fs.take(ir.functions@.len() as int) =~= fs);
    let ghost p6 = out@;
    i = 0;
    while i < ir.functions.len()
        invariant
            fs == function_views(ir.functions@),
            i <= ir.functions@.len(),
            out@ == p6 + spec_bridge_decls(fs.take(i as int)),
        decreases ir.functions@.len() - i,
    {
        assert(fs.take(i + 1).drop_last() =~= fs.take(i as int));
        assert(fs.take(i + 1).last() == ir.functions@[i as int]@);
        if takes_callback_exec(&ir.functions[i]) {
            let b = make_callback_bridge_function(&ir.functions[i]);
            let d = render_function_decl(&b);
            out.append(d.as_str());
            out.append("\n");
        } else {
            assert(out@ =~= out@ + Seq::<char>::empty());
        }
        i += 1;
    }
    let ghost p7 = out@;
    if any_returns_owned_string_exec(ir) {
        out.append("void ");
        out.append(config.naming.prefix.as_str());
        out.append("_string_free(char* value);\n\n");
    } else {
        assert(out@ =~= p7 + Seq::<char>::empty());
    }
    out.append("#ifdef __cplusplus\n}\n#endif\n\n");
    out.append("#endif /* ");
    out.append(guard.as_str());
    out.append(" */\n");
    out
}

// ---------------------------------------------------------------------------
// The source
// ---------------------------------------------------------------------------

/// `#include "name"` for each source header, by its file name.
pub open spec fn spec_include_lines(headers: Seq<Seq<char>>) -> Seq<char>
    decreases headers.len(),
{
    if headers.len() == 0 {
        Seq::empty()
    } else {
        let h = headers.last();
        spec_include_lines(headers.drop_last()) + "#include \""@ + match crate::facade::path_file_name(
            h,
        ) {
            Some(n) => n,
            None => h,
        } + "\"\n"@
    }
}

/// Each wrapper's definition and a newline.
pub open spec fn spec_function_defs(fs: Seq<IrFunctionV>) -> Seq<char>
    decreases fs.len(),
{
    if fs.len() == 0 {
        Seq::empty()
    } else {
        spec_function_defs(fs.drop_last()) + spec_render_function_def(fs.last()) + "\n"@
    }
}

/// Each bridge's definition and a newline.
pub open spec fn spec_bridge_defs(fs: Seq<IrFunctionV>, cbs: Seq<IrCallback>) -> Seq<char>
    decreases fs.len(),
{
    if fs.len() == 0 {
        Seq::empty()
    } else {
        spec_bridge_defs(fs.drop_last(), cbs) + if takes_callback(fs.last()) {
            spec_render_callback_bridge_def(fs.last(), cbs) + "\n"@
        } else {
            Seq::empty()
        }
    }
}

/// The string release function.
pub open spec fn spec_render_string_free(prefix: Seq<char>) -> Seq<char> {
    "void "@ + prefix + "_string_free(char* value) {\n    std::free(value);\n}\n"@
}

pub fn render_string_free(config: &Config) -> (r: String)
    ensures
        r@ == spec_render_string_free(config.naming.prefix@),
{
    concat3(
        "void ",
        config.naming.prefix.as_str(),
        "_string_free(char* value) {\n    std::free(value);\n}\n",
    )
}

/// The C++ source of the wrappers.
pub open spec fn spec_render_source(config: Config, ir: IrModule) -> Seq<char> {
    let fs = function_views(ir.functions@);
    "#include \""@ + config.output.header@ + "\"\n"@
        + "#include <cstdlib>\n#include <cstring>\n#include <new>\n#include <string>\n\n"@
        + spec_include_lines(text::views(ir.source_headers@)) + "\n"@ + spec_function_defs(fs)
        + spec_bridge_defs(fs, ir.callbacks@) + if any_returns_owned_string(fs) {
        spec_render_string_free(config.naming.prefix@)
    } else {
        Seq::empty()
    }
}

pub fn render_source(config: &Config, ir: &IrModule) -> (r: String)
    requires
        callbacks_resolved(*ir),
    ensures
        r@ == spec_render_source(*config, *ir),
{
    let ghost fs = function_views(ir.functions@);
    let ghost hv = text::views(ir.source_headers@);
    let mut out = concat3("#include \"", config.output.header.as_str(), "\"\n");
    out.append("#include <cstdlib>\n#include <cstring>\n#include <new>\n#include <string>\n\n");
    let ghost p1 = out@;
    let mut i: usize = 0;
    assert(hv.take(0) =~= Seq::<Seq<char>>::empty());
    while i < ir.source_headers.len()
        invariant
            hv == text::views(ir.source_headers@),
            i <= ir.source_headers@.len(),
            out@ == p1 + spec_include_lines(hv.take(i as int)),
        decreases ir.source_headers@.len() - i,
    {
        assert(hv.take(i + 1).drop_last() =~= hv.take(i as int));
        assert(hv.take(i + 1).last() == ir.source_headers@[i as int]@);
        let h = ir.source_headers[i].as_str();
        let name = match crate::facade::file_name(h) {
            Some(n) => n,
            None => owned(h),
        };
        out.append("#include \"");
        out.append(name.as_str());
        out.append("\"\n");
        i += 1;
    }
    assert(hv.take(ir.source_headers@.len() as int) =~= hv);
    out.append("\n");
    let ghost p2 = out@;
    i = 0;
    assert(fs.take(0) =~= Seq::<IrFunctionV>::empty());
    while i < ir.functions.len()
        invariant
            fs == function_views(ir.functions@),
            i <= ir.functions@.len(),
            out@ == p2 + spec_function_defs(fs.take(i as int)),
        decreases ir.functions@.len() - i,
    {
        assert(fs.take(i + 1).drop_last() =~= fs.take(i as int));
        assert(fs.take(i + 1).last() == ir.functions@[i as int]@);
        let d = render_function_def(&ir.functions[i]);
        out.append(d.as_str());
        out.append("\n");
        i += 1;
    }
    assert(fs.take(ir.functions@.len() as int) =~= fs);
    let ghost p3 = out@;
    i = 0;
    while i < ir.functions.len()
        invariant
            fs == function_views(ir.functions@),
            callbacks_resolved(*ir),
            i <= ir.functions@.len(),
            out@ == p3 + spec_bridge_defs(fs.take(i as int), ir.callbacks@),
        decreases ir.functions@.len() - i,
    {
        assert(fs.take(i + 1).drop_last() =~= fs.take(i as int));
        assert(fs.take(i + 1).last() == ir.functions@[i as int]@);
        if takes_callback_exec(&ir.functions[i]) {
            let d = render_callback_bridge_def(ir, i);
            out.append(d.as_str());
            out.append("\n");
        } else {
            assert(out@ =~= out@ + Seq::<char>::empty());
        }
        i += 1;
    }
    let ghost p4 = out@;
    if any_returns_owned_string_exec(ir) {
        let f = render_string_free(config);
        out.append(f.as_str());
    } else {
        assert(out@ =~= p4 + Seq::<char>::empty());
    }
    out
}

/// The Go files of a wrapper set: its Go facade.
pub fn render_go_structs(config: &Config, ir: &IrModule) -> (r: Result<
    Vec<crate::facade::GeneratedGoFile>,
    String,
>)
    ensures
        match crate::facade::spec_render_go_facade(*config, *ir) {
            Ok(files) => r matches Ok(v) && crate::facade::files_view(v@) == files,
            Err(e0) => r matches Err(e) && e@ == e0,
        },
{
    crate::facade::render_go_facade(config, ir)
}


// ---------------------------------------------------------------------------
// Go package metadata and model types
// ---------------------------------------------------------------------------

/// The `go.mod` of a generated package.
pub open spec fn spec_render_go_mod(go_module: Seq<char>) -> Seq<char> {
    "module "@ + go_module + "\n\ngo 1.25\n"@
}

pub fn render_go_mod(go_module: &str) -> (r: String)
    ensures
        r@ == spec_render_go_mod(go_module@),
{
    concat3("module ", go_module, "\n\ngo 1.25\n")
}

/// The clang flags that the Go package passes on to cgo: include
/// directories, macro definitions and the language standard, after the
/// package's own directory.
pub open spec fn spec_exported_flags_from(raw: Seq<Seq<char>>, i: int) -> Seq<Seq<char>>
    decreases raw.len() + 1 - i,
{
    if i >= raw.len() || i < 0 {
        Seq::empty()
    } else {
        let arg = raw[i];
        if arg == "-I"@ || arg == "-isystem"@ || arg == "-D"@ {
            (if i + 1 < raw.len() {
                seq![arg, raw[i + 1]]
            } else {
                Seq::empty()
            }) + spec_exported_flags_from(raw, i + 2)
        } else {
            (if (text::starts_with(arg, "-I"@) && arg.len() > 2) || (text::starts_with(
                arg,
                "-isystem"@,
            ) && arg.len() > 8) || (text::starts_with(arg, "-D"@) && arg.len() > 2)
                || text::starts_with(arg, "-std="@) {
                seq![arg]
            } else {
                Seq::empty()
            }) + spec_exported_flags_from(raw, i + 1)
        }
    }
}

pub open spec fn spec_exported_cxxflags(raw: Seq<Seq<char>>) -> Seq<Seq<char>> {
    seq!["-I${SRCDIR}"@] + spec_exported_flags_from(raw, 0)
}

pub fn exported_cxxflags(raw: &Vec<String>) -> (r: Vec<String>)
    ensures
        text::views(r@) == spec_exported_cxxflags(text::views(raw@)),
{
    let ghost rv = text::views(raw@);
    let mut flags: Vec<String> = Vec::new();
    flags.push(owned("-I${SRCDIR}"));
    let mut index: usize = 0;
    proof {
        reveal_strlit("-isystem");
    }
    while index < raw.len()
        invariant
            rv == text::views(raw@),
            index <= raw@.len(),
            spec_exported_cxxflags(rv) == text::views(flags@) + spec_exported_flags_from(
                rv,
                index as int,
            ),
        decreases raw@.len() + 1 - index,
    {
        let arg = raw[index].as_str();
        let ghost before = text::views(flags@);
        let ghost a = rv[index as int];
        assert(arg@ == a);
        if str_eq(arg, "-I") || str_eq(arg, "-isystem") || str_eq(arg, "-D") {
            if index + 1 < raw.len() {
                flags.push(owned(arg));
                flags.push(raw[index + 1].clone());
                assert(text::views(flags@) =~= before + seq![a, rv[index + 1]]);
            } else {
                assert(text::views(flags@) =~= before + Seq::<Seq<char>>::empty());
            }
            assert(before + (text::views(flags@).skip(before.len() as int)) =~= text::views(flags@));
            let ghost old_index = index;
            index += 1;
            if index < raw.len() {
                index += 1;
            }
            assert(spec_exported_flags_from(rv, old_index + 2) =~= spec_exported_flags_from(
                rv,
                index as int,
            ));
            assert((before + text::views(flags@).skip(before.len() as int)) + spec_exported_flags_from(
                rv,
                index as int,
            ) =~= before + (text::views(flags@).skip(before.len() as int) + spec_exported_flags_from(
                rv,
                index as int,
            )));
        } else {
            let keep = (text::has_prefix(arg, "-I") && arg.unicode_len() > 2) || (text::has_prefix(
                arg,
                "-isystem",
            ) && arg.unicode_len() > 8) || (text::has_prefix(arg, "-D") && arg.unicode_len() > 2)
                || text::has_prefix(arg, "-std=");
            if keep {
                flags.push(owned(arg));
                assert(text::views(flags@) =~= before + seq![a]);
            } else {
                assert(text::views(flags@) =~= before + Seq::<Seq<char>>::empty());
            }
            index += 1;
            assert((before + text::views(flags@).skip(before.len() as int)) + spec_exported_flags_from(
                rv,
                index as int,
            ) =~= before + (text::views(flags@).skip(before.len() as int) + spec_exported_flags_from(
                rv,
                index as int,
            )));
            assert(before + (text::views(flags@).skip(before.len() as int)) =~= text::views(flags@));
        }
    }
    assert(spec_exported_flags_from(rv, index as int) =~= Seq::<Seq<char>>::empty());
    assert(text::views(flags@) + Seq::<Seq<char>>::empty() =~= text::views(flags@));
    flags
}

/// The `build_flags.go` of a generated package.
pub open spec fn spec_render_build_flags(config: Config, raw: Seq<Seq<char>>) -> Seq<char> {
    "package "@ + crate::facade::spec_go_package_name(config.output.dir@)
        + "\n\n/*\n#cgo CFLAGS: -I${SRCDIR}\n#cgo CXXFLAGS: "@ + text::join(
        spec_exported_cxxflags(raw),
        " "@,
    ) + "\n"@ + spec_ldflags_line(text::views(config.input.ldflags@)) + "*/\nimport \"C\"\n"@
}

/// The linker flags line of `build_flags.go`, where any are configured.
pub open spec fn spec_ldflags_line(ldflags: Seq<Seq<char>>) -> Seq<char> {
    if ldflags.len() == 0 {
        Seq::empty()
    } else {
        "#cgo LDFLAGS: "@ + text::join(ldflags, " "@) + "\n"@
    }
}

pub fn render_build_flags(config: &Config, raw_clang_args: &Vec<String>) -> (r: String)
    ensures
        r@ == spec_render_build_flags(*config, text::views(raw_clang_args@)),
{
    let package = crate::facade::go_package_name(config.output.dir.as_str());
    let flags = exported_cxxflags(raw_clang_args);
    let line = text::join_strings(&flags, " ");
    let mut out = concat3(
        "package ",
        package.as_str(),
        "\n\n/*\n#cgo CFLAGS: -I${SRCDIR}\n#cgo CXXFLAGS: ",
    );
    out.append(line.as_str());
    out.append("\n");
    if config.input.ldflags.len() > 0 {
        let ld = text::join_strings(&config.input.ldflags, " ");
        out.append("#cgo LDFLAGS: ");
        out.append(ld.as_str());
        out.append("\n");
    }
    out.append("*/\nimport \"C\"\n");
    out
}

/// The qualified names of the parsed classes, each once, sorted.
pub open spec fn spec_known_model_types(api: crate::parser::ParsedApi) -> Seq<Seq<char>> {
    text::sorted_of(
        Set::new(
            |n: Seq<char>|
                exists|i: int|
                    0 <= i < api.classes@.len() && #[trigger] crate::codegen::ir_norm::class_qualified(
                        api.classes@[i],
                    ) == n,
        ),
    )
}

pub fn collect_known_model_types(parsed: &crate::parser::ParsedApi) -> (r: Vec<String>)
    ensures
        text::sorted_strictly(text::views(r@)),
        text::views(r@) == spec_known_model_types(*parsed),
{
    let mut names: Vec<String> = Vec::new();
    let mut i: usize = 0;
    assert(text::views(names@).to_set() =~= Set::new(
        |n: Seq<char>|
            exists|j: int|
                0 <= j < 0 && #[trigger] crate::codegen::ir_norm::class_qualified(
                    parsed.classes@[j],
                ) == n,
    ));
    while i < parsed.classes.len()
        invariant
            i <= parsed.classes@.len(),
            text::sorted_strictly(text::views(names@)),
            text::views(names@).to_set() == Set::new(
                |n: Seq<char>|
                    exists|j: int|
                        0 <= j < i && #[trigger] crate::codegen::ir_norm::class_qualified(
                            parsed.classes@[j],
                        ) == n,
            ),
        decreases parsed.classes@.len() - i,
    {
        let c = &parsed.classes[i];
        let q = crate::codegen::ir_norm::cpp_qualified(&c.namespace, c.name.as_str());
        if !text::contains_string(&names, q.as_str()) {
            text::insert_sorted(&mut names, q.clone());
        }
        proof {
            let now = text::views(names@).to_set();
            let want = Set::new(
                |n: Seq<char>|
                    exists|j: int|
                        0 <= j < i + 1 && #[trigger] crate::codegen::ir_norm::class_qualified(
                            parsed.classes@[j],
                        ) == n,
            );
            let had = Set::new(
                |n: Seq<char>|
                    exists|j: int|
                        0 <= j < i && #[trigger] crate::codegen::ir_norm::class_qualified(
                            parsed.classes@[j],
                        ) == n,
            );
            assert(crate::codegen::ir_norm::class_qualified(parsed.classes@[i as int]) == q@);
            assert forall|x: Seq<char>| #[trigger] now.contains(x) == want.contains(x) by {
                if want.contains(x) {
                    let j = choose|j: int|
                        0 <= j < i + 1 && #[trigger] crate::codegen::ir_norm::class_qualified(
                            parsed.classes@[j],
                        ) == x;
                    if j < i {
                        assert(had.contains(x));
                    }
                }
                if had.contains(x) {
                    let j = choose|j: int|
                        0 <= j < i && #[trigger] crate::codegen::ir_norm::class_qualified(
                            parsed.classes@[j],
                        ) == x;
                    assert(want.contains(x));
                }
                if x == q@ {
                    assert(want.contains(x));
                }
            }
            assert(now =~= want);
        }
        i += 1;
    }
    proof {
        text::lemma_sorted_of(text::views(names@));
    }
    names
}

/// Which wrapper sets one run generates: one set, for the only header if
/// there is one, or one set per header.
pub enum GenerationTargets {
    Single(Option<String>),
    Each(Vec<String>),
}

/// The error for several headers with explicit output names.
pub open spec fn multi_header_override_message() -> Seq<char> {
    "multi-header generation does not support explicit output.header/source/ir overrides; leave them as defaults to emit one wrapper set per header"@
}

/// The wrapper sets for the generation headers: several headers need the
/// default output names, which are then derived per header.
pub fn generation_targets(config: &Config, headers: Vec<String>) -> (r: Result<GenerationTargets, String>)
    ensures
        headers@.len() > 1 && !crate::config::spec_uses_default_output_names(*config) ==> (r matches Err(
            e,
        ) && e@ == multi_header_override_message()),
        headers@.len() == 0 ==> (r matches Ok(GenerationTargets::Single(None))),
        headers@.len() == 1 ==> (r matches Ok(GenerationTargets::Single(Some(h))) && h@
            == headers@[0]@),
        headers@.len() > 1 && crate::config::spec_uses_default_output_names(*config) ==> (r matches Ok(
            GenerationTargets::Each(hs),
        ) && text::views(hs@) == text::views(headers@)),
{
    if headers.len() > 1 && !config.uses_default_output_names() {
        return Err(owned(
            "multi-header generation does not support explicit output.header/source/ir overrides; leave them as defaults to emit one wrapper set per header",
        ));
    }
    if headers.len() == 0 {
        return Ok(GenerationTargets::Single(None));
    }
    if headers.len() == 1 {
        let h = headers[0].clone();
        return Ok(GenerationTargets::Single(Some(h)));
    }
    Ok(GenerationTargets::Each(headers))
}

/// A C++ reference argument is always a dereference, `*` first. It is the
/// pointer argument dereferenced: for a model reference, `*` before the
/// cast of the handle that a model pointer of the same class gets; for an
/// external struct reference, `*` before the pointer passed as it is.
pub proof fn law_reference_args_dereference(t: IrTypeV, name: Seq<char>)
    ensures
        t.kind == IrTypeKind::ModelReference ==> spec_render_cpp_arg(t, name) == "*"@ + spec_render_cpp_arg(
            IrTypeV { kind: IrTypeKind::ModelPointer, ..t },
            name,
        ),
        t.kind == IrTypeKind::ExternStructReference ==> spec_render_cpp_arg(t, name) == "*"@
            + spec_render_cpp_arg(IrTypeV { kind: IrTypeKind::ExternStructPointer, ..t }, name),
        t.kind == IrTypeKind::Reference || t.kind == IrTypeKind::ModelReference || t.kind
            == IrTypeKind::ExternStructReference ==> text::starts_with(spec_render_cpp_arg(t, name), "*"@),
{
    reveal_strlit("*");
    reveal_strlit("*reinterpret_cast<");
    assert("*reinterpret_cast<"@[0] == '*');
    let r = spec_render_cpp_arg(t, name);
    if t.kind == IrTypeKind::Reference || t.kind == IrTypeKind::ModelReference || t.kind
        == IrTypeKind::ExternStructReference {
        assert(r[0] == '*');
        assert(r.take(1) =~= "*"@);
    }
    reveal_strlit("reinterpret_cast<");
    let p = IrTypeV { kind: IrTypeKind::ModelPointer, ..t };
    let b = spec_base_model_cpp_type(t.cpp_type);
    assert("*reinterpret_cast<"@ =~= "*"@ + "reinterpret_cast<"@);
    assert("*reinterpret_cast<"@ + b + "*>("@ + name + ")"@ =~= "*"@ + ("reinterpret_cast<"@ + b + "*>("@
        + name + ")"@));
}

// ---------------------------------------------------------------------------
// Preparing a run
// ---------------------------------------------------------------------------

/// How normalization fails for a config, as `normalize` says.
pub open spec fn normalize_fails_with(c: Config, api: crate::parser::ParsedApi, e: Seq<char>) -> bool {
    match crate::codegen::ir_norm::spec_normalize_pre(c, api) {
        Err(e0) => e == e0,
        Ok(pre) => !crate::codegen::ir_norm::names_unique(crate::codegen::ir_norm::spec_assign_unique(pre.0))
            && exists|syms: Seq<Seq<char>>|
            text::sorted_strictly(syms) && syms.to_set() == crate::codegen::ir_norm::duplicated_names(
                crate::codegen::ir_norm::spec_assign_unique(pre.0),
            ) && e == crate::codegen::ir_norm::collision_message(
                crate::codegen::ir_norm::spec_assign_unique(pre.0),
                syms,
            ),
    }
}

/// The wrappers that normalization gives for a config, where it succeeds.
pub open spec fn normalized_functions(c: Config, api: crate::parser::ParsedApi) -> Seq<IrFunctionV> {
    crate::codegen::ir_norm::spec_assign_unique(crate::codegen::ir_norm::spec_normalize_pre(c, api)->Ok_0.0)
}

/// Whether normalization succeeds for a config.
pub open spec fn normalizes(c: Config, api: crate::parser::ParsedApi) -> bool {
    crate::codegen::ir_norm::spec_normalize_pre(c, api) is Ok && crate::codegen::ir_norm::names_unique(
        normalized_functions(c, api),
    )
}

/// The config of a run: the parsed classes as the known model types, and
/// the model projections that the normalized wrappers give under it.
/// Whether a run with `config` fails with `e` by way of `c1`: the config
/// with the parsed classes as known model types, on which normalization
/// fails with `e`, or succeeds and the projections fail with `e`.
pub open spec fn run_fails_with(
    config: Config,
    c1: Config,
    parsed: crate::parser::ParsedApi,
    e: Seq<char>,
) -> bool {
    &&& c1 == (Config { known_model_types: c1.known_model_types, ..config })
    &&& text::views(c1.known_model_types@) == spec_known_model_types(parsed)
    &&& (normalize_fails_with(c1, parsed, e) || (normalizes(c1, parsed)
        && crate::facade::projection::projections_from(
        normalized_functions(c1, parsed),
        crate::facade::projection::method_owners(normalized_functions(c1, parsed)),
        config.output.header@,
    ) == Err::<Seq<crate::config::KnownModelProjectionV>, Seq<char>>(e)))
}

/// Whether a run with `config` fails with `e`.
pub open spec fn run_error(config: Config, parsed: crate::parser::ParsedApi, e: Seq<char>) -> bool {
    exists|c1: Config| #[trigger] run_fails_with(config, c1, parsed, e)
}

/// The config of a run: the parsed classes as the known model types, and
/// the model projections that the normalized wrappers give under it.
#[verifier::spinoff_prover]
pub fn build_pipeline_context(config: Config, parsed: &crate::parser::ParsedApi) -> (r: Result<Config, String>)
    ensures
        match r {
            Ok(c) => {
                let c1 = Config { known_model_projections: config.known_model_projections, ..c };
                &&& c1 == (Config { known_model_types: c1.known_model_types, ..config })
                &&& text::views(c.known_model_types@) == spec_known_model_types(*parsed)
                &&& normalizes(c1, *parsed)
                &&& crate::facade::projection::projections_from(
                    normalized_functions(c1, *parsed),
                    crate::facade::projection::method_owners(normalized_functions(c1, *parsed)),
                    config.output.header@,
                ) == Ok::<Seq<crate::config::KnownModelProjectionV>, Seq<char>>(
                    crate::facade::projection::projection_views(c.known_model_projections@),
                )
            },
            Err(e) => run_error(config, *parsed, e@),
        },
{
    let ghost cfg = config;
    let known = collect_known_model_types(parsed);
    let c1 = config.with_known_model_types(known);
    let ir = match crate::codegen::ir_norm::normalize(&c1, parsed) {
        Ok(m) => m,
        Err(e) => {
            assert(normalize_fails_with(c1, *parsed, e@));
            assert(run_fails_with(cfg, c1, *parsed, e@));
            return Err(e);
        },
    };
    assert(crate::codegen::ir_norm::spec_normalize_pre(c1, *parsed) is Ok);
    assert(normalizes(c1, *parsed));
    assert(crate::codegen::ir_norm::function_views(ir.functions@) == normalized_functions(c1, *parsed));
    let projections = match crate::facade::collect_known_model_projections(&c1, &ir) {
        Ok(ps) => ps,
        Err(e) => {
            assert(run_fails_with(cfg, c1, *parsed, e@));
            return Err(e);
        },
    };
    let c = c1.with_known_model_projections(projections);
    assert((Config { known_model_projections: cfg.known_model_projections, ..c }) == c1);
    Ok(c)
}

// ---------------------------------------------------------------------------
// Laws
// ---------------------------------------------------------------------------

/// A flag that the Go package may pass on: an include directory, a macro
/// definition or the language standard.
pub open spec fn is_exported_flag(a: Seq<char>) -> bool {
    text::starts_with(a, "-I"@) || text::starts_with(a, "-isystem"@) || text::starts_with(a, "-D"@)
        || text::starts_with(a, "-std="@)
}

/// A flag that takes the next argument as its operand.
pub open spec fn is_bare_operand_flag(a: Seq<char>) -> bool {
    a == "-I"@ || a == "-isystem"@ || a == "-D"@
}

/// What the exported flags are made of: each is an allowed flag or the
/// operand right after a bare one, and each comes from the raw arguments.
pub open spec fn exported_flags_allowed(raw: Seq<Seq<char>>, r: Seq<Seq<char>>) -> bool {
    forall|k: int|
        0 <= k < r.len() ==> raw.contains(#[trigger] r[k]) && (is_exported_flag(r[k]) || (k > 0
            && is_bare_operand_flag(r[k - 1])))
}

proof fn lemma_exported_flags_from_allowed(raw: Seq<Seq<char>>, i: int)
    ensures
        exported_flags_allowed(raw, spec_exported_flags_from(raw, i)),
    decreases raw.len() + 1 - i,
{
    if i >= raw.len() || i < 0 {
    } else {
        let arg = raw[i];
        let r = spec_exported_flags_from(raw, i);
        if arg == "-I"@ || arg == "-isystem"@ || arg == "-D"@ {
            lemma_exported_flags_from_allowed(raw, i + 2);
            let rest = spec_exported_flags_from(raw, i + 2);
            if i + 1 < raw.len() {
                assert(r == seq![arg, raw[i + 1]] + rest);
                assert forall|k: int| 0 <= k < r.len() implies raw.contains(#[trigger] r[k]) && (
                is_exported_flag(r[k]) || (k > 0 && is_bare_operand_flag(r[k - 1]))) by {
                    if k == 0 {
                        assert(r[0] == raw[i]);
                        assert(arg.take(arg.len() as int) =~= arg);
                    } else if k == 1 {
                        assert(r[1] == raw[i + 1]);
                        assert(r[0] == arg);
                    } else {
                        assert(r[k] == rest[k - 2]);
                        if k - 2 > 0 {
                            assert(r[k - 1] == rest[k - 3]);
                        }
                    }
                }
            } else {
                assert(r == Seq::<Seq<char>>::empty() + rest);
                assert(r =~= rest);
            }
        } else {
            lemma_exported_flags_from_allowed(raw, i + 1);
            let rest = spec_exported_flags_from(raw, i + 1);
            if (text::starts_with(arg, "-I"@) && arg.len() > 2) || (text::starts_with(arg, "-isystem"@)
                && arg.len() > 8) || (text::starts_with(arg, "-D"@) && arg.len() > 2)
                || text::starts_with(arg, "-std="@) {
                assert(r == seq![arg] + rest);
                assert forall|k: int| 0 <= k < r.len() implies raw.contains(#[trigger] r[k]) && (
                is_exported_flag(r[k]) || (k > 0 && is_bare_operand_flag(r[k - 1]))) by {
                    if k == 0 {
                        assert(r[0] == raw[i]);
                    } else {
                        assert(r[k] == rest[k - 1]);
                        if k - 1 > 0 {
                            assert(r[k - 1] == rest[k - 2]);
                        }
                    }
                }
            } else {
                assert(r == Seq::<Seq<char>>::empty() + rest);
                assert(r =~= rest);
            }
        }
    }
}

/// The C++ flags that `build_flags.go` exports start with the package's
/// own directory; every other one is an include directory, a macro
/// definition, the language standard, or the operand of a bare `-I`,
/// `-isystem` or `-D`, and comes from the raw configured arguments.
pub proof fn law_exported_cxxflags_allowed(raw: Seq<Seq<char>>)
    ensures
        spec_exported_cxxflags(raw)[0] == "-I${SRCDIR}"@,
        exported_flags_allowed(raw, spec_exported_cxxflags(raw).drop_first()),
{
    lemma_exported_flags_from_allowed(raw, 0);
    assert(spec_exported_cxxflags(raw).drop_first() =~= spec_exported_flags_from(raw, 0));
}

/// `build_flags.go` always passes `-I${SRCDIR}` to cgo as a C flag.
pub proof fn law_build_flags_srcdir(config: Config, raw: Seq<Seq<char>>)
    ensures
        text::contains_str(spec_render_build_flags(config, raw), "#cgo CFLAGS: -I${SRCDIR}\n"@),
{
    let head = "package "@ + crate::facade::spec_go_package_name(config.output.dir@) + "\n\n/*\n"@;
    let lit = "\n\n/*\n#cgo CFLAGS: -I${SRCDIR}\n#cgo CXXFLAGS: "@;
    let want = "#cgo CFLAGS: -I${SRCDIR}\n"@;
    let r = spec_render_build_flags(config, raw);
    reveal_strlit("\n\n/*\n#cgo CFLAGS: -I${SRCDIR}\n#cgo CXXFLAGS: ");
    reveal_strlit("#cgo CFLAGS: -I${SRCDIR}\n");
    reveal_strlit("package ");
    reveal_strlit("\n\n/*\n");
    let i = head.len() as int;
    let pre = "package "@ + crate::facade::spec_go_package_name(config.output.dir@);
    assert(lit.skip(5).take(want.len() as int) =~= want);
    assert(r.skip(i).take(want.len() as int) =~= want) by {
        assert(r.skip(i).take(want.len() as int) =~= lit.skip(5).take(want.len() as int));
    }
    assert(text::starts_with(r.skip(i), want));
}

proof fn lemma_contains_tail(prev: Seq<char>, line: Seq<char>)
    ensures
        text::contains_str(prev + line, line),
{
    assert((prev + line).skip(prev.len() as int) =~= line);
    assert(line.take(line.len() as int) =~= line);
    assert(text::starts_with((prev + line).skip(prev.len() as int), line));
}

/// The typedef line of an opaque handle type.
pub open spec fn opaque_decl_line(name: Seq<char>) -> Seq<char> {
    "typedef struct "@ + name + " "@ + name + ";\n"@
}

proof fn lemma_opaque_decls_contain(os: Seq<crate::codegen::ir_norm::OpaqueType>, k: int)
    requires
        0 <= k < os.len(),
    ensures
        text::contains_str(spec_opaque_decls(os), opaque_decl_line(os[k].name@)),
    decreases os.len(),
{
    let pre = os.drop_last();
    let line = opaque_decl_line(os.last().name@);
    let all = spec_opaque_decls(os);
    assert(all =~= spec_opaque_decls(pre) + line);
    if k == os.len() - 1 {
        lemma_contains_tail(spec_opaque_decls(pre), line);
    } else {
        assert(pre[k] == os[k]);
        lemma_opaque_decls_contain(pre, k);
        text::lemma_contains_in_middle(Seq::empty(), spec_opaque_decls(pre), line, opaque_decl_line(os[k].name@));
        assert(Seq::<char>::empty() + spec_opaque_decls(pre) + line =~= all);
    }
}

/// The include line of a source header: by its file name.
pub open spec fn include_line(h: Seq<char>) -> Seq<char> {
    "#include \""@ + match crate::facade::path_file_name(h) {
        Some(n) => n,
        None => h,
    } + "\"\n"@
}

proof fn lemma_include_lines_contain(hs: Seq<Seq<char>>, k: int)
    requires
        0 <= k < hs.len(),
    ensures
        text::contains_str(spec_include_lines(hs), include_line(hs[k])),
    decreases hs.len(),
{
    let pre = hs.drop_last();
    let line = include_line(hs.last());
    let all = spec_include_lines(hs);
    assert(all =~= spec_include_lines(pre) + line);
    if k == hs.len() - 1 {
        lemma_contains_tail(spec_include_lines(pre), line);
    } else {
        assert(pre[k] == hs[k]);
        lemma_include_lines_contain(pre, k);
        text::lemma_contains_in_middle(Seq::empty(), spec_include_lines(pre), line, include_line(hs[k]));
        assert(Seq::<char>::empty() + spec_include_lines(pre) + line =~= all);
    }
}

proof fn lemma_decls_contain(fs: Seq<IrFunctionV>, k: int)
    requires
        0 <= k < fs.len(),
    ensures
        text::contains_str(spec_function_decls(fs), spec_render_function_decl(fs[k]) + "\n"@),
    decreases fs.len(),
{
    let pre = fs.drop_last();
    let line = spec_render_function_decl(fs.last()) + "\n"@;
    let all = spec_function_decls(fs);
    assert(all =~= spec_function_decls(pre) + line);
    if k == fs.len() - 1 {
        assert(all.skip(spec_function_decls(pre).len() as int) =~= line);
        assert(line.take(line.len() as int) =~= line);
        assert(text::starts_with(all.skip(spec_function_decls(pre).len() as int), line));
    } else {
        assert(pre[k] == fs[k]);
        lemma_decls_contain(pre, k);
        text::lemma_contains_in_middle(Seq::empty(), spec_function_decls(pre), line, spec_render_function_decl(fs[k]) + "\n"@);
        assert(Seq::<char>::empty() + spec_function_decls(pre) + line =~= all);
    }
}

proof fn lemma_defs_contain(fs: Seq<IrFunctionV>, k: int)
    requires
        0 <= k < fs.len(),
    ensures
        text::contains_str(spec_function_defs(fs), spec_render_function_def(fs[k]) + "\n"@),
    decreases fs.len(),
{
    let pre = fs.drop_last();
    let line = spec_render_function_def(fs.last()) + "\n"@;
    let all = spec_function_defs(fs);
    assert(all =~= spec_function_defs(pre) + line);
    if k == fs.len() - 1 {
        assert(all.skip(spec_function_defs(pre).len() as int) =~= line);
        assert(line.take(line.len() as int) =~= line);
        assert(text::starts_with(all.skip(spec_function_defs(pre).len() as int), line));
    } else {
        assert(pre[k] == fs[k]);
        lemma_defs_contain(pre, k);
        text::lemma_contains_in_middle(Seq::empty(), spec_function_defs(pre), line, spec_render_function_def(fs[k]) + "\n"@);
        assert(Seq::<char>::empty() + spec_function_defs(pre) + line =~= all);
    }
}

/// The header up to the opaque typedefs.
pub open spec fn header_part3(config: Config, ir: IrModule) -> Seq<char> {
    let g = spec_include_guard(config);
    "#ifndef "@ + g + "\n#define "@ + g + "\n\n"@
        + "#include <stdbool.h>\n#include <stddef.h>\n#include <stdint.h>\n\n"@ + (
    if spec_ir_uses_struct_timeval(ir) {
        "#include <sys/time.h>\n\n"@
    } else {
        Seq::empty()
    }) + "#ifdef __cplusplus\nextern \"C\" {\n#endif\n\n"@
}

/// The header up to the wrapper declarations.
pub open spec fn header_part6(config: Config, ir: IrModule) -> Seq<char> {
    header_part3(config, ir) + spec_opaque_decls(ir.opaque_types@) + (if ir.opaque_types@.len() > 0 {
        "\n"@
    } else {
        Seq::empty()
    }) + spec_callback_decls(ir.callbacks@)
}

/// The header after the wrapper declarations, before the closing guard.
pub open spec fn header_part_after(config: Config, ir: IrModule) -> Seq<char> {
    let fs = function_views(ir.functions@);
    spec_bridge_decls(fs) + (if any_returns_owned_string(fs) {
        "void "@ + config.naming.prefix@ + "_string_free(char* value);\n\n"@
    } else {
        Seq::empty()
    }) + "#ifdef __cplusplus\n}\n#endif\n\n"@
}

#[verifier::spinoff_prover]
proof fn lemma_header_parts(config: Config, ir: IrModule)
    ensures
        spec_render_header(config, ir) == header_part6(config, ir) + spec_function_decls(
            function_views(ir.functions@),
        ) + (header_part_after(config, ir) + ("#endif /* "@ + spec_include_guard(config) + " */\n"@)),
{
    assert(spec_render_header(config, ir) =~= header_part6(config, ir) + spec_function_decls(
        function_views(ir.functions@),
    ) + (header_part_after(config, ir) + ("#endif /* "@ + spec_include_guard(config) + " */\n"@)));
}

proof fn lemma_part6_contains_opaque(config: Config, ir: IrModule, k: int)
    requires
        0 <= k < ir.opaque_types@.len(),
    ensures
        text::contains_str(header_part6(config, ir), opaque_decl_line(ir.opaque_types@[k].name@)),
{
    let line = opaque_decl_line(ir.opaque_types@[k].name@);
    lemma_opaque_decls_contain(ir.opaque_types@, k);
    let nl: Seq<char> = if ir.opaque_types@.len() > 0 {
        "\n"@
    } else {
        Seq::empty()
    };
    text::lemma_contains_in_middle(
        header_part3(config, ir),
        spec_opaque_decls(ir.opaque_types@),
        nl + spec_callback_decls(ir.callbacks@),
        line,
    );
    assert(header_part3(config, ir) + spec_opaque_decls(ir.opaque_types@) + (nl + spec_callback_decls(
        ir.callbacks@,
    )) =~= header_part6(config, ir));
}

/// The C header opens and closes with its include guard, declares each
/// opaque handle type with a typedef, and declares every wrapper of the
/// module on a line of its own.
#[verifier::spinoff_prover]
pub proof fn law_header_structure(config: Config, ir: IrModule)
    ensures
        text::starts_with(
            spec_render_header(config, ir),
            "#ifndef "@ + spec_include_guard(config) + "\n#define "@ + spec_include_guard(config) + "\n\n"@,
        ),
        text::ends_with(spec_render_header(config, ir), "#endif /* "@ + spec_include_guard(config) + " */\n"@),
        forall|k: int|
            0 <= k < ir.functions@.len() ==> text::contains_str(
                spec_render_header(config, ir),
                spec_render_function_decl(#[trigger] function_views(ir.functions@)[k]) + "\n"@,
            ),
        forall|k: int|
            0 <= k < ir.opaque_types@.len() ==> text::contains_str(
                spec_render_header(config, ir),
                opaque_decl_line((#[trigger] ir.opaque_types@[k]).name@),
            ),
{
    let g = spec_include_guard(config);
    let fs = function_views(ir.functions@);
    let h = spec_render_header(config, ir);
    let head = "#ifndef "@ + g + "\n#define "@ + g + "\n\n"@;
    let tail = "#endif /* "@ + g + " */\n"@;
    let p6 = header_part6(config, ir);
    let decls = spec_function_decls(fs);
    let rest = header_part_after(config, ir) + tail;
    lemma_header_parts(config, ir);
    assert(h.take(head.len() as int) =~= head);
    assert(h.skip(h.len() - tail.len()) =~= tail);
    assert forall|k: int| 0 <= k < ir.functions@.len() implies text::contains_str(
        h,
        spec_render_function_decl(#[trigger] fs[k]) + "\n"@,
    ) by {
        lemma_decls_contain(fs, k);
        text::lemma_contains_in_middle(p6, decls, rest, spec_render_function_decl(fs[k]) + "\n"@);
    }
    assert forall|k: int| 0 <= k < ir.opaque_types@.len() implies text::contains_str(
        h,
        opaque_decl_line((#[trigger] ir.opaque_types@[k]).name@),
    ) by {
        let line = opaque_decl_line(ir.opaque_types@[k].name@);
        lemma_part6_contains_opaque(config, ir, k);
        text::lemma_contains_in_middle(Seq::empty(), p6, decls + rest, line);
        assert(Seq::<char>::empty() + p6 + (decls + rest) =~= h);
    }
}

/// The C++ source includes the C header first, includes each source
/// header by its file name, and defines every wrapper of the module (the
/// constructors and destructors by their bodies).
#[verifier::spinoff_prover]
pub proof fn law_source_structure(config: Config, ir: IrModule)
    ensures
        text::starts_with(spec_render_source(config, ir), "#include \""@ + config.output.header@ + "\"\n"@),
        forall|k: int|
            0 <= k < ir.functions@.len() ==> text::contains_str(
                spec_render_source(config, ir),
                spec_render_function_def(#[trigger] function_views(ir.functions@)[k]) + "\n"@,
            ),
        forall|k: int|
            0 <= k < ir.source_headers@.len() ==> text::contains_str(
                spec_render_source(config, ir),
                include_line((#[trigger] ir.source_headers@[k])@),
            ),
{
    let fs = function_views(ir.functions@);
    let src = spec_render_source(config, ir);
    let head = "#include \""@ + config.output.header@ + "\"\n"@;
    let before = head + "#include <cstdlib>\n#include <cstring>\n#include <new>\n#include <string>\n\n"@
        + spec_include_lines(text::views(ir.source_headers@)) + "\n"@;
    let after = spec_bridge_defs(fs, ir.callbacks@) + if any_returns_owned_string(fs) {
        spec_render_string_free(config.naming.prefix@)
    } else {
        Seq::empty()
    };
    assert(src =~= before + spec_function_defs(fs) + after);
    assert(src.take(head.len() as int) =~= head);
    assert forall|k: int| 0 <= k < ir.functions@.len() implies text::contains_str(
        src,
        spec_render_function_def(#[trigger] fs[k]) + "\n"@,
    ) by {
        lemma_defs_contain(fs, k);
        text::lemma_contains_in_middle(before, spec_function_defs(fs), after, spec_render_function_def(fs[k]) + "\n"@);
    }
    let hv = text::views(ir.source_headers@);
    let lits = head + "#include <cstdlib>\n#include <cstring>\n#include <new>\n#include <string>\n\n"@;
    assert forall|k: int| 0 <= k < ir.source_headers@.len() implies text::contains_str(
        src,
        include_line((#[trigger] ir.source_headers@[k])@),
    ) by {
        assert(hv[k] == ir.source_headers@[k]@);
        lemma_include_lines_contain(hv, k);
        text::lemma_contains_in_middle(
            lits,
            spec_include_lines(hv),
            "\n"@ + spec_function_defs(fs) + after,
            include_line(hv[k]),
        );
        assert(lits + spec_include_lines(hv) + ("\n"@ + spec_function_defs(fs) + after) =~= src);
    }
}

} // verus!
