//! The Go facade: idiomatic Go functions and types over the C ABI wrappers,
//! for the declarations whose types Go can carry.
use vstd::prelude::*;
use crate::codegen::ir_norm::{
    param_views, spec_base_model_cpp_type, spec_flatten_qualified_cpp_name, IrCallback, IrEnum,
    IrFunction, IrFunctionV, IrModule, IrParam, IrParamV, IrType, IrTypeV,
};
use crate::config::{projection_matches, Config, KnownModelField, KnownModelProjection};
use crate::domain::kind::{IrFunctionKind, IrTypeKind};
use crate::text;
use crate::text::{concat2, concat3, concat4, concat5, opt_view, owned, str_eq};

pub mod projection;

pub use crate::facade::projection::collect_known_model_projections;

verus! {

// ---------------------------------------------------------------------------
// Type keys and primitive mappings
// ---------------------------------------------------------------------------

/// A type spelling reduced to a lookup key: blanks removed, a leading
/// `const` and trailing `&` and `*` dropped.
pub open spec fn spec_normalize_type_key(value: Seq<char>) -> Seq<char> {
    text::trim_end_char(
        text::trim_end_char(
            text::trim_start_matches(text::replace_char(value, ' ', ""@), "const"@),
            '&',
        ),
        '*',
    )
}

pub fn normalize_type_key(value: &str) -> (r: String)
    ensures
        r@ == spec_normalize_type_key(value@),
{
    let a = text::replace_char_str(value, ' ', "");
    let b = text::trim_start_matches_str(a.as_str(), "const");
    let c = text::trim_end_char_str(b.as_str(), '&');
    text::trim_end_char_str(c.as_str(), '*')
}

/// The Go type of a primitive type key.
pub open spec fn key_go_type(k: Seq<char>) -> Option<Seq<char>> {
    if k == "bool"@ {
        Some("bool"@)
    } else if k == "float"@ {
        Some("float32"@)
    } else if k == "double"@ {
        Some("float64"@)
    } else if k == "int8"@ || k == "int8_t"@ || k == "signedchar"@ {
        Some("int8"@)
    } else if k == "int16"@ || k == "int16_t"@ || k == "short"@ {
        Some("int16"@)
    } else if k == "int32"@ || k == "int32_t"@ {
        Some("int32"@)
    } else if k == "int64"@ || k == "int64_t"@ || k == "long"@ || k == "longlong"@ {
        Some("int64"@)
    } else if k == "uint8"@ || k == "uint8_t"@ || k == "unsignedchar"@ {
        Some("uint8"@)
    } else if k == "uint16"@ || k == "uint16_t"@ || k == "unsignedshort"@ {
        Some("uint16"@)
    } else if k == "uint32"@ || k == "uint32_t"@ || k == "unsignedint"@ || k == "unsigned"@ {
        Some("uint32"@)
    } else if k == "int"@ {
        Some("int"@)
    } else if k == "uint64"@ || k == "uint64_t"@ || k == "unsignedlong"@ || k
        == "unsignedlonglong"@ {
        Some("uint64"@)
    } else if k == "size_t"@ {
        Some("uintptr"@)
    } else {
        None
    }
}

/// The Go type of a primitive C++ type spelling.
pub open spec fn spec_primitive_go_type(value: Seq<char>) -> Option<Seq<char>> {
    key_go_type(spec_normalize_type_key(value))
}

pub fn primitive_go_type(value: &str) -> (r: Option<String>)
    ensures
        opt_view(r) == spec_primitive_go_type(value@),
{
    let key = normalize_type_key(value);
    let k = key.as_str();
    if str_eq(k, "bool") {
        Some(owned("bool"))
    } else if str_eq(k, "float") {
        Some(owned("float32"))
    } else if str_eq(k, "double") {
        Some(owned("float64"))
    } else if str_eq(k, "int8") || str_eq(k, "int8_t") || str_eq(k, "signedchar") {
        Some(owned("int8"))
    } else if str_eq(k, "int16") || str_eq(k, "int16_t") || str_eq(k, "short") {
        Some(owned("int16"))
    } else if str_eq(k, "int32") || str_eq(k, "int32_t") {
        Some(owned("int32"))
    } else if str_eq(k, "int64") || str_eq(k, "int64_t") || str_eq(k, "long") || str_eq(
        k,
        "longlong",
    ) {
        Some(owned("int64"))
    } else if str_eq(k, "uint8") || str_eq(k, "uint8_t") || str_eq(k, "unsignedchar") {
        Some(owned("uint8"))
    } else if str_eq(k, "uint16") || str_eq(k, "uint16_t") || str_eq(k, "unsignedshort") {
        Some(owned("uint16"))
    } else if str_eq(k, "uint32") || str_eq(k, "uint32_t") || str_eq(k, "unsignedint") || str_eq(
        k,
        "unsigned",
    ) {
        Some(owned("uint32"))
    } else if str_eq(k, "int") {
        Some(owned("int"))
    } else if str_eq(k, "uint64") || str_eq(k, "uint64_t") || str_eq(k, "unsignedlong") || str_eq(
        k,
        "unsignedlonglong",
    ) {
        Some(owned("uint64"))
    } else if str_eq(k, "size_t") {
        Some(owned("uintptr"))
    } else {
        None
    }
}

/// The cgo conversion of a primitive type key.
pub open spec fn key_cgo_cast(k: Seq<char>) -> Option<Seq<char>> {
    if k == "bool"@ {
        Some("C.bool"@)
    } else if k == "float"@ {
        Some("C.float"@)
    } else if k == "double"@ {
        Some("C.double"@)
    } else if k == "int8"@ || k == "int8_t"@ || k == "signedchar"@ {
        Some("C.int8_t"@)
    } else if k == "int16"@ || k == "int16_t"@ || k == "short"@ {
        Some("C.int16_t"@)
    } else if k == "int32"@ || k == "int32_t"@ {
        Some("C.int32_t"@)
    } else if k == "int64"@ || k == "int64_t"@ {
        Some("C.int64_t"@)
    } else if k == "uint8"@ || k == "uint8_t"@ || k == "unsignedchar"@ {
        Some("C.uint8_t"@)
    } else if k == "uint16"@ || k == "uint16_t"@ || k == "unsignedshort"@ {
        Some("C.uint16_t"@)
    } else if k == "uint32"@ || k == "uint32_t"@ || k == "unsignedint"@ || k == "unsigned"@ {
        Some("C.uint32_t"@)
    } else if k == "uint64"@ || k == "uint64_t"@ {
        Some("C.uint64_t"@)
    } else if k == "int"@ {
        Some("C.int"@)
    } else if k == "long"@ {
        Some("C.long"@)
    } else if k == "size_t"@ {
        Some("C.size_t"@)
    } else {
        None
    }
}

pub open spec fn spec_primitive_cgo_cast_type(value: Seq<char>) -> Option<Seq<char>> {
    key_cgo_cast(spec_normalize_type_key(value))
}

pub fn primitive_cgo_cast_type(value: &str) -> (r: Option<String>)
    ensures
        opt_view(r) == spec_primitive_cgo_cast_type(value@),
{
    let key = normalize_type_key(value);
    let k = key.as_str();
    if str_eq(k, "bool") {
        Some(owned("C.bool"))
    } else if str_eq(k, "float") {
        Some(owned("C.float"))
    } else if str_eq(k, "double") {
        Some(owned("C.double"))
    } else if str_eq(k, "int8") || str_eq(k, "int8_t") || str_eq(k, "signedchar") {
        Some(owned("C.int8_t"))
    } else if str_eq(k, "int16") || str_eq(k, "int16_t") || str_eq(k, "short") {
        Some(owned("C.int16_t"))
    } else if str_eq(k, "int32") || str_eq(k, "int32_t") {
        Some(owned("C.int32_t"))
    } else if str_eq(k, "int64") || str_eq(k, "int64_t") {
        Some(owned("C.int64_t"))
    } else if str_eq(k, "uint8") || str_eq(k, "uint8_t") || str_eq(k, "unsignedchar") {
        Some(owned("C.uint8_t"))
    } else if str_eq(k, "uint16") || str_eq(k, "uint16_t") || str_eq(k, "unsignedshort") {
        Some(owned("C.uint16_t"))
    } else if str_eq(k, "uint32") || str_eq(k, "uint32_t") || str_eq(k, "unsignedint") || str_eq(
        k,
        "unsigned",
    ) {
        Some(owned("C.uint32_t"))
    } else if str_eq(k, "uint64") || str_eq(k, "uint64_t") {
        Some(owned("C.uint64_t"))
    } else if str_eq(k, "int") {
        Some(owned("C.int"))
    } else if str_eq(k, "long") {
        Some(owned("C.long"))
    } else if str_eq(k, "size_t") {
        Some(owned("C.size_t"))
    } else {
        None
    }
}

/// The Go type of a C type spelling, `int` where none matches.
pub open spec fn spec_go_type_from_c_type(c_type: Seq<char>) -> Seq<char> {
    let k = spec_normalize_type_key(c_type);
    if k == "bool"@ {
        "bool"@
    } else if k == "float"@ {
        "float32"@
    } else if k == "double"@ {
        "float64"@
    } else if k == "int8"@ || k == "int8_t"@ {
        "int8"@
    } else if k == "int16"@ || k == "int16_t"@ || k == "short"@ {
        "int16"@
    } else if k == "int32"@ || k == "int32_t"@ || k == "int"@ {
        "int32"@
    } else if k == "int64"@ || k == "int64_t"@ || k == "long"@ {
        "int64"@
    } else if k == "uint8"@ || k == "uint8_t"@ {
        "uint8"@
    } else if k == "uint16"@ || k == "uint16_t"@ {
        "uint16"@
    } else if k == "uint32"@ || k == "uint32_t"@ || k == "unsignedint"@ || k == "unsigned"@ {
        "uint32"@
    } else if k == "uint64"@ || k == "uint64_t"@ || k == "unsignedlong"@ || k
        == "unsignedlonglong"@ {
        "uint64"@
    } else if k == "size_t"@ {
        "uintptr"@
    } else {
        "int"@
    }
}

pub fn go_type_from_c_type(c_type: &str) -> (r: String)
    ensures
        r@ == spec_go_type_from_c_type(c_type@),
{
    let key = normalize_type_key(c_type);
    let k = key.as_str();
    if str_eq(k, "bool") {
        owned("bool")
    } else if str_eq(k, "float") {
        owned("float32")
    } else if str_eq(k, "double") {
        owned("float64")
    } else if str_eq(k, "int8") || str_eq(k, "int8_t") {
        owned("int8")
    } else if str_eq(k, "int16") || str_eq(k, "int16_t") || str_eq(k, "short") {
        owned("int16")
    } else if str_eq(k, "int32") || str_eq(k, "int32_t") || str_eq(k, "int") {
        owned("int32")
    } else if str_eq(k, "int64") || str_eq(k, "int64_t") || str_eq(k, "long") {
        owned("int64")
    } else if str_eq(k, "uint8") || str_eq(k, "uint8_t") {
        owned("uint8")
    } else if str_eq(k, "uint16") || str_eq(k, "uint16_t") {
        owned("uint16")
    } else if str_eq(k, "uint32") || str_eq(k, "uint32_t") || str_eq(k, "unsignedint") || str_eq(
        k,
        "unsigned",
    ) {
        owned("uint32")
    } else if str_eq(k, "uint64") || str_eq(k, "uint64_t") || str_eq(k, "unsignedlong") || str_eq(
        k,
        "unsignedlonglong",
    ) {
        owned("uint64")
    } else if str_eq(k, "size_t") {
        owned("uintptr")
    } else {
        owned("int")
    }
}

/// The cgo conversion of a C type spelling, `C.int` where none matches.
pub open spec fn spec_cgo_cast_type_from_c_type(c_type: Seq<char>) -> Seq<char> {
    let k = spec_normalize_type_key(c_type);
    if k == "bool"@ {
        "C.bool"@
    } else if k == "float"@ {
        "C.float"@
    } else if k == "double"@ {
        "C.double"@
    } else if k == "int8"@ || k == "int8_t"@ {
        "C.int8_t"@
    } else if k == "int16"@ || k == "int16_t"@ {
        "C.int16_t"@
    } else if k == "int32"@ || k == "int32_t"@ {
        "C.int32_t"@
    } else if k == "int64"@ || k == "int64_t"@ {
        "C.int64_t"@
    } else if k == "uint8"@ || k == "uint8_t"@ {
        "C.uint8_t"@
    } else if k == "uint16"@ || k == "uint16_t"@ {
        "C.uint16_t"@
    } else if k == "uint32"@ || k == "uint32_t"@ || k == "unsignedint"@ || k == "unsigned"@ {
        "C.uint32_t"@
    } else if k == "uint64"@ || k == "uint64_t"@ {
        "C.uint64_t"@
    } else if k == "short"@ {
        "C.short"@
    } else if k == "long"@ {
        "C.long"@
    } else if k == "size_t"@ {
        "C.size_t"@
    } else {
        "C.int"@
    }
}

pub fn cgo_cast_type_from_c_type(c_type: &str) -> (r: String)
    ensures
        r@ == spec_cgo_cast_type_from_c_type(c_type@),
{
    let key = normalize_type_key(c_type);
    let k = key.as_str();
    if str_eq(k, "bool") {
        owned("C.bool")
    } else if str_eq(k, "float") {
        owned("C.float")
    } else if str_eq(k, "double") {
        owned("C.double")
    } else if str_eq(k, "int8") || str_eq(k, "int8_t") {
        owned("C.int8_t")
    } else if str_eq(k, "int16") || str_eq(k, "int16_t") {
        owned("C.int16_t")
    } else if str_eq(k, "int32") || str_eq(k, "int32_t") {
        owned("C.int32_t")
    } else if str_eq(k, "int64") || str_eq(k, "int64_t") {
        owned("C.int64_t")
    } else if str_eq(k, "uint8") || str_eq(k, "uint8_t") {
        owned("C.uint8_t")
    } else if str_eq(k, "uint16") || str_eq(k, "uint16_t") {
        owned("C.uint16_t")
    } else if str_eq(k, "uint32") || str_eq(k, "uint32_t") || str_eq(k, "unsignedint") || str_eq(
        k,
        "unsigned",
    ) {
        owned("C.uint32_t")
    } else if str_eq(k, "uint64") || str_eq(k, "uint64_t") {
        owned("C.uint64_t")
    } else if str_eq(k, "short") {
        owned("C.short")
    } else if str_eq(k, "long") {
        owned("C.long")
    } else if str_eq(k, "size_t") {
        owned("C.size_t")
    } else {
        owned("C.int")
    }
}

/// The zero value that a Go function of the given type returns early.
pub open spec fn spec_zero_value_for_go_type(go_type: Seq<char>) -> Seq<char> {
    if go_type == "bool"@ {
        "false"@
    } else if go_type == "string"@ {
        "\"\""@
    } else {
        "0"@
    }
}

pub fn zero_value_for_go_type(go_type: &str) -> (r: String)
    ensures
        r@ == spec_zero_value_for_go_type(go_type@),
{
    if str_eq(go_type, "bool") {
        owned("false")
    } else if str_eq(go_type, "string") {
        owned("\"\"")
    } else {
        owned("0")
    }
}

/// The first of two optional values that is present.
pub open spec fn or_else(a: Option<Seq<char>>, b: Option<Seq<char>>) -> Option<Seq<char>> {
    if a is Some {
        a
    } else {
        b
    }
}

/// The Go type of a string or primitive IR type.
pub open spec fn spec_go_type_for_ir(t: IrTypeV) -> Option<Seq<char>> {
    if t.kind == IrTypeKind::String || t.kind == IrTypeKind::CString {
        Some("string"@)
    } else if t.kind == IrTypeKind::Primitive {
        or_else(spec_primitive_go_type(t.cpp_type), spec_primitive_go_type(t.c_type))
    } else {
        None
    }
}

pub fn go_type_for_ir(ty: &IrType) -> (r: Option<String>)
    ensures
        opt_view(r) == spec_go_type_for_ir(ty@),
{
    if ty.kind == IrTypeKind::String || ty.kind == IrTypeKind::CString {
        Some(owned("string"))
    } else if ty.kind == IrTypeKind::Primitive {
        match primitive_go_type(ty.cpp_type.as_str()) {
            Some(g) => Some(g),
            None => primitive_go_type(ty.c_type.as_str()),
        }
    } else {
        None
    }
}

/// The Go type that a primitive reference points to.
pub open spec fn spec_go_type_for_reference(t: IrTypeV) -> Option<Seq<char>> {
    if t.kind == IrTypeKind::Reference {
        or_else(spec_primitive_go_type(t.cpp_type), spec_primitive_go_type(t.c_type))
    } else {
        None
    }
}

pub fn go_type_for_reference(ty: &IrType) -> (r: Option<String>)
    ensures
        opt_view(r) == spec_go_type_for_reference(ty@),
{
    if ty.kind != IrTypeKind::Reference {
        return None;
    }
    match primitive_go_type(ty.cpp_type.as_str()) {
        Some(g) => Some(g),
        None => primitive_go_type(ty.c_type.as_str()),
    }
}

/// The cgo conversion of an argument of the given type.
pub open spec fn spec_cgo_cast_type(t: IrTypeV) -> Seq<char> {
    match or_else(spec_primitive_cgo_cast_type(t.cpp_type), spec_primitive_cgo_cast_type(t.c_type)) {
        Some(c) => c,
        None => "C.int"@,
    }
}

pub fn cgo_cast_type(ty: &IrType) -> (r: String)
    ensures
        r@ == spec_cgo_cast_type(ty@),
{
    match primitive_cgo_cast_type(ty.cpp_type.as_str()) {
        Some(c) => c,
        None => match primitive_cgo_cast_type(ty.c_type.as_str()) {
            Some(c) => c,
            None => owned("C.int"),
        },
    }
}

// ---------------------------------------------------------------------------
// Names
// ---------------------------------------------------------------------------

/// The last `::`-separated part of a qualified name.
pub open spec fn spec_leaf_cpp_name(value: Seq<char>) -> Seq<char> {
    text::last_segment(value, "::"@)
}

pub fn leaf_cpp_name(value: &str) -> (r: String)
    ensures
        r@ == spec_leaf_cpp_name(value@),
{
    proof {
        reveal_strlit("::");
    }
    text::last_segment_str(value, "::")
}

/// Each character that is not an ASCII letter or digit replaced by `_`.
pub open spec fn spec_sanitize_go_token(value: Seq<char>) -> Seq<char> {
    value.map_values(|c: char| if text::is_ascii_alnum(c) { c } else { '_' })
}

pub fn sanitize_go_token(value: &str) -> (r: String)
    ensures
        r@ == spec_sanitize_go_token(value@),
{
    let v = text::chars_of(value);
    let mut out: Vec<char> = Vec::new();
    let mut i: usize = 0;
    while i < v.len()
        invariant
            i <= v@.len(),
            out@ == v@.take(i as int).map_values(
                |c: char|
                    if text::is_ascii_alnum(c) {
                        c
                    } else {
                        '_'
                    },
            ),
        decreases v@.len() - i,
    {
        let c = v[i];
        if text::char_is_ascii_alnum(c) {
            out.push(c);
        } else {
            out.push('_');
        }
        assert(v@.take(i + 1) =~= v@.take(i as int).push(c));
        i += 1;
    }
    assert(v@.take(v@.len() as int) =~= v@);
    text::string_of(&out)
}

/// The receiver name of a Go type: its first character lowercased, or `v`.
pub open spec fn spec_receiver_name(value: Seq<char>) -> Seq<char> {
    if value.len() > 0 {
        seq![text::ascii_lower(value[0])]
    } else {
        "v"@
    }
}

pub fn receiver_name(value: &str) -> (r: String)
    ensures
        r@ == spec_receiver_name(value@),
{
    let v = text::chars_of(value);
    if v.len() > 0 {
        let mut out: Vec<char> = Vec::new();
        out.push(text::char_ascii_lower(v[0]));
        text::string_of(&out)
    } else {
        owned("v")
    }
}

/// A segment in PascalCase: the first character of each word (see
/// `snake_boundary`) ASCII-uppercased.
pub open spec fn spec_pascal_segment(seg: Seq<char>) -> Seq<char> {
    Seq::new(
        seg.len(),
        |k: int|
            if k == 0 || crate::config::snake_boundary(seg, k) {
                text::ascii_upper(seg[k])
            } else {
                seg[k]
            },
    )
}

/// The non-empty `_`-separated parts in PascalCase, run together, with a
/// `_` kept before a part that starts with a digit.
pub open spec fn spec_go_export_of_parts(parts: Seq<Seq<char>>) -> Seq<char>
    decreases parts.len(),
{
    if parts.len() == 0 {
        Seq::empty()
    } else {
        let o = spec_go_export_of_parts(parts.drop_last());
        let p = parts.last();
        if p.len() == 0 {
            o
        } else {
            o + (if o.len() > 0 && text::is_ascii_digit(p[0]) {
                seq!['_']
            } else {
                Seq::empty()
            }) + spec_pascal_segment(p)
        }
    }
}

/// A C++ or C name as an exported Go name: `get_user_id` becomes
/// `GetUserId`.
pub open spec fn spec_go_export_name(value: Seq<char>) -> Seq<char> {
    spec_go_export_of_parts(text::split_char(value, '_'))
}

fn pascal_segment(seg: &str) -> (r: Vec<char>)
    ensures
        r@ == spec_pascal_segment(seg@),
{
    let c = text::chars_of(seg);
    let n = c.len();
    let mut out: Vec<char> = Vec::new();
    let mut k: usize = 0;
    while k < n
        invariant
            n == c@.len(),
            c@ == seg@,
            k <= n,
            out@ == spec_pascal_segment(c@).take(k as int),
        decreases n - k,
    {
        let boundary = if k == 0 {
            true
        } else {
            let prev = c[k - 1];
            let cur = c[k];
            let next_lower = k + 1 < n && text::is_lowercase(c[k + 1]);
            (text::is_lowercase(prev) && text::is_uppercase(cur)) || (text::char_is_ascii_digit(
                prev,
            ) && !text::char_is_ascii_digit(cur)) || (!text::char_is_ascii_digit(prev)
                && text::char_is_ascii_digit(cur)) || (text::is_uppercase(prev)
                && text::is_uppercase(cur) && next_lower)
        };
        if boundary {
            out.push(text::char_ascii_upper(c[k]));
        } else {
            out.push(c[k]);
        }
        assert(spec_pascal_segment(c@).take(k + 1) =~= spec_pascal_segment(c@).take(k as int).push(
            spec_pascal_segment(c@)[k as int],
        ));
        k += 1;
    }
    assert(spec_pascal_segment(c@).take(n as int) =~= spec_pascal_segment(c@));
    out
}

pub fn go_export_name(value: &str) -> (r: String)
    ensures
        r@ == spec_go_export_name(value@),
{
    let parts = text::split_char_str(value, '_');
    let ghost pv = text::views(parts@);
    let mut out: Vec<char> = Vec::new();
    let mut i: usize = 0;
    assert(pv.take(0) =~= Seq::<Seq<char>>::empty());
    while i < parts.len()
        invariant
            i <= parts@.len(),
            pv == text::views(parts@),
            out@ == spec_go_export_of_parts(pv.take(i as int)),
        decreases parts@.len() - i,
    {
        assert(pv.take(i + 1).drop_last() =~= pv.take(i as int));
        let seg = parts[i].as_str();
        if !seg.is_empty() {
            let first = text::chars_of(seg);
            if out.len() > 0 && text::char_is_ascii_digit(first[0]) {
                out.push('_');
            }
            let mut p = pascal_segment(seg);
            out.append(&mut p);
        }
        i += 1;
    }
    assert(pv.take(parts@.len() as int) =~= pv);
    text::string_of(&out)
}

/// The method name of a member wrapper: the last part of its C++ name.
pub open spec fn spec_method_name(f: IrFunctionV) -> Seq<char> {
    text::last_segment(f.cpp_name, "::"@)
}

pub fn method_name(function: &IrFunction) -> (r: String)
    ensures
        r@ == spec_method_name(function@),
{
    proof {
        reveal_strlit("::");
    }
    text::last_segment_str(function.cpp_name.as_str(), "::")
}

// ---------------------------------------------------------------------------
// Overload tokens
// ---------------------------------------------------------------------------

/// The primitive type keys that name a built-in C++ type.
pub open spec fn spec_is_builtin_primitive_key(v: Seq<char>) -> bool {
    v == "bool"@ || v == "float"@ || v == "double"@ || v == "int8"@ || v == "int8_t"@ || v
        == "signedchar"@ || v == "int16"@ || v == "int16_t"@ || v == "short"@ || v == "int32"@
        || v == "int32_t"@ || v == "int"@ || v == "int64"@ || v == "int64_t"@ || v == "long"@
        || v == "longlong"@ || v == "uint8"@ || v == "uint8_t"@ || v == "unsignedchar"@ || v
        == "uint16"@ || v == "uint16_t"@ || v == "unsignedshort"@ || v == "uint32"@ || v
        == "uint32_t"@ || v == "unsignedint"@ || v == "unsigned"@ || v == "uint64"@ || v
        == "uint64_t"@ || v == "unsignedlong"@ || v == "unsignedlonglong"@ || v == "size_t"@
}

pub fn is_builtin_primitive_key(v: &str) -> (r: bool)
    ensures
        r == spec_is_builtin_primitive_key(v@),
{
    str_eq(v, "bool") || str_eq(v, "float") || str_eq(v, "double") || str_eq(v, "int8") || str_eq(
        v,
        "int8_t",
    ) || str_eq(v, "signedchar") || str_eq(v, "int16") || str_eq(v, "int16_t") || str_eq(
        v,
        "short",
    ) || str_eq(v, "int32") || str_eq(v, "int32_t") || str_eq(v, "int") || str_eq(v, "int64")
        || str_eq(v, "int64_t") || str_eq(v, "long") || str_eq(v, "longlong") || str_eq(v, "uint8")
        || str_eq(v, "uint8_t") || str_eq(v, "unsignedchar") || str_eq(v, "uint16") || str_eq(
        v,
        "uint16_t",
    ) || str_eq(v, "unsignedshort") || str_eq(v, "uint32") || str_eq(v, "uint32_t") || str_eq(
        v,
        "unsignedint",
    ) || str_eq(v, "unsigned") || str_eq(v, "uint64") || str_eq(v, "uint64_t") || str_eq(
        v,
        "unsignedlong",
    ) || str_eq(v, "unsignedlonglong") || str_eq(v, "size_t")
}

/// How many times `c` occurs in `s`.
pub open spec fn count_char(s: Seq<char>, c: char) -> nat
    decreases s.len(),
{
    if s.len() == 0 {
        0
    } else {
        count_char(s.drop_last(), c) + if s.last() == c {
            1nat
        } else {
            0nat
        }
    }
}

fn count_char_exec(s: &str, c: char) -> (r: usize)
    ensures
        r == count_char(s@, c),
{
    let v = text::chars_of(s);
    let mut n: usize = 0;
    let mut i: usize = 0;
    while i < v.len()
        invariant
            i <= v@.len(),
            n == count_char(v@.take(i as int), c),
            n <= i,
        decreases v@.len() - i,
    {
        assert(v@.take(i + 1).drop_last() =~= v@.take(i as int));
        if v[i] == c {
            n += 1;
        }
        i += 1;
    }
    assert(v@.take(v@.len() as int) =~= v@);
    n
}

/// The pointer depth of a model pointer: the `*`s of its C++ spelling, or
/// of its C spelling, and at least one.
pub open spec fn spec_model_pointer_depth(t: IrTypeV) -> nat {
    if count_char(t.cpp_type, '*') > 0 {
        count_char(t.cpp_type, '*')
    } else if count_char(t.c_type, '*') > 1 {
        count_char(t.c_type, '*')
    } else {
        1
    }
}

/// `s` repeated `n` times.
pub open spec fn repeat(s: Seq<char>, n: nat) -> Seq<char>
    decreases n,
{
    if n == 0 {
        Seq::empty()
    } else {
        repeat(s, (n - 1) as nat) + s
    }
}

/// The overload token of a model pointer: the flattened class name and
/// `Ptr` per level of indirection.
pub open spec fn spec_model_pointer_overload_token(t: IrTypeV) -> Seq<char> {
    spec_go_export_name(spec_flatten_qualified_cpp_name(spec_base_model_cpp_type(t.cpp_type)))
        + repeat("Ptr"@, spec_model_pointer_depth(t))
}

pub fn model_pointer_overload_token(ty: &IrType) -> (r: String)
    ensures
        r@ == spec_model_pointer_overload_token(ty@),
{
    let base_type = crate::codegen::ir_norm::base_model_cpp_type(ty.cpp_type.as_str());
    let flat = crate::codegen::ir_norm::flatten_qualified_cpp_name(base_type.as_str());
    let base = go_export_name(flat.as_str());
    let cpp_depth = count_char_exec(ty.cpp_type.as_str(), '*');
    let depth = if cpp_depth > 0 {
        cpp_depth
    } else {
        let c_depth = count_char_exec(ty.c_type.as_str(), '*');
        if c_depth > 1 {
            c_depth
        } else {
            1
        }
    };
    let mut out = base;
    let mut i: usize = 0;
    while i < depth
        invariant
            i <= depth,
            out@ == spec_go_export_name(
                spec_flatten_qualified_cpp_name(spec_base_model_cpp_type(ty.cpp_type@)),
            ) + repeat("Ptr"@, i as nat),
        decreases depth - i,
    {
        out.append("Ptr");
        i += 1;
    }
    out
}

/// The overload token of a primitive: its Go type, except for a typedef
/// whose spelling differs from its C type, which keeps its own name.
pub open spec fn spec_primitive_overload_token(t: IrTypeV) -> Seq<char> {
    let cpp_key = spec_normalize_type_key(t.cpp_type);
    let c_key = spec_normalize_type_key(t.c_type);
    if cpp_key != c_key && !spec_is_builtin_primitive_key(cpp_key) {
        spec_go_export_name(spec_sanitize_go_token(t.cpp_type))
    } else {
        match spec_go_type_for_ir(t) {
            Some(g) => spec_go_export_name(g),
            None => spec_go_export_name(spec_sanitize_go_token(t.cpp_type)),
        }
    }
}

pub fn primitive_overload_token(ty: &IrType) -> (r: String)
    ensures
        r@ == spec_primitive_overload_token(ty@),
{
    let cpp_key = normalize_type_key(ty.cpp_type.as_str());
    let c_key = normalize_type_key(ty.c_type.as_str());
    if !str_eq(cpp_key.as_str(), c_key.as_str()) && !is_builtin_primitive_key(cpp_key.as_str()) {
        let t = sanitize_go_token(ty.cpp_type.as_str());
        return go_export_name(t.as_str());
    }
    match go_type_for_ir(ty) {
        Some(g) => go_export_name(g.as_str()),
        None => {
            let t = sanitize_go_token(ty.cpp_type.as_str());
            go_export_name(t.as_str())
        },
    }
}

/// The overload token of a string: `String`, except for a typedef whose
/// spelling differs from its C type, which keeps its own name.
pub open spec fn spec_string_overload_token(t: IrTypeV) -> Seq<char> {
    let cpp_key = spec_normalize_type_key(t.cpp_type);
    let c_key = spec_normalize_type_key(t.c_type);
    if cpp_key != c_key && cpp_key.len() > 0 {
        spec_go_export_name(spec_sanitize_go_token(t.cpp_type))
    } else {
        "String"@
    }
}

pub fn string_overload_token(ty: &IrType) -> (r: String)
    ensures
        r@ == spec_string_overload_token(ty@),
{
    let cpp_key = normalize_type_key(ty.cpp_type.as_str());
    let c_key = normalize_type_key(ty.c_type.as_str());
    if !str_eq(cpp_key.as_str(), c_key.as_str()) && !cpp_key.as_str().is_empty() {
        let t = sanitize_go_token(ty.cpp_type.as_str());
        return go_export_name(t.as_str());
    }
    owned("String")
}

/// The token that stands for one parameter type in a Go overload name.
pub open spec fn spec_go_overload_token(t: IrTypeV) -> Seq<char> {
    if t.kind == IrTypeKind::Callback {
        spec_go_export_name(spec_leaf_cpp_name(t.cpp_type)) + "Callback"@
    } else if t.kind == IrTypeKind::String || t.kind == IrTypeKind::CString {
        spec_string_overload_token(t)
    } else if t.kind == IrTypeKind::Primitive {
        spec_primitive_overload_token(t)
    } else if t.kind == IrTypeKind::ModelReference {
        spec_go_export_name(spec_flatten_qualified_cpp_name(spec_base_model_cpp_type(t.cpp_type)))
            + "Ref"@
    } else if t.kind == IrTypeKind::ModelPointer {
        spec_model_pointer_overload_token(t)
    } else {
        spec_go_export_name(spec_sanitize_go_token(t.cpp_type))
    }
}

pub fn go_overload_token(ty: &IrType) -> (r: String)
    ensures
        r@ == spec_go_overload_token(ty@),
{
    if ty.kind == IrTypeKind::Callback {
        let leaf = leaf_cpp_name(ty.cpp_type.as_str());
        let e = go_export_name(leaf.as_str());
        concat2(e.as_str(), "Callback")
    } else if ty.kind == IrTypeKind::String || ty.kind == IrTypeKind::CString {
        string_overload_token(ty)
    } else if ty.kind == IrTypeKind::Primitive {
        primitive_overload_token(ty)
    } else if ty.kind == IrTypeKind::ModelReference {
        let base_type = crate::codegen::ir_norm::base_model_cpp_type(ty.cpp_type.as_str());
        let flat = crate::codegen::ir_norm::flatten_qualified_cpp_name(base_type.as_str());
        let e = go_export_name(flat.as_str());
        concat2(e.as_str(), "Ref")
    } else if ty.kind == IrTypeKind::ModelPointer {
        model_pointer_overload_token(ty)
    } else {
        let t = sanitize_go_token(ty.cpp_type.as_str());
        go_export_name(t.as_str())
    }
}


// ---------------------------------------------------------------------------
// What Go can carry
// ---------------------------------------------------------------------------

/// The Go type of a parameter, where Go can carry it: strings, primitives,
/// primitive references as pointers, callbacks by their typedef name, and
/// model references and pointers as pointers to the model's Go type.
pub open spec fn spec_go_param_type(config: Config, t: IrTypeV) -> Option<Seq<char>> {
    if t.kind == IrTypeKind::String || t.kind == IrTypeKind::CString {
        Some("string"@)
    } else if t.kind == IrTypeKind::Primitive {
        spec_go_type_for_ir(t)
    } else if t.kind == IrTypeKind::Reference {
        match spec_go_type_for_reference(t) {
            Some(g) => Some("*"@ + g),
            None => None,
        }
    } else if t.kind == IrTypeKind::Callback {
        Some(spec_leaf_cpp_name(t.cpp_type))
    } else if t.kind == IrTypeKind::ModelReference || t.kind == IrTypeKind::ModelPointer {
        match crate::config::first_projection(config.known_model_projections@, t.cpp_type) {
            Some(p) => Some("*"@ + p.go_name@),
            None => Some("*"@ + spec_leaf_cpp_name(spec_base_model_cpp_type(t.cpp_type))),
        }
    } else {
        None
    }
}

pub fn go_param_type(config: &Config, ty: &IrType) -> (r: Option<String>)
    ensures
        opt_view(r) == spec_go_param_type(*config, ty@),
{
    if ty.kind == IrTypeKind::String || ty.kind == IrTypeKind::CString {
        Some(owned("string"))
    } else if ty.kind == IrTypeKind::Primitive {
        go_type_for_ir(ty)
    } else if ty.kind == IrTypeKind::Reference {
        match go_type_for_reference(ty) {
            Some(g) => Some(concat2("*", g.as_str())),
            None => None,
        }
    } else if ty.kind == IrTypeKind::Callback {
        Some(leaf_cpp_name(ty.cpp_type.as_str()))
    } else if ty.kind == IrTypeKind::ModelReference || ty.kind == IrTypeKind::ModelPointer {
        match config.known_model_projection(ty.cpp_type.as_str()) {
            Some(p) => Some(concat2("*", p.go_name.as_str())),
            None => {
                let base = crate::codegen::ir_norm::base_model_cpp_type(ty.cpp_type.as_str());
                let leaf = leaf_cpp_name(base.as_str());
                Some(concat2("*", leaf.as_str()))
            },
        }
    } else {
        None
    }
}

/// The Go pointer type of a pointer to a primitive.
pub open spec fn spec_go_pointer_return_type(t: IrTypeV) -> Option<Seq<char>> {
    if t.kind != IrTypeKind::Pointer {
        None
    } else {
        match or_else(
            spec_primitive_go_type(text::trim(text::trim_end_char(t.cpp_type, '*'))),
            spec_primitive_go_type(text::trim(text::trim_end_char(t.c_type, '*'))),
        ) {
            Some(g) => Some("*"@ + g),
            None => None,
        }
    }
}

pub fn go_pointer_return_type(ty: &IrType) -> (r: Option<String>)
    ensures
        opt_view(r) == spec_go_pointer_return_type(ty@),
{
    if ty.kind != IrTypeKind::Pointer {
        return None;
    }
    let a = text::trim_end_char_str(ty.cpp_type.as_str(), '*');
    let base = text::trim_str(a.as_str());
    let g = match primitive_go_type(base.as_str()) {
        Some(g) => Some(g),
        None => {
            let b = text::trim_end_char_str(ty.c_type.as_str(), '*');
            let cbase = text::trim_str(b.as_str());
            primitive_go_type(cbase.as_str())
        },
    };
    match g {
        Some(g) => Some(concat2("*", g.as_str())),
        None => None,
    }
}

/// The return types that Go can carry: none, strings, primitives and
/// pointers to primitives.
pub open spec fn spec_go_return_supported(t: IrTypeV) -> bool {
    t.kind == IrTypeKind::Void || t.kind == IrTypeKind::String || t.kind == IrTypeKind::CString || (
    t.kind == IrTypeKind::Primitive && spec_go_type_for_ir(t) is Some) || (t.kind
        == IrTypeKind::Pointer && spec_go_pointer_return_type(t) is Some)
}

pub fn go_return_supported(ty: &IrType) -> (r: bool)
    ensures
        r == spec_go_return_supported(ty@),
{
    ty.kind == IrTypeKind::Void || ty.kind == IrTypeKind::String || ty.kind == IrTypeKind::CString
        || (ty.kind == IrTypeKind::Primitive && go_type_for_ir(ty).is_some()) || (ty.kind
        == IrTypeKind::Pointer && go_pointer_return_type(ty).is_some())
}

/// Whether Go can carry every parameter from `start` on.
pub open spec fn params_supported_from(config: Config, params: Seq<IrParamV>, start: int) -> bool {
    forall|i: int| start <= i < params.len() ==> #[trigger] spec_go_param_type(config, params[i].ty) is Some
}

fn params_supported(config: &Config, params: &[IrParam], start: usize) -> (r: bool)
    ensures
        r == params_supported_from(*config, param_views(params@), start as int),
{
    let ghost pv = param_views(params@);
    let mut i: usize = start;
    while i < params.len()
        invariant
            start <= i,
            pv == param_views(params@),
            forall|j: int| start <= j < i ==> #[trigger] spec_go_param_type(*config, pv[j].ty) is Some,
        decreases params@.len() - i,
    {
        if go_param_type(config, &params[i].ty).is_none() {
            assert(pv[i as int] == params@[i as int]@);
            assert(spec_go_param_type(*config, pv[i as int].ty) is None);
            return false;
        }
        assert(pv[i as int] == params@[i as int]@);
        i += 1;
    }
    true
}

/// A free function has a facade when Go can carry its return type and all
/// its parameters.
pub open spec fn spec_free_function_supported(config: Config, f: IrFunctionV) -> bool {
    spec_go_return_supported(f.returns) && params_supported_from(config, f.params, 0)
}

pub fn free_function_supported(config: &Config, function: &IrFunction) -> (r: bool)
    ensures
        r == spec_free_function_supported(*config, function@),
{
    go_return_supported(&function.returns) && params_supported(config, &function.params, 0)
}

/// A method has a facade when Go can carry its return type and all its
/// parameters after `self`.
pub open spec fn spec_method_supported(config: Config, f: IrFunctionV) -> bool {
    spec_go_return_supported(f.returns) && params_supported_from(config, f.params, 1)
}

pub fn method_supported(config: &Config, function: &IrFunction) -> (r: bool)
    ensures
        r == spec_method_supported(*config, function@),
{
    go_return_supported(&function.returns) && params_supported(config, &function.params, 1)
}

// ---------------------------------------------------------------------------
// Go export names
// ---------------------------------------------------------------------------

/// The overload suffix of a Go export: the tokens of the parameters after
/// `self`, or `Void`, and `Const` for a const method.
pub open spec fn spec_go_overload_suffix(f: IrFunctionV) -> Seq<char> {
    let params = if f.method_of is Some && f.params.len() > 0 {
        f.params.skip(1)
    } else {
        f.params
    };
    let tokens = text::join(params.map_values(|p: IrParamV| spec_go_overload_token(p.ty)), ""@);
    let base = if tokens.len() == 0 {
        "Void"@
    } else {
        tokens
    };
    if f.is_const == Some(true) {
        base + "Const"@
    } else {
        base
    }
}

pub fn go_overload_suffix(function: &IrFunction) -> (r: String)
    ensures
        r@ == spec_go_overload_suffix(function@),
{
    let ghost fv = function@;
    let start: usize = if function.method_of.is_some() && function.params.len() > 0 {
        1
    } else {
        0
    };
    let ghost params = if fv.method_of is Some && fv.params.len() > 0 {
        fv.params.skip(1)
    } else {
        fv.params
    };
    assert(params =~= fv.params.skip(start as int));
    let mut tokens: Vec<String> = Vec::new();
    let mut i: usize = start;
    assert(params.take(0).map_values(|p: IrParamV| spec_go_overload_token(p.ty)) =~= Seq::<
        Seq<char>,
    >::empty());
    while i < function.params.len()
        invariant
            start <= i <= function.params@.len() || (function.params@.len() == 0 && i == 0),
            fv == function@,
            params == fv.params.skip(start as int),
            text::views(tokens@) == params.take(i - start).map_values(
                |p: IrParamV| spec_go_overload_token(p.ty),
            ),
        decreases function.params@.len() - i,
    {
        let tok = go_overload_token(&function.params[i].ty);
        let ghost before = text::views(tokens@);
        tokens.push(tok);
        proof {
            assert(text::views(tokens@) =~= before.push(tok@));
            assert(params[i - start] == fv.params[i as int]);
            assert(params.take(i + 1 - start) =~= params.take(i - start).push(params[i - start]));
            assert(params.take(i + 1 - start).map_values(|p: IrParamV| spec_go_overload_token(p.ty))
                =~= params.take(i - start).map_values(|p: IrParamV| spec_go_overload_token(p.ty)).push(
                spec_go_overload_token(params[i - start].ty),
            ));
        }
        i += 1;
    }
    assert(params.take(function.params@.len() - start) =~= params);
    let joined = text::join_strings(&tokens, "");
    let base = if joined.as_str().is_empty() {
        owned("Void")
    } else {
        joined
    };
    if function.is_const == Some(true) {
        concat2(base.as_str(), "Const")
    } else {
        base
    }
}

/// The Go name of a free function: the exported leaf name, with the
/// overload suffix where the wrapper symbol was disambiguated.
pub open spec fn spec_go_facade_export_name(f: IrFunctionV) -> Seq<char> {
    let base = spec_go_export_name(spec_leaf_cpp_name(f.cpp_name));
    if !text::contains_str(f.name, "__"@) {
        base
    } else {
        base + spec_go_overload_suffix(f)
    }
}

pub fn go_facade_export_name(function: &IrFunction) -> (r: String)
    ensures
        r@ == spec_go_facade_export_name(function@),
{
    let leaf = leaf_cpp_name(function.cpp_name.as_str());
    let base = go_export_name(leaf.as_str());
    if !text::contains_substring(function.name.as_str(), "__") {
        return base;
    }
    let suffix = go_overload_suffix(function);
    concat2(base.as_str(), suffix.as_str())
}

/// The Go name of a method, likewise.
pub open spec fn spec_go_method_export_name(f: IrFunctionV) -> Seq<char> {
    let base = spec_go_export_name(spec_method_name(f));
    if !text::contains_str(f.name, "__"@) {
        base
    } else {
        base + spec_go_overload_suffix(f)
    }
}

pub fn go_method_export_name(function: &IrFunction) -> (r: String)
    ensures
        r@ == spec_go_method_export_name(function@),
{
    let m = method_name(function);
    let base = go_export_name(m.as_str());
    if !text::contains_substring(function.name.as_str(), "__") {
        return base;
    }
    let suffix = go_overload_suffix(function);
    concat2(base.as_str(), suffix.as_str())
}

/// The Go variable that holds the callback passed as parameter `index`.
pub open spec fn spec_callback_state_name(f: IrFunctionV, index: nat) -> Seq<char> {
    spec_sanitize_go_token(f.name) + "_cb"@ + text::decimal(index)
}

pub fn callback_state_name_from_function(function: &IrFunction, index: usize) -> (r: String)
    ensures
        r@ == spec_callback_state_name(function@, index as nat),
{
    let t = sanitize_go_token(function.name.as_str());
    let d = text::usize_to_string(index);
    concat3(t.as_str(), "_cb", d.as_str())
}

/// The exported Go function that C calls back through.
pub open spec fn spec_callback_go_export_name(f: IrFunctionV, index: nat) -> Seq<char> {
    "go_"@ + spec_sanitize_go_token(f.name) + "_cb"@ + text::decimal(index)
}

pub fn callback_go_export_name(function: &IrFunction, index: usize) -> (r: String)
    ensures
        r@ == spec_callback_go_export_name(function@, index as nat),
{
    let t = sanitize_go_token(function.name.as_str());
    let d = text::usize_to_string(index);
    text::concat4("go_", t.as_str(), "_cb", d.as_str())
}

/// The cgo type of a callback parameter.
pub open spec fn spec_callback_cgo_param_type(t: IrTypeV) -> Seq<char> {
    if t.kind == IrTypeKind::String || t.kind == IrTypeKind::CString {
        "*C.char"@
    } else {
        spec_cgo_cast_type_from_c_type(t.c_type)
    }
}

pub fn callback_cgo_param_type(ty: &IrType) -> (r: String)
    ensures
        r@ == spec_callback_cgo_param_type(ty@),
{
    if ty.kind == IrTypeKind::String || ty.kind == IrTypeKind::CString {
        owned("*C.char")
    } else {
        cgo_cast_type_from_c_type(ty.c_type.as_str())
    }
}

/// The Go type of a callback parameter or result.
pub open spec fn spec_callback_go_type(t: IrTypeV) -> Seq<char> {
    match spec_go_type_for_ir(t) {
        Some(g) => g,
        None => spec_go_type_from_c_type(t.c_type),
    }
}

pub fn callback_go_type(ty: &IrType) -> (r: String)
    ensures
        r@ == spec_callback_go_type(ty@),
{
    match go_type_for_ir(ty) {
        Some(g) => g,
        None => go_type_from_c_type(ty.c_type.as_str()),
    }
}

/// How a callback argument that C passed is handed to the Go function.
pub open spec fn spec_render_callback_go_arg(t: IrTypeV, name: Seq<char>) -> Seq<char> {
    if t.kind == IrTypeKind::String || t.kind == IrTypeKind::CString {
        "C.GoString("@ + name + ")"@
    } else {
        spec_callback_go_type(t) + "("@ + name + ")"@
    }
}

pub fn render_callback_go_arg(ty: &IrType, name: &str) -> (r: String)
    ensures
        r@ == spec_render_callback_go_arg(ty@, name@),
{
    if ty.kind == IrTypeKind::String || ty.kind == IrTypeKind::CString {
        concat3("C.GoString(", name, ")")
    } else {
        let g = callback_go_type(ty);
        text::concat4(g.as_str(), "(", name, ")")
    }
}

/// What `Path::file_name` gives for a path: its final component, where it
/// has one, as the path syntax of the platform the library is built for
/// reads it.
pub uninterp spec fn path_file_name(path: Seq<char>) -> Option<Seq<char>>;

/// Calls `Path::file_name` and converts the name back to a string; the
/// result is named `path_file_name` of the path.
#[verifier::external_body]
pub(crate) fn file_name(path: &str) -> (r: Option<String>)
    ensures
        opt_view(r) == path_file_name(path@),
{
    std::path::Path::new(path).file_name().and_then(|name| name.to_str()).map(|name| name.to_string())
}

/// A package name character: ASCII letters and digits lowercased, `_`
/// kept, everything else `_`.
pub open spec fn package_char(c: char) -> char {
    if text::is_ascii_alnum(c) || c == '_' {
        text::ascii_lower(c)
    } else {
        '_'
    }
}

/// The Go package name of an output directory: its last component made
/// into an identifier, or `bindings`.
pub open spec fn spec_go_package_name(path: Seq<char>) -> Seq<char> {
    let source = match path_file_name(path) {
        Some(n) => if n.len() > 0 {
            n
        } else {
            "bindings"@
        },
        None => "bindings"@,
    };
    let sanitized = source.map_values(|c: char| package_char(c));
    if sanitized.len() == 0 {
        "bindings"@
    } else {
        sanitized
    }
}

pub fn go_package_name(path: &str) -> (r: String)
    ensures
        r@ == spec_go_package_name(path@),
{
    let source = match file_name(path) {
        Some(n) => if n.as_str().is_empty() {
            owned("bindings")
        } else {
            n
        },
        None => owned("bindings"),
    };
    let v = text::chars_of(source.as_str());
    let mut out: Vec<char> = Vec::new();
    let mut i: usize = 0;
    while i < v.len()
        invariant
            i <= v@.len(),
            out@ == v@.take(i as int).map_values(|c: char| package_char(c)),
        decreases v@.len() - i,
    {
        let c = v[i];
        if text::char_is_ascii_alnum(c) || c == '_' {
            out.push(text::char_ascii_lower(c));
        } else {
            out.push('_');
        }
        assert(v@.take(i + 1) =~= v@.take(i as int).push(c));
        i += 1;
    }
    assert(v@.take(v@.len() as int) =~= v@);
    if out.len() == 0 {
        owned("bindings")
    } else {
        text::string_of(&out)
    }
}


// ---------------------------------------------------------------------------
// Call preparation
// ---------------------------------------------------------------------------

/// The Go code around one wrapper call: lines before it, deferred lines,
/// lines after it, and the call's arguments.
pub struct RenderedCallPrep {
    pub setup_lines: Vec<String>,
    pub defer_lines: Vec<String>,
    pub post_call_lines: Vec<String>,
    pub args: Vec<String>,
}

/// The mathematical value of a `RenderedCallPrep`.
#[verifier::ext_equal]
pub struct PrepV {
    pub setup: Seq<Seq<char>>,
    pub defers: Seq<Seq<char>>,
    pub posts: Seq<Seq<char>>,
    pub args: Seq<Seq<char>>,
}

impl View for RenderedCallPrep {
    type V = PrepV;

    open spec fn view(&self) -> PrepV {
        PrepV {
            setup: text::views(self.setup_lines@),
            defers: text::views(self.defer_lines@),
            posts: text::views(self.post_call_lines@),
            args: text::views(self.args@),
        }
    }
}

pub open spec fn prep_concat(a: PrepV, b: PrepV) -> PrepV {
    PrepV {
        setup: a.setup + b.setup,
        defers: a.defers + b.defers,
        posts: a.posts + b.posts,
        args: a.args + b.args,
    }
}

pub open spec fn prep_empty() -> PrepV {
    PrepV { setup: Seq::empty(), defers: Seq::empty(), posts: Seq::empty(), args: Seq::empty() }
}

/// The local that holds the converted argument at `index`.
pub open spec fn c_arg_name(index: nat) -> Seq<char> {
    "cArg"@ + text::decimal(index)
}

/// What one parameter adds to the call preparation: strings are copied to
/// C and freed, primitive references go through a local and are written
/// back, models are passed by handle, callbacks (where the wrapper has a
/// bridge) are registered, and everything else is converted in place.
pub open spec fn spec_prep_step(
    config: Config,
    f: IrFunctionV,
    callbacks: bool,
    p: IrParamV,
    index: nat,
) -> PrepV {
    let t = p.ty;
    let name = p.name;
    let c_name = c_arg_name(index);
    if callbacks && t.kind == IrTypeKind::Callback {
        let state = spec_callback_state_name(f, index);
        PrepV {
            setup: seq![
                state + ".mu.Lock()"@,
                state + ".fn = "@ + name,
                state + ".mu.Unlock()"@,
            ],
            defers: Seq::empty(),
            posts: Seq::empty(),
            args: seq!["C.bool("@ + name + " != nil)"@],
        }
    } else if t.kind == IrTypeKind::String || t.kind == IrTypeKind::CString {
        PrepV {
            setup: seq![c_name + " := C.CString("@ + name + ")"@],
            defers: seq!["defer C.free(unsafe.Pointer("@ + c_name + "))"@],
            posts: Seq::empty(),
            args: seq![c_name],
        }
    } else if t.kind == IrTypeKind::Reference {
        PrepV {
            setup: seq![
                "if "@ + name + " == nil {"@,
                "    panic(\""@ + name + " reference is nil\")"@,
                "}"@,
                c_name + " := "@ + spec_cgo_cast_type(t) + "(*"@ + name + ")"@,
            ],
            defers: Seq::empty(),
            posts: seq![
                "*"@ + name + " = "@ + spec_go_type_for_reference(t)->0 + "("@ + c_name + ")"@,
            ],
            args: seq!["&"@ + c_name],
        }
    } else if t.kind == IrTypeKind::ModelReference || t.kind == IrTypeKind::ModelPointer {
        match crate::config::first_projection(config.known_model_projections@, t.cpp_type) {
            Some(proj) => PrepV {
                setup: Seq::empty(),
                defers: Seq::empty(),
                posts: Seq::empty(),
                args: seq![
                    (if t.kind == IrTypeKind::ModelPointer {
                        "optional"@
                    } else {
                        "require"@
                    }) + proj.go_name@ + "Handle("@ + name + ")"@,
                ],
            },
            None => {
                let handle = match t.handle {
                    Some(h) => h,
                    None => "void"@,
                };
                let nil_check = if t.kind == IrTypeKind::ModelReference {
                    seq![
                        "if "@ + name + " == nil {"@,
                        "    panic(\"reference facade/model argument cannot be nil\")"@,
                        "}"@,
                    ]
                } else {
                    Seq::empty()
                };
                PrepV {
                    setup: seq!["var "@ + c_name + " *C."@ + handle] + nil_check + seq![
                        "if "@ + name + " != nil {"@,
                        "    "@ + c_name + " = "@ + name + ".ptr"@,
                        "}"@,
                    ],
                    defers: Seq::empty(),
                    posts: Seq::empty(),
                    args: seq![c_name],
                }
            },
        }
    } else {
        PrepV {
            setup: Seq::empty(),
            defers: Seq::empty(),
            posts: Seq::empty(),
            args: seq![spec_cgo_cast_type(t) + "("@ + name + ")"@],
        }
    }
}

/// The call preparation of the given parameters, numbered from zero.
pub open spec fn spec_call_prep(
    config: Config,
    f: IrFunctionV,
    callbacks: bool,
    params: Seq<IrParamV>,
) -> PrepV
    decreases params.len(),
{
    if params.len() == 0 {
        prep_empty()
    } else {
        prep_concat(
            spec_call_prep(config, f, callbacks, params.drop_last()),
            spec_prep_step(config, f, callbacks, params.last(), (params.len() - 1) as nat),
        )
    }
}

fn push_all(v: &mut Vec<String>, items: Vec<String>)
    ensures
        text::views(final(v)@) == text::views(old(v)@) + text::views(items@),
{
    let mut items = items;
    let ghost a = text::views(v@);
    let ghost b = text::views(items@);
    v.append(&mut items);
    assert(text::views(v@) =~= a + b);
}

fn prep_step(
    config: &Config,
    function: &IrFunction,
    callbacks: bool,
    param: &IrParam,
    index: usize,
) -> (r: RenderedCallPrep)
    requires
        param.ty.kind == IrTypeKind::Reference ==> spec_go_type_for_reference(param.ty@) is Some,
    ensures
        r@ == spec_prep_step(*config, function@, callbacks, param@, index as nat),
{
    let name = param.name.as_str();
    let ty = &param.ty;
    let d = text::usize_to_string(index);
    let c_name = concat2("cArg", d.as_str());
    let mut setup: Vec<String> = Vec::new();
    let mut defers: Vec<String> = Vec::new();
    let mut posts: Vec<String> = Vec::new();
    let mut args: Vec<String> = Vec::new();
    if callbacks && ty.kind == IrTypeKind::Callback {
        let state = callback_state_name_from_function(function, index);
        setup.push(concat2(state.as_str(), ".mu.Lock()"));
        setup.push(concat3(state.as_str(), ".fn = ", name));
        setup.push(concat2(state.as_str(), ".mu.Unlock()"));
        args.push(concat3("C.bool(", name, " != nil)"));
    } else if ty.kind == IrTypeKind::String || ty.kind == IrTypeKind::CString {
        setup.push(text::concat4(c_name.as_str(), " := C.CString(", name, ")"));
        defers.push(concat3("defer C.free(unsafe.Pointer(", c_name.as_str(), "))"));
        args.push(c_name);
    } else if ty.kind == IrTypeKind::Reference {
        let go_type = match go_type_for_reference(ty) {
            Some(g) => g,
            None => owned("int"),
        };
        let cast = cgo_cast_type(ty);
        setup.push(concat3("if ", name, " == nil {"));
        setup.push(concat3("    panic(\"", name, " reference is nil\")"));
        setup.push(owned("}"));
        let mut line = text::concat5(c_name.as_str(), " := ", cast.as_str(), "(*", name);
        line.append(")");
        setup.push(line);
        let mut post = text::concat5("*", name, " = ", go_type.as_str(), "(");
        post.append(c_name.as_str());
        post.append(")");
        posts.push(post);
        args.push(concat2("&", c_name.as_str()));
    } else if ty.kind == IrTypeKind::ModelReference || ty.kind == IrTypeKind::ModelPointer {
        match config.known_model_projection(ty.cpp_type.as_str()) {
            Some(proj) => {
                let lead = if ty.kind == IrTypeKind::ModelPointer {
                    owned("optional")
                } else {
                    owned("require")
                };
                let mut a = text::concat4(lead.as_str(), proj.go_name.as_str(), "Handle(", name);
                a.append(")");
                args.push(a);
            },
            None => {
                let handle = match &ty.handle {
                    Some(h) => h.clone(),
                    None => owned("void"),
                };
                setup.push(text::concat4("var ", c_name.as_str(), " *C.", handle.as_str()));
                if ty.kind == IrTypeKind::ModelReference {
                    setup.push(concat3("if ", name, " == nil {"));
                    setup.push(owned("    panic(\"reference facade/model argument cannot be nil\")"));
                    setup.push(owned("}"));
                }
                setup.push(concat3("if ", name, " != nil {"));
                setup.push(text::concat5("    ", c_name.as_str(), " = ", name, ".ptr"));
                setup.push(owned("}"));
                args.push(c_name);
            },
        }
    } else {
        let cast = cgo_cast_type(ty);
        args.push(text::concat4(cast.as_str(), "(", name, ")"));
    }
    let r = RenderedCallPrep { setup_lines: setup, defer_lines: defers, post_call_lines: posts, args };
    assert(r@.setup =~= spec_prep_step(*config, function@, callbacks, param@, index as nat).setup);
    assert(r@.defers =~= spec_prep_step(*config, function@, callbacks, param@, index as nat).defers);
    assert(r@.posts =~= spec_prep_step(*config, function@, callbacks, param@, index as nat).posts);
    assert(r@.args =~= spec_prep_step(*config, function@, callbacks, param@, index as nat).args);
    r
}

/// Every primitive reference among the parameters from `start` on has a
/// Go type.
pub open spec fn references_typed_from(params: Seq<IrParamV>, start: int) -> bool {
    forall|i: int|
        start <= i < params.len() && #[trigger] params[i].ty.kind == IrTypeKind::Reference
            ==> spec_go_type_for_reference(params[i].ty) is Some
}

/// The call preparation of the parameters of `function` from `start` on.
fn prepare_call(config: &Config, function: &IrFunction, start: usize, callbacks: bool) -> (r:
    RenderedCallPrep)
    requires
        start <= function.params@.len(),
        references_typed_from(function@.params, start as int),
    ensures
        r@ == spec_call_prep(*config, function@, callbacks, function@.params.skip(start as int)),
{
    let ghost fv = function@;
    let ghost ps = fv.params.skip(start as int);
    let mut prep = RenderedCallPrep {
        setup_lines: Vec::new(),
        defer_lines: Vec::new(),
        post_call_lines: Vec::new(),
        args: Vec::new(),
    };
    assert(prep@ =~= prep_empty());
    assert(ps.take(0) =~= Seq::<IrParamV>::empty());
    let mut i: usize = start;
    while i < function.params.len()
        invariant
            start <= i <= function.params@.len(),
            fv == function@,
            ps == fv.params.skip(start as int),
            references_typed_from(fv.params, start as int),
            prep@ == spec_call_prep(*config, fv, callbacks, ps.take(i - start)),
        decreases function.params@.len() - i,
    {
        let param = &function.params[i];
        assert(fv.params[i as int] == param@);
        assert(ps.take(i + 1 - start).drop_last() =~= ps.take(i - start));
        assert(ps.take(i + 1 - start).last() == param@);
        if param.ty.kind == IrTypeKind::Reference {
            assert(fv.params[i as int].ty.kind == IrTypeKind::Reference);
        }
        let step = prep_step(config, function, callbacks, param, i - start);
        let ghost before = prep@;
        push_all(&mut prep.setup_lines, step.setup_lines);
        push_all(&mut prep.defer_lines, step.defer_lines);
        push_all(&mut prep.post_call_lines, step.post_call_lines);
        push_all(&mut prep.args, step.args);
        assert(prep@ == prep_concat(before, step@));
        i += 1;
    }
    assert(ps.take(function.params@.len() - start) =~= ps);
    prep
}

/// `    line\n` for each line.
pub open spec fn spec_indented_lines(lines: Seq<Seq<char>>) -> Seq<char>
    decreases lines.len(),
{
    if lines.len() == 0 {
        Seq::empty()
    } else {
        spec_indented_lines(lines.drop_last()) + "    "@ + lines.last() + "\n"@
    }
}

pub fn indented_lines(lines: &[String]) -> (r: String)
    ensures
        r@ == spec_indented_lines(text::views(lines@)),
{
    let ghost lv = text::views(lines@);
    let mut out = String::new();
    let mut i: usize = 0;
    assert(lv.take(0) =~= Seq::<Seq<char>>::empty());
    while i < lines.len()
        invariant
            i <= lines@.len(),
            lv == text::views(lines@),
            out@ == spec_indented_lines(lv.take(i as int)),
        decreases lines@.len() - i,
    {
        assert(lv.take(i + 1).drop_last() =~= lv.take(i as int));
        out.append("    ");
        out.append(lines[i].as_str());
        out.append("\n");
        i += 1;
    }
    assert(lv.take(lines@.len() as int) =~= lv);
    out
}

/// `name type` for each parameter from `start` on, joined by `, `.
pub open spec fn spec_param_list(config: Config, params: Seq<IrParamV>) -> Seq<char> {
    text::join(
        params.map_values(|p: IrParamV| p.name + " "@ + spec_go_param_type(config, p.ty)->0),
        ", "@,
    )
}

fn render_param_list(config: &Config, function: &IrFunction, start: usize) -> (r: String)
    requires
        start <= function.params@.len(),
        params_supported_from(*config, function@.params, start as int),
    ensures
        r@ == spec_param_list(*config, function@.params.skip(start as int)),
{
    let ghost fv = function@;
    let ghost ps = fv.params.skip(start as int);
    let ghost items = ps.map_values(
        |p: IrParamV| p.name + " "@ + spec_go_param_type(*config, p.ty)->0,
    );
    let mut parts: Vec<String> = Vec::new();
    let mut i: usize = start;
    assert(items.take(0) =~= Seq::<Seq<char>>::empty());
    while i < function.params.len()
        invariant
            start <= i <= function.params@.len(),
            fv == function@,
            ps == fv.params.skip(start as int),
            items == ps.map_values(
                |p: IrParamV| p.name + " "@ + spec_go_param_type(*config, p.ty)->0,
            ),
            params_supported_from(*config, fv.params, start as int),
            text::views(parts@) == items.take(i - start),
        decreases function.params@.len() - i,
    {
        let param = &function.params[i];
        let go_type = match go_param_type(config, &param.ty) {
            Some(g) => g,
            None => owned(""),
        };
        let part = concat3(param.name.as_str(), " ", go_type.as_str());
        let ghost before = text::views(parts@);
        parts.push(part);
        proof {
            assert(fv.params[i as int] == param@);
            assert(ps[i - start] == param@);
            assert(spec_go_param_type(*config, fv.params[i as int].ty) is Some);
            assert(items[i - start] == part@);
            assert(text::views(parts@) =~= before.push(part@));
            assert(items.take(i + 1 - start) =~= items.take(i - start).push(items[i - start]));
        }
        i += 1;
    }
    assert(items.take(function.params@.len() - start) =~= items);
    text::join_strings(&parts, ", ")
}


// ---------------------------------------------------------------------------
// Rendering functions and methods
// ---------------------------------------------------------------------------

/// A class that gets a Go facade type: the Go name, the handle type, and
/// the indices of its constructor, destructor and supported methods among
/// the module's wrappers.
pub struct AnalyzedFacadeClass {
    pub go_name: String,
    pub handle_name: String,
    pub constructor: usize,
    pub destructor: usize,
    pub methods: Vec<usize>,
}

/// The result part of a Go function signature, with the opening brace.
pub open spec fn spec_return_signature(t: IrTypeV) -> Seq<char> {
    if t.kind == IrTypeKind::Void {
        " {\n"@
    } else if t.kind == IrTypeKind::String || t.kind == IrTypeKind::CString {
        " (string, error) {\n"@
    } else if t.kind == IrTypeKind::Pointer {
        " "@ + spec_go_pointer_return_type(t)->0 + " {\n"@
    } else {
        " "@ + spec_go_type_for_ir(t)->0 + " {\n"@
    }
}

fn return_signature(ty: &IrType) -> (r: String)
    requires
        spec_go_return_supported(ty@),
    ensures
        r@ == spec_return_signature(ty@),
{
    if ty.kind == IrTypeKind::Void {
        owned(" {\n")
    } else if ty.kind == IrTypeKind::String || ty.kind == IrTypeKind::CString {
        owned(" (string, error) {\n")
    } else if ty.kind == IrTypeKind::Pointer {
        let g = match go_pointer_return_type(ty) {
            Some(g) => g,
            None => owned(""),
        };
        concat3(" ", g.as_str(), " {\n")
    } else {
        let g = match go_type_for_ir(ty) {
            Some(g) => g,
            None => owned(""),
        };
        concat3(" ", g.as_str(), " {\n")
    }
}

/// The early return of a method whose receiver is nil.
pub open spec fn spec_nil_receiver_guard(receiver: Seq<char>, t: IrTypeV) -> Seq<char> {
    "    if "@ + receiver + " == nil || "@ + receiver + ".ptr == nil {\n"@ + (if t.kind
        == IrTypeKind::Void {
        "        return\n"@
    } else if t.kind == IrTypeKind::String || t.kind == IrTypeKind::CString {
        "        return \"\", errors.New(\"facade receiver is nil\")\n"@
    } else if t.kind == IrTypeKind::Pointer {
        "        return nil\n"@
    } else {
        "        return "@ + spec_zero_value_for_go_type(spec_go_type_for_ir(t)->0) + "\n"@
    }) + "    }\n"@
}

fn nil_receiver_guard(receiver: &str, ty: &IrType) -> (r: String)
    requires
        spec_go_return_supported(ty@),
    ensures
        r@ == spec_nil_receiver_guard(receiver@, ty@),
{
    let mut out = text::concat5("    if ", receiver, " == nil || ", receiver, ".ptr == nil {\n");
    if ty.kind == IrTypeKind::Void {
        out.append("        return\n");
    } else if ty.kind == IrTypeKind::String || ty.kind == IrTypeKind::CString {
        out.append("        return \"\", errors.New(\"facade receiver is nil\")\n");
    } else if ty.kind == IrTypeKind::Pointer {
        out.append("        return nil\n");
    } else {
        let g = match go_type_for_ir(ty) {
            Some(g) => g,
            None => owned(""),
        };
        let z = zero_value_for_go_type(g.as_str());
        out.append("        return ");
        out.append(z.as_str());
        out.append("\n");
    }
    out.append("    }\n");
    out
}

/// The end of a function that returns an owned string.
pub open spec fn string_tail(prefix: Seq<char>) -> Seq<char> {
    "    if raw == nil {\n        return \"\", errors.New(\"wrapper returned nil string\")\n    }\n    defer C."@
        + prefix + "_string_free(raw)\n    return C.GoString(raw), nil\n"@
}

/// The end of a function that returns a borrowed C string.
pub open spec fn c_string_tail() -> Seq<char> {
    "    if raw == nil {\n        return \"\", errors.New(\"wrapper returned nil string\")\n    }\n    return C.GoString(raw), nil\n"@
}

/// The call and the conversion of its result, with the lines that follow
/// the call (`posts`, already indented).
pub open spec fn spec_call_body(t: IrTypeV, call: Seq<char>, posts: Seq<char>, prefix: Seq<char>) -> Seq<
    char,
> {
    if t.kind == IrTypeKind::Void {
        "    "@ + call + "\n"@ + posts
    } else if t.kind == IrTypeKind::String {
        "    raw := "@ + call + "\n"@ + posts + string_tail(prefix)
    } else if t.kind == IrTypeKind::CString {
        "    raw := "@ + call + "\n"@ + posts + c_string_tail()
    } else if t.kind == IrTypeKind::Pointer {
        "    raw := "@ + call + "\n"@ + posts + "    return ("@ + spec_go_pointer_return_type(t)->0
            + ")(unsafe.Pointer(raw))\n"@
    } else if spec_go_type_for_ir(t)->0 == "bool"@ {
        if posts.len() == 0 {
            "    return bool("@ + call + ")\n"@
        } else {
            "    result := "@ + call + "\n"@ + posts + "    return bool(result)\n"@
        }
    } else {
        "    return "@ + spec_go_type_for_ir(t)->0 + "("@ + call + ")\n"@
    }
}

fn call_body(ty: &IrType, call: &str, posts: &str, prefix: &str) -> (r: String)
    requires
        spec_go_return_supported(ty@),
    ensures
        r@ == spec_call_body(ty@, call@, posts@, prefix@),
{
    if ty.kind == IrTypeKind::Void {
        text::concat4("    ", call, "\n", posts)
    } else if ty.kind == IrTypeKind::String {
        let mut out = text::concat4("    raw := ", call, "\n", posts);
        out.append(
            "    if raw == nil {\n        return \"\", errors.New(\"wrapper returned nil string\")\n    }\n    defer C.",
        );
        out.append(prefix);
        out.append("_string_free(raw)\n    return C.GoString(raw), nil\n");
        out
    } else if ty.kind == IrTypeKind::CString {
        let mut out = text::concat4("    raw := ", call, "\n", posts);
        out.append(
            "    if raw == nil {\n        return \"\", errors.New(\"wrapper returned nil string\")\n    }\n    return C.GoString(raw), nil\n",
        );
        out
    } else if ty.kind == IrTypeKind::Pointer {
        let g = match go_pointer_return_type(ty) {
            Some(g) => g,
            None => owned(""),
        };
        let mut out = text::concat4("    raw := ", call, "\n", posts);
        out.append("    return (");
        out.append(g.as_str());
        out.append(")(unsafe.Pointer(raw))\n");
        out
    } else {
        let g = match go_type_for_ir(ty) {
            Some(g) => g,
            None => owned(""),
        };
        if str_eq(g.as_str(), "bool") {
            if posts.is_empty() {
                return text::concat3("    return bool(", call, ")\n");
            }
            let mut out = text::concat4("    result := ", call, "\n", posts);
            out.append("    return bool(result)\n");
            out
        } else {
            let mut out = text::concat4("    return ", g.as_str(), "(", call);
            out.append(")\n");
            out
        }
    }
}

/// The call through a callback bridge and the conversion of its result.
pub open spec fn spec_callback_call_body(t: IrTypeV, call: Seq<char>, prefix: Seq<char>) -> Seq<char> {
    if t.kind == IrTypeKind::Void {
        "    "@ + call + "\n"@
    } else if t.kind == IrTypeKind::String {
        "    raw := "@ + call + "\n"@ + string_tail(prefix)
    } else if t.kind == IrTypeKind::CString {
        "    raw := "@ + call + "\n"@ + c_string_tail()
    } else if t.kind == IrTypeKind::Pointer {
        "    raw := "@ + call + "\n"@ + "    return ("@ + spec_go_pointer_return_type(t)->0
            + ")(unsafe.Pointer(raw))\n"@
    } else {
        "    result := "@ + call + "\n"@ + "    return "@ + spec_go_type_for_ir(t)->0 + "(result)\n"@
    }
}

fn callback_call_body(ty: &IrType, call: &str, prefix: &str) -> (r: String)
    requires
        spec_go_return_supported(ty@),
    ensures
        r@ == spec_callback_call_body(ty@, call@, prefix@),
{
    if ty.kind == IrTypeKind::Void {
        concat3("    ", call, "\n")
    } else if ty.kind == IrTypeKind::String {
        let mut out = concat3("    raw := ", call, "\n");
        out.append(
            "    if raw == nil {\n        return \"\", errors.New(\"wrapper returned nil string\")\n    }\n    defer C.",
        );
        out.append(prefix);
        out.append("_string_free(raw)\n    return C.GoString(raw), nil\n");
        out
    } else if ty.kind == IrTypeKind::CString {
        let mut out = concat3("    raw := ", call, "\n");
        out.append(
            "    if raw == nil {\n        return \"\", errors.New(\"wrapper returned nil string\")\n    }\n    return C.GoString(raw), nil\n",
        );
        out
    } else if ty.kind == IrTypeKind::Pointer {
        let g = match go_pointer_return_type(ty) {
            Some(g) => g,
            None => owned(""),
        };
        let mut out = concat3("    raw := ", call, "\n");
        out.append("    return (");
        out.append(g.as_str());
        out.append(")(unsafe.Pointer(raw))\n");
        out
    } else {
        let g = match go_type_for_ir(ty) {
            Some(g) => g,
            None => owned(""),
        };
        let mut out = concat3("    result := ", call, "\n");
        out.append("    return ");
        out.append(g.as_str());
        out.append("(result)\n");
        out
    }
}

/// Whether a parameter from `start` on is a callback.
pub open spec fn has_callback_from(params: Seq<IrParamV>, start: int) -> bool {
    exists|i: int| start <= i < params.len() && #[trigger] params[i].ty.kind == IrTypeKind::Callback
}

fn has_callback_param(function: &IrFunction, start: usize) -> (r: bool)
    ensures
        r == has_callback_from(function@.params, start as int),
{
    let ghost fv = function@;
    let mut i: usize = start;
    while i < function.params.len()
        invariant
            start <= i,
            fv == function@,
            forall|j: int| start <= j < i ==> #[trigger] fv.params[j].ty.kind != IrTypeKind::Callback,
        decreases function.params@.len() - i,
    {
        assert(fv.params[i as int] == function.params@[i as int]@);
        if function.params[i].ty.kind == IrTypeKind::Callback {
            assert(fv.params[i as int].ty.kind == IrTypeKind::Callback);
            return true;
        }
        i += 1;
    }
    false
}

proof fn lemma_supported_references_typed(config: Config, params: Seq<IrParamV>, start: int)
    requires
        params_supported_from(config, params, start),
    ensures
        references_typed_from(params, start),
{
    assert forall|i: int|
        start <= i < params.len() && #[trigger] params[i].ty.kind == IrTypeKind::Reference implies spec_go_type_for_reference(
        params[i].ty,
    ) is Some by {
        assert(spec_go_param_type(config, params[i].ty) is Some);
    }
}

/// The Go facade of a free function that takes a callback: it registers
/// the callbacks and calls the wrapper's bridge.
#[verifier::opaque]
pub open spec fn spec_render_callback_free_function(config: Config, f: IrFunctionV) -> Seq<char> {
    let prep = spec_call_prep(config, f, true, f.params);
    let call = "C."@ + f.name + "_bridge("@ + text::join(prep.args, ", "@) + ")"@;
    "func "@ + spec_go_facade_export_name(f) + "("@ + spec_param_list(config, f.params) + ")"@
        + spec_return_signature(f.returns) + spec_indented_lines(prep.setup) + spec_indented_lines(
        prep.defers,
    ) + spec_callback_call_body(f.returns, call, config.naming.prefix@) + "}\n"@
}

/// The Go facade of a free function: its Go signature, the conversions of
/// its arguments, the wrapper call and the conversion of its result.
#[verifier::opaque]
pub open spec fn spec_render_free_function(config: Config, f: IrFunctionV) -> Seq<char> {
    if has_callback_from(f.params, 0) {
        spec_render_callback_free_function(config, f)
    } else {
        let prep = spec_call_prep(config, f, false, f.params);
        let call = "C."@ + f.name + "("@ + text::join(prep.args, ", "@) + ")"@;
        "func "@ + spec_go_facade_export_name(f) + "("@ + spec_param_list(config, f.params) + ")"@
            + spec_return_signature(f.returns) + spec_indented_lines(prep.setup)
            + spec_indented_lines(prep.defers) + spec_call_body(
            f.returns,
            call,
            spec_indented_lines(prep.posts),
            config.naming.prefix@,
        ) + "}\n"@
    }
}

pub fn render_callback_free_function(config: &Config, function: &IrFunction) -> (r: String)
    requires
        spec_free_function_supported(*config, function@),
    ensures
        r@ == spec_render_callback_free_function(*config, function@),
{
    proof {
        reveal(spec_render_callback_free_function);
    }
    proof {
        lemma_supported_references_typed(*config, function@.params, 0);
        assert(function@.params.skip(0) =~= function@.params);
    }
    let params = render_param_list(config, function, 0);
    let prep = prepare_call(config, function, 0, true);
    let args = text::join_strings(&prep.args, ", ");
    let mut call = text::concat4("C.", function.name.as_str(), "_bridge(", args.as_str());
    call.append(")");
    let go_name = go_facade_export_name(function);
    let sig = return_signature(&function.returns);
    let setup = indented_lines(&prep.setup_lines);
    let defers = indented_lines(&prep.defer_lines);
    let body = callback_call_body(&function.returns, call.as_str(), config.naming.prefix.as_str());
    let mut out = text::concat5("func ", go_name.as_str(), "(", params.as_str(), ")");
    out.append(sig.as_str());
    out.append(setup.as_str());
    out.append(defers.as_str());
    out.append(body.as_str());
    out.append("}\n");
    out
}

pub fn render_free_function(config: &Config, function: &IrFunction) -> (r: String)
    requires
        spec_free_function_supported(*config, function@),
    ensures
        r@ == spec_render_free_function(*config, function@),
{
    proof {
        reveal(spec_render_free_function);
    }
    if has_callback_param(function, 0) {
        return render_callback_free_function(config, function);
    }
    proof {
        lemma_supported_references_typed(*config, function@.params, 0);
        assert(function@.params.skip(0) =~= function@.params);
    }
    let params = render_param_list(config, function, 0);
    let prep = prepare_call(config, function, 0, false);
    let args = text::join_strings(&prep.args, ", ");
    let call = text::concat5("C.", function.name.as_str(), "(", args.as_str(), ")");
    let go_name = go_facade_export_name(function);
    let sig = return_signature(&function.returns);
    let setup = indented_lines(&prep.setup_lines);
    let defers = indented_lines(&prep.defer_lines);
    let posts = indented_lines(&prep.post_call_lines);
    let body = call_body(
        &function.returns,
        call.as_str(),
        posts.as_str(),
        config.naming.prefix.as_str(),
    );
    let mut out = text::concat5("func ", go_name.as_str(), "(", params.as_str(), ")");
    out.append(sig.as_str());
    out.append(setup.as_str());
    out.append(defers.as_str());
    out.append(body.as_str());
    out.append("}\n");
    out
}

/// The parameters after `self` (none where there are none).
pub open spec fn after_self(ps: Seq<IrParamV>) -> Seq<IrParamV> {
    if ps.len() > 0 {
        ps.skip(1)
    } else {
        ps
    }
}

/// The Go facade of a method that takes a callback.
#[verifier::opaque]
pub open spec fn spec_render_callback_method(config: Config, go_name: Seq<char>, f: IrFunctionV) -> Seq<
    char,
> {
    let receiver = spec_receiver_name(go_name);
    let ps = after_self(f.params);
    let prep = spec_call_prep(config, f, true, ps);
    let call = "C."@ + f.name + "_bridge"@ + "("@ + text::join(
        seq![receiver + ".ptr"@] + prep.args,
        ", "@,
    ) + ")"@;
    "func ("@ + receiver + " *"@ + go_name + ") "@ + spec_go_method_export_name(f) + "("@
        + spec_param_list(config, ps) + ")"@ + spec_return_signature(f.returns)
        + spec_nil_receiver_guard(receiver, f.returns) + spec_indented_lines(prep.setup)
        + spec_indented_lines(prep.defers) + spec_callback_call_body(
        f.returns,
        call,
        config.naming.prefix@,
    ) + "}\n"@
}

/// The Go facade of a method of a facade class.
#[verifier::opaque]
pub open spec fn spec_render_general_api_method(
    config: Config,
    go_name: Seq<char>,
    f: IrFunctionV,
) -> Seq<char> {
    if has_callback_from(f.params, 1) {
        spec_render_callback_method(config, go_name, f)
    } else {
        let receiver = spec_receiver_name(go_name);
        let ps = after_self(f.params);
        let prep = spec_call_prep(config, f, false, ps);
        let call = "C."@ + f.name + "("@ + text::join(seq![receiver + ".ptr"@] + prep.args, ", "@)
            + ")"@;
        "func ("@ + receiver + " *"@ + go_name + ") "@ + spec_go_method_export_name(f) + "("@
            + spec_param_list(config, ps) + ")"@ + spec_return_signature(f.returns)
            + spec_nil_receiver_guard(receiver, f.returns) + spec_indented_lines(prep.setup)
            + spec_indented_lines(prep.defers) + spec_call_body(
            f.returns,
            call,
            spec_indented_lines(prep.posts),
            config.naming.prefix@,
        ) + "}\n"@
    }
}

fn method_call(name: &str, suffix: &str, receiver: &str, args: &Vec<String>) -> (r: String)
    ensures
        r@ == "C."@ + name@ + suffix@ + "("@ + text::join(seq![receiver@ + ".ptr"@] + text::views(args@), ", "@)
            + ")"@,
{
    let mut all: Vec<String> = Vec::new();
    all.push(concat2(receiver, ".ptr"));
    let ghost head = text::views(all@);
    assert(head =~= seq![receiver@ + ".ptr"@]);
    let mut i: usize = 0;
    while i < args.len()
        invariant
            i <= args@.len(),
            text::views(all@) == head + text::views(args@).take(i as int),
        decreases args@.len() - i,
    {
        let a = args[i].clone();
        let ghost before = text::views(all@);
        all.push(a);
        assert(text::views(all@) =~= before.push(a@));
        assert(text::views(args@).take(i + 1) =~= text::views(args@).take(i as int).push(
            args@[i as int]@,
        ));
        i += 1;
    }
    assert(text::views(args@).take(args@.len() as int) =~= text::views(args@));
    let joined = text::join_strings(&all, ", ");
    let mut out = text::concat4("C.", name, suffix, "(");
    out.append(joined.as_str());
    out.append(")");
    out
}

pub fn render_callback_method(config: &Config, class: &AnalyzedFacadeClass, function: &IrFunction) -> (r:
    String)
    requires
        spec_method_supported(*config, function@),
    ensures
        r@ == spec_render_callback_method(*config, class.go_name@, function@),
{
    proof {
        reveal(spec_render_callback_method);
    }
    let start: usize = if function.params.len() > 0 {
        1
    } else {
        0
    };
    proof {
        lemma_supported_references_typed(*config, function@.params, 1);
        lemma_supported_references_typed(*config, function@.params, start as int);
        assert(after_self(function@.params) =~= function@.params.skip(start as int));
    }
    let receiver = receiver_name(class.go_name.as_str());
    let params = render_param_list(config, function, start);
    let prep = prepare_call(config, function, start, true);
    let call = method_call(function.name.as_str(), "_bridge", receiver.as_str(), &prep.args);
    let export = go_method_export_name(function);
    let sig = return_signature(&function.returns);
    let guard = nil_receiver_guard(receiver.as_str(), &function.returns);
    let setup = indented_lines(&prep.setup_lines);
    let defers = indented_lines(&prep.defer_lines);
    let body = callback_call_body(&function.returns, call.as_str(), config.naming.prefix.as_str());
    let mut out = text::concat5("func (", receiver.as_str(), " *", class.go_name.as_str(), ") ");
    out.append(export.as_str());
    out.append("(");
    out.append(params.as_str());
    out.append(")");
    out.append(sig.as_str());
    out.append(guard.as_str());
    out.append(setup.as_str());
    out.append(defers.as_str());
    out.append(body.as_str());
    out.append("}\n");
    out
}

pub fn render_general_api_method(
    config: &Config,
    class: &AnalyzedFacadeClass,
    function: &IrFunction,
) -> (r: String)
    requires
        spec_method_supported(*config, function@),
    ensures
        r@ == spec_render_general_api_method(*config, class.go_name@, function@),
{
    proof {
        reveal(spec_render_general_api_method);
    }
    if has_callback_param(function, 1) {
        return render_callback_method(config, class, function);
    }
    let start: usize = if function.params.len() > 0 {
        1
    } else {
        0
    };
    proof {
        lemma_supported_references_typed(*config, function@.params, 1);
        lemma_supported_references_typed(*config, function@.params, start as int);
        assert(after_self(function@.params) =~= function@.params.skip(start as int));
    }
    let receiver = receiver_name(class.go_name.as_str());
    let params = render_param_list(config, function, start);
    let prep = prepare_call(config, function, start, false);
    let call = method_call(function.name.as_str(), "", receiver.as_str(), &prep.args);
    proof {
        reveal_strlit("");
        assert(function.name@ + ""@ =~= function.name@);
    }
    let export = go_method_export_name(function);
    let sig = return_signature(&function.returns);
    let guard = nil_receiver_guard(receiver.as_str(), &function.returns);
    let setup = indented_lines(&prep.setup_lines);
    let defers = indented_lines(&prep.defer_lines);
    let posts = indented_lines(&prep.post_call_lines);
    let body = call_body(
        &function.returns,
        call.as_str(),
        posts.as_str(),
        config.naming.prefix.as_str(),
    );
    let mut out = text::concat5("func (", receiver.as_str(), " *", class.go_name.as_str(), ") ");
    out.append(export.as_str());
    out.append("(");
    out.append(params.as_str());
    out.append(")");
    out.append(sig.as_str());
    out.append(guard.as_str());
    out.append(setup.as_str());
    out.append(defers.as_str());
    out.append(body.as_str());
    out.append("}\n");
    out
}


// ---------------------------------------------------------------------------
// Rendering facade classes, enums and callbacks
// ---------------------------------------------------------------------------

/// The Go type of a facade class.
pub open spec fn spec_render_facade_class(go_name: Seq<char>, handle_name: Seq<char>) -> Seq<char> {
    "type "@ + go_name + " struct {\n    ptr *C."@ + handle_name + "\n}\n"@
}

pub fn render_facade_class(class: &AnalyzedFacadeClass) -> (r: String)
    ensures
        r@ == spec_render_facade_class(class.go_name@, class.handle_name@),
{
    text::concat5(
        "type ",
        class.go_name.as_str(),
        " struct {\n    ptr *C.",
        class.handle_name.as_str(),
        "\n}\n",
    )
}

/// The Go constructor of a facade class.
#[verifier::opaque]
pub open spec fn spec_render_facade_constructor(config: Config, go_name: Seq<char>, ctor: IrFunctionV) -> Seq<
    char,
> {
    let prep = spec_call_prep(config, ctor, false, ctor.params);
    "func New"@ + go_name + "("@ + spec_param_list(config, ctor.params) + ") (*"@ + go_name
        + ", error) {\n"@ + spec_indented_lines(prep.setup) + spec_indented_lines(prep.defers)
        + "    ptr := C."@ + ctor.name + "("@ + text::join(prep.args, ", "@) + ")\n"@
        + spec_indented_lines(prep.posts)
        + "    if ptr == nil {\n        return nil, errors.New(\"wrapper returned nil facade handle\")\n    }\n    return &"@
        + go_name + "{ptr: ptr}, nil\n}\n"@
}

pub fn render_facade_constructor(config: &Config, class: &AnalyzedFacadeClass, constructor: &IrFunction) -> (r:
    String)
    requires
        params_supported_from(*config, constructor@.params, 0),
    ensures
        r@ == spec_render_facade_constructor(*config, class.go_name@, constructor@),
{
    proof {
        reveal(spec_render_facade_constructor);
    }
    proof {
        lemma_supported_references_typed(*config, constructor@.params, 0);
        assert(constructor@.params.skip(0) =~= constructor@.params);
    }
    let go = class.go_name.as_str();
    let params = render_param_list(config, constructor, 0);
    let prep = prepare_call(config, constructor, 0, false);
    let setup = indented_lines(&prep.setup_lines);
    let defers = indented_lines(&prep.defer_lines);
    let posts = indented_lines(&prep.post_call_lines);
    let args = text::join_strings(&prep.args, ", ");
    let mut out = text::concat5("func New", go, "(", params.as_str(), ") (*");
    out.append(go);
    out.append(", error) {\n");
    out.append(setup.as_str());
    out.append(defers.as_str());
    out.append("    ptr := C.");
    out.append(constructor.name.as_str());
    out.append("(");
    out.append(args.as_str());
    out.append(")\n");
    out.append(posts.as_str());
    out.append(
        "    if ptr == nil {\n        return nil, errors.New(\"wrapper returned nil facade handle\")\n    }\n    return &",
    );
    out.append(go);
    out.append("{ptr: ptr}, nil\n}\n");
    out
}

/// The `Close` method of a facade class, which releases the handle.
pub open spec fn spec_render_facade_close(go_name: Seq<char>, destructor: Seq<char>) -> Seq<char> {
    let r = spec_receiver_name(go_name);
    "func ("@ + r + " *"@ + go_name + ") Close() {\n    if "@ + r + " == nil || "@ + r
        + ".ptr == nil {\n        return\n    }\n    C."@ + destructor + "("@ + r + ".ptr)\n    "@
        + r + ".ptr = nil\n}\n"@
}

pub fn render_facade_close(class: &AnalyzedFacadeClass, destructor: &IrFunction) -> (r: String)
    ensures
        r@ == spec_render_facade_close(class.go_name@, destructor.name@),
{
    let rv = receiver_name(class.go_name.as_str());
    let r = rv.as_str();
    let mut out = text::concat5("func (", r, " *", class.go_name.as_str(), ") Close() {\n    if ");
    out.append(r);
    out.append(" == nil || ");
    out.append(r);
    out.append(".ptr == nil {\n        return\n    }\n    C.");
    out.append(destructor.name.as_str());
    out.append("(");
    out.append(r);
    out.append(".ptr)\n    ");
    out.append(r);
    out.append(".ptr = nil\n}\n");
    out
}

/// The constants of one enum: `    name Type = value`, with `0` for a
/// variant without a value.
pub open spec fn spec_enum_consts(
    variants: Seq<crate::codegen::ir_norm::IrEnumVariant>,
    name: Seq<char>,
) -> Seq<char>
    decreases variants.len(),
{
    if variants.len() == 0 {
        Seq::empty()
    } else {
        let v = variants.last();
        spec_enum_consts(variants.drop_last(), name) + "    "@ + v.name@ + " "@ + name + " = "@
            + match opt_view(v.value) {
            Some(x) => x,
            None => "0"@,
        } + "\n"@
    }
}

/// An enum as a Go integer type and its constants.
#[verifier::opaque]
pub open spec fn spec_render_go_enum(item: IrEnum) -> Seq<char> {
    let name = spec_leaf_cpp_name(item.cpp_name@);
    "type "@ + name + " int64\n\n"@ + "const (\n"@ + spec_enum_consts(item.variants@, name) + ")\n"@
}

pub fn render_go_enum(item: &IrEnum) -> (r: String)
    ensures
        r@ == spec_render_go_enum(*item),
{
    proof {
        reveal(spec_render_go_enum);
    }
    let name = leaf_cpp_name(item.cpp_name.as_str());
    let mut consts = String::new();
    let mut i: usize = 0;
    assert(item.variants@.take(0) =~= Seq::<crate::codegen::ir_norm::IrEnumVariant>::empty());
    while i < item.variants.len()
        invariant
            i <= item.variants@.len(),
            name@ == spec_leaf_cpp_name(item.cpp_name@),
            consts@ == spec_enum_consts(item.variants@.take(i as int), name@),
        decreases item.variants@.len() - i,
    {
        assert(item.variants@.take(i + 1).drop_last() =~= item.variants@.take(i as int));
        let v = &item.variants[i];
        let value = match &v.value {
            Some(x) => x.clone(),
            None => owned("0"),
        };
        consts.append("    ");
        consts.append(v.name.as_str());
        consts.append(" ");
        consts.append(name.as_str());
        consts.append(" = ");
        consts.append(value.as_str());
        consts.append("\n");
        i += 1;
    }
    assert(item.variants@.take(item.variants@.len() as int) =~= item.variants@);
    let mut out = concat3("type ", name.as_str(), " int64\n\n");
    out.append("const (\n");
    out.append(consts.as_str());
    out.append(")\n");
    out
}

/// `name type` for each callback parameter, with the type given by `ty`.
pub open spec fn spec_callback_param_list(params: Seq<IrParamV>, cgo: bool) -> Seq<char> {
    text::join(
        params.map_values(
            |p: IrParamV|
                p.name + " "@ + if cgo {
                    spec_callback_cgo_param_type(p.ty)
                } else {
                    spec_callback_go_type(p.ty)
                },
        ),
        ", "@,
    )
}

fn callback_param_list(params: &Vec<IrParam>, cgo: bool) -> (r: String)
    ensures
        r@ == spec_callback_param_list(param_views(params@), cgo),
{
    let ghost pv = param_views(params@);
    let ghost items = pv.map_values(
        |p: IrParamV|
            p.name + " "@ + if cgo {
                spec_callback_cgo_param_type(p.ty)
            } else {
                spec_callback_go_type(p.ty)
            },
    );
    let mut parts: Vec<String> = Vec::new();
    let mut i: usize = 0;
    while i < params.len()
        invariant
            i <= params@.len(),
            pv == param_views(params@),
            items == pv.map_values(
                |p: IrParamV|
                    p.name + " "@ + if cgo {
                        spec_callback_cgo_param_type(p.ty)
                    } else {
                        spec_callback_go_type(p.ty)
                    },
            ),
            text::views(parts@) == items.take(i as int),
        decreases params@.len() - i,
    {
        let p = &params[i];
        let t = if cgo {
            callback_cgo_param_type(&p.ty)
        } else {
            callback_go_type(&p.ty)
        };
        let part = concat3(p.name.as_str(), " ", t.as_str());
        let ghost before = text::views(parts@);
        parts.push(part);
        proof {
            assert(pv[i as int] == p@);
            assert(items[i as int] == part@);
            assert(text::views(parts@) =~= before.push(part@));
            assert(items.take(i + 1) =~= items.take(i as int).push(items[i as int]));
        }
        i += 1;
    }
    assert(items.take(params@.len() as int) =~= items);
    text::join_strings(&parts, ", ")
}

/// The Go function type of a callback typedef.
#[verifier::opaque]
pub open spec fn spec_render_callback_type(c: IrCallback) -> Seq<char> {
    "type "@ + c.name@ + " func("@ + spec_callback_param_list(param_views(c.params@), false) + ")"@
        + (if c.returns.kind == IrTypeKind::Void {
        Seq::empty()
    } else {
        " "@ + spec_callback_go_type(c.returns@)
    }) + "\n"@
}

pub fn render_callback_type(callback: &IrCallback) -> (r: String)
    ensures
        r@ == spec_render_callback_type(*callback),
{
    proof {
        reveal(spec_render_callback_type);
    }
    let params = callback_param_list(&callback.params, false);
    let mut out = text::concat5("type ", callback.name.as_str(), " func(", params.as_str(), ")");
    if callback.returns.kind != IrTypeKind::Void {
        let g = callback_go_type(&callback.returns);
        out.append(" ");
        out.append(g.as_str());
    } else {
        assert(out@ + Seq::<char>::empty() =~= out@);
    }
    out.append("\n");
    out
}

/// The Go variable that holds the callback registered for one parameter.
pub open spec fn spec_render_callback_registry(state: Seq<char>, callback_name: Seq<char>) -> Seq<char> {
    "var "@ + state + " struct {\n    mu sync.RWMutex\n    fn "@ + callback_name + "\n}\n"@
}

pub fn render_callback_registry(function: &IrFunction, param_index: usize, callback: &IrCallback) -> (r:
    String)
    ensures
        r@ == spec_render_callback_registry(
            spec_callback_state_name(function@, param_index as nat),
            callback.name@,
        ),
{
    let state = callback_state_name_from_function(function, param_index);
    text::concat5(
        "var ",
        state.as_str(),
        " struct {\n    mu sync.RWMutex\n    fn ",
        callback.name.as_str(),
        "\n}\n",
    )
}

/// The arguments that the exported Go function hands the callback.
pub open spec fn spec_callback_go_args(params: Seq<IrParamV>) -> Seq<char> {
    text::join(params.map_values(|p: IrParamV| spec_render_callback_go_arg(p.ty, p.name)), ", "@)
}

fn callback_go_args(params: &Vec<IrParam>) -> (r: String)
    ensures
        r@ == spec_callback_go_args(param_views(params@)),
{
    let ghost pv = param_views(params@);
    let ghost items = pv.map_values(|p: IrParamV| spec_render_callback_go_arg(p.ty, p.name));
    let mut parts: Vec<String> = Vec::new();
    let mut i: usize = 0;
    while i < params.len()
        invariant
            i <= params@.len(),
            pv == param_views(params@),
            items == pv.map_values(|p: IrParamV| spec_render_callback_go_arg(p.ty, p.name)),
            text::views(parts@) == items.take(i as int),
        decreases params@.len() - i,
    {
        let p = &params[i];
        let part = render_callback_go_arg(&p.ty, p.name.as_str());
        let ghost before = text::views(parts@);
        parts.push(part);
        proof {
            assert(pv[i as int] == p@);
            assert(text::views(parts@) =~= before.push(part@));
            assert(items.take(i + 1) =~= items.take(i as int).push(items[i as int]));
        }
        i += 1;
    }
    assert(items.take(params@.len() as int) =~= items);
    text::join_strings(&parts, ", ")
}

/// The exported Go function through which C calls a registered callback:
/// it returns the zero value when none is registered.
#[verifier::opaque]
pub open spec fn spec_render_callback_export(f: IrFunctionV, param_index: nat, c: IrCallback) -> Seq<char> {
    let export = spec_callback_go_export_name(f, param_index);
    let state = spec_callback_state_name(f, param_index);
    let ret = c.returns@;
    let void = ret.kind == IrTypeKind::Void;
    "//export "@ + export + "\n"@ + "func "@ + export + "("@ + spec_callback_param_list(
        param_views(c.params@),
        true,
    ) + ")"@ + (if void {
        Seq::empty()
    } else {
        " "@ + spec_cgo_cast_type_from_c_type(ret.c_type)
    }) + " {\n"@ + "    "@ + state + ".mu.RLock()\n    fn := "@ + state + ".fn\n    "@ + state
        + ".mu.RUnlock()\n    if fn == nil {\n"@ + (if void {
        "        return\n"@
    } else {
        "        return "@ + spec_zero_value_for_go_type(
            match spec_go_type_for_ir(ret) {
                Some(g) => g,
                None => "int"@,
            },
        ) + "\n"@
    }) + "    }\n"@ + (if void {
        "    fn("@ + spec_callback_go_args(param_views(c.params@)) + ")\n"@
    } else {
        "    return "@ + spec_cgo_cast_type_from_c_type(ret.c_type) + "(fn("@ + spec_callback_go_args(
            param_views(c.params@),
        ) + "))\n"@
    }) + "}\n"@
}

#[verifier::rlimit(50)]
pub fn render_callback_export(function: &IrFunction, param_index: usize, callback: &IrCallback) -> (r:
    String)
    ensures
        r@ == spec_render_callback_export(function@, param_index as nat, *callback),
{
    proof {
        reveal(spec_render_callback_export);
    }
    let export = callback_go_export_name(function, param_index);
    let state = callback_state_name_from_function(function, param_index);
    let params = callback_param_list(&callback.params, true);
    let args = callback_go_args(&callback.params);
    let void = callback.returns.kind == IrTypeKind::Void;
    let mut out = concat3("//export ", export.as_str(), "\n");
    out.append("func ");
    out.append(export.as_str());
    out.append("(");
    out.append(params.as_str());
    out.append(")");
    let cast = cgo_cast_type_from_c_type(callback.returns.c_type.as_str());
    if !void {
        out.append(" ");
        out.append(cast.as_str());
    } else {
        assert(out@ + Seq::<char>::empty() =~= out@);
    }
    out.append(" {\n");
    out.append("    ");
    out.append(state.as_str());
    out.append(".mu.RLock()\n    fn := ");
    out.append(state.as_str());
    out.append(".fn\n    ");
    out.append(state.as_str());
    out.append(".mu.RUnlock()\n    if fn == nil {\n");
    if void {
        out.append("        return\n");
    } else {
        let g = match go_type_for_ir(&callback.returns) {
            Some(g) => g,
            None => owned("int"),
        };
        let z = zero_value_for_go_type(g.as_str());
        out.append("        return ");
        out.append(z.as_str());
        out.append("\n");
    }
    out.append("    }\n");
    if void {
        out.append("    fn(");
        out.append(args.as_str());
        out.append(")\n");
    } else {
        out.append("    return ");
        out.append(cast.as_str());
        out.append("(fn(");
        out.append(args.as_str());
        out.append("))\n");
    }
    out.append("}\n");
    out
}


// ---------------------------------------------------------------------------
// Export collisions
// ---------------------------------------------------------------------------

/// How many of the first `k` strings equal `x`.
pub open spec fn count_eq(xs: Seq<Seq<char>>, x: Seq<char>, k: int) -> nat
    decreases k,
{
    if k <= 0 {
        0
    } else {
        count_eq(xs, x, k - 1) + if xs[k - 1] == x {
            1nat
        } else {
            0nat
        }
    }
}

/// The strings that occur twice or more among the first `k`.
pub open spec fn duplicates_upto(xs: Seq<Seq<char>>, k: int) -> Set<Seq<char>> {
    Set::new(
        |x: Seq<char>|
            exists|i: int| 0 <= i < k && #[trigger] xs[i] == x && count_eq(xs, x, xs.len() as int) > 1,
    )
}

pub open spec fn duplicates(xs: Seq<Seq<char>>) -> Set<Seq<char>> {
    duplicates_upto(xs, xs.len() as int)
}

/// The names paired with the first `k` occurrences of `x`, in order.
pub open spec fn names_for(xs: Seq<Seq<char>>, names: Seq<Seq<char>>, x: Seq<char>, k: int) -> Seq<
    Seq<char>,
>
    decreases k,
{
    if k <= 0 {
        Seq::empty()
    } else {
        names_for(xs, names, x, k - 1) + if xs[k - 1] == x {
            seq![names[k - 1]]
        } else {
            Seq::empty()
        }
    }
}

/// What the collision error says of one export.
pub open spec fn collision_detail(
    xs: Seq<Seq<char>>,
    names: Seq<Seq<char>>,
    lead: Seq<char>,
    x: Seq<char>,
) -> Seq<char> {
    lead + x + "` collides for: "@ + text::join(names_for(xs, names, x, xs.len() as int), ", "@)
}

/// The collision error: each export that occurs twice or more, in sorted
/// order, with the declarations it stands for.
pub open spec fn collisions_message(xs: Seq<Seq<char>>, names: Seq<Seq<char>>, lead: Seq<char>) -> Seq<
    char,
> {
    "facade export collision detected: "@ + text::join(
        text::sorted_of(duplicates(xs)).map_values(
            |x: Seq<char>| collision_detail(xs, names, lead, x),
        ),
        "; "@,
    )
}

fn count_eq_exec(xs: &Vec<String>, x: &str) -> (r: usize)
    ensures
        r == count_eq(text::views(xs@), x@, xs@.len() as int),
{
    let ghost v = text::views(xs@);
    let mut n: usize = 0;
    let mut j: usize = 0;
    while j < xs.len()
        invariant
            v == text::views(xs@),
            j <= xs@.len(),
            n == count_eq(v, x@, j as int),
            n <= j,
        decreases xs@.len() - j,
    {
        if str_eq(xs[j].as_str(), x) {
            n += 1;
        }
        j += 1;
    }
    n
}

fn names_for_exec(xs: &Vec<String>, names: &Vec<String>, x: &str) -> (r: Vec<String>)
    requires
        xs@.len() == names@.len(),
    ensures
        text::views(r@) == names_for(text::views(xs@), text::views(names@), x@, xs@.len() as int),
{
    let ghost v = text::views(xs@);
    let ghost nv = text::views(names@);
    let mut out: Vec<String> = Vec::new();
    let mut j: usize = 0;
    while j < xs.len()
        invariant
            v == text::views(xs@),
            nv == text::views(names@),
            xs@.len() == names@.len(),
            j <= xs@.len(),
            text::views(out@) == names_for(v, nv, x@, j as int),
        decreases xs@.len() - j,
    {
        let ghost before = text::views(out@);
        if str_eq(xs[j].as_str(), x) {
            let n = names[j].clone();
            out.push(n);
            assert(text::views(out@) =~= before + seq![n@]);
        } else {
            assert(text::views(out@) =~= before + Seq::<Seq<char>>::empty());
        }
        j += 1;
    }
    out
}

/// Fails with the collision error where an export occurs twice or more.
fn check_export_collisions(exports: &Vec<String>, names: &Vec<String>, lead: &str) -> (r: Result<
    (),
    String,
>)
    requires
        exports@.len() == names@.len(),
    ensures
        r is Ok <==> duplicates(text::views(exports@)) == Set::<Seq<char>>::empty(),
        r matches Err(e) ==> e@ == collisions_message(
            text::views(exports@),
            text::views(names@),
            lead@,
        ),
{
    let ghost xs = text::views(exports@);
    let n = exports.len();
    let mut dups: Vec<String> = Vec::new();
    let mut i: usize = 0;
    assert(text::views(dups@).to_set() =~= duplicates_upto(xs, 0));
    while i < n
        invariant
            n == exports@.len(),
            xs == text::views(exports@),
            i <= n,
            text::sorted_strictly(text::views(dups@)),
            text::views(dups@).to_set() == duplicates_upto(xs, i as int),
        decreases n - i,
    {
        let x = exports[i].as_str();
        let total = count_eq_exec(exports, x);
        if total > 1 && !text::contains_string(&dups, x) {
            text::insert_sorted(&mut dups, exports[i].clone());
        }
        proof {
            let now = text::views(dups@).to_set();
            assert forall|y: Seq<char>| #[trigger] now.contains(y) == duplicates_upto(
                xs,
                i + 1,
            ).contains(y) by {
                if duplicates_upto(xs, i + 1).contains(y) {
                    let j = choose|j: int|
                        0 <= j < i + 1 && #[trigger] xs[j] == y && count_eq(xs, y, xs.len() as int)
                            > 1;
                    if j < i {
                        assert(duplicates_upto(xs, i as int).contains(y));
                    }
                }
                if duplicates_upto(xs, i as int).contains(y) {
                    let j = choose|j: int|
                        0 <= j < i && #[trigger] xs[j] == y && count_eq(xs, y, xs.len() as int) > 1;
                    assert(duplicates_upto(xs, i + 1).contains(y));
                }
                if total > 1 && y == x@ {
                    assert(xs[i as int] == y);
                    assert(duplicates_upto(xs, i + 1).contains(y));
                }
            }
            assert(now =~= duplicates_upto(xs, i + 1));
        }
        i += 1;
    }
    if dups.len() == 0 {
        assert(duplicates(xs) =~= Set::<Seq<char>>::empty());
        return Ok(());
    }
    proof {
        assert(duplicates(xs).contains(text::views(dups@)[0]));
        text::lemma_sorted_of(text::views(dups@));
    }
    let ghost syms = text::views(dups@);
    let mut entries: Vec<String> = Vec::new();
    let mut k: usize = 0;
    while k < dups.len()
        invariant
            xs == text::views(exports@),
            exports@.len() == names@.len(),
            syms == text::views(dups@),
            k <= dups@.len(),
            text::views(entries@) == syms.take(k as int).map_values(
                |x: Seq<char>| collision_detail(xs, text::views(names@), lead@, x),
            ),
        decreases dups@.len() - k,
    {
        let sym = dups[k].as_str();
        let from = names_for_exec(exports, names, sym);
        let joined = text::join_strings(&from, ", ");
        let entry = text::concat4(lead, sym, "` collides for: ", joined.as_str());
        let ghost before = text::views(entries@);
        entries.push(entry);
        proof {
            assert(text::views(entries@) =~= before.push(entry@));
            assert(syms.take(k + 1).map_values(
                |x: Seq<char>| collision_detail(xs, text::views(names@), lead@, x),
            ) =~= syms.take(k as int).map_values(
                |x: Seq<char>| collision_detail(xs, text::views(names@), lead@, x),
            ).push(collision_detail(xs, text::views(names@), lead@, syms[k as int])));
        }
        k += 1;
    }
    assert(syms.take(dups@.len() as int) =~= syms);
    let message = text::join_strings(&entries, "; ");
    Err(concat2("facade export collision detected: ", message.as_str()))
}

/// The wrappers at the given indices.
pub open spec fn at_indices(fs: Seq<IrFunctionV>, idx: Seq<usize>) -> Seq<IrFunctionV> {
    idx.map_values(|i: usize| fs[i as int])
}

/// Every index is in bounds.
pub open spec fn indices_in(idx: Seq<usize>, n: int) -> bool {
    forall|k: int| 0 <= k < idx.len() ==> #[trigger] idx[k] < n
}

/// The Go names of the free functions at the given indices must be unique.
pub open spec fn spec_go_exports_error(fs: Seq<IrFunctionV>, idx: Seq<usize>) -> Option<Seq<char>> {
    let xs = at_indices(fs, idx).map_values(|f: IrFunctionV| spec_go_facade_export_name(f));
    let names = at_indices(fs, idx).map_values(|f: IrFunctionV| f.cpp_name);
    if duplicates(xs) == Set::<Seq<char>>::empty() {
        None
    } else {
        Some(collisions_message(xs, names, "Go facade export `"@))
    }
}

pub fn ensure_unique_go_exports(ir: &IrModule, functions: &Vec<usize>) -> (r: Result<(), String>)
    requires
        indices_in(functions@, ir.functions@.len() as int),
    ensures
        match spec_go_exports_error(crate::codegen::ir_norm::function_views(ir.functions@), functions@) {
            None => r is Ok,
            Some(e0) => r matches Err(e) && e@ == e0,
        },
{
    let ghost fs = crate::codegen::ir_norm::function_views(ir.functions@);
    let ghost sel = at_indices(fs, functions@);
    let mut exports: Vec<String> = Vec::new();
    let mut names: Vec<String> = Vec::new();
    let mut k: usize = 0;
    while k < functions.len()
        invariant
            fs == crate::codegen::ir_norm::function_views(ir.functions@),
            sel == at_indices(fs, functions@),
            indices_in(functions@, ir.functions@.len() as int),
            k <= functions@.len(),
            text::views(exports@) == sel.take(k as int).map_values(
                |f: IrFunctionV| spec_go_facade_export_name(f),
            ),
            text::views(names@) == sel.take(k as int).map_values(|f: IrFunctionV| f.cpp_name),
        decreases functions@.len() - k,
    {
        let idx = functions[k];
        assert(idx < ir.functions@.len());
        let f = &ir.functions[idx];
        let e = go_facade_export_name(f);
        let n = f.cpp_name.clone();
        let ghost eb = text::views(exports@);
        let ghost nb = text::views(names@);
        exports.push(e);
        names.push(n);
        proof {
            assert(sel[k as int] == fs[idx as int]);
            assert(fs[idx as int] == f@);
            assert(text::views(exports@) =~= eb.push(e@));
            assert(text::views(names@) =~= nb.push(n@));
            assert(sel.take(k + 1) =~= sel.take(k as int).push(sel[k as int]));
            assert(sel.take(k + 1).map_values(|f: IrFunctionV| spec_go_facade_export_name(f))
                =~= sel.take(k as int).map_values(|f: IrFunctionV| spec_go_facade_export_name(f)).push(
                spec_go_facade_export_name(sel[k as int]),
            ));
            assert(sel.take(k + 1).map_values(|f: IrFunctionV| f.cpp_name) =~= sel.take(
                k as int,
            ).map_values(|f: IrFunctionV| f.cpp_name).push(sel[k as int].cpp_name));
        }
        k += 1;
    }
    assert(sel.take(functions@.len() as int) =~= sel);
    check_export_collisions(&exports, &names, "Go facade export `")
}

/// The Go names of the methods of one class must be unique.
pub open spec fn spec_method_exports_error(
    fs: Seq<IrFunctionV>,
    owner: Seq<char>,
    idx: Seq<usize>,
) -> Option<Seq<char>> {
    let xs = at_indices(fs, idx).map_values(|f: IrFunctionV| spec_go_method_export_name(f));
    let names = at_indices(fs, idx).map_values(|f: IrFunctionV| f.cpp_name);
    if duplicates(xs) == Set::<Seq<char>>::empty() {
        None
    } else {
        Some(collisions_message(xs, names, "Go facade method `"@ + owner + "."@))
    }
}

pub fn ensure_unique_method_exports(ir: &IrModule, owner: &str, methods: &Vec<usize>) -> (r: Result<
    (),
    String,
>)
    requires
        indices_in(methods@, ir.functions@.len() as int),
    ensures
        match spec_method_exports_error(
            crate::codegen::ir_norm::function_views(ir.functions@),
            owner@,
            methods@,
        ) {
            None => r is Ok,
            Some(e0) => r matches Err(e) && e@ == e0,
        },
{
    let ghost fs = crate::codegen::ir_norm::function_views(ir.functions@);
    let ghost sel = at_indices(fs, methods@);
    let mut exports: Vec<String> = Vec::new();
    let mut names: Vec<String> = Vec::new();
    let mut k: usize = 0;
    while k < methods.len()
        invariant
            fs == crate::codegen::ir_norm::function_views(ir.functions@),
            sel == at_indices(fs, methods@),
            indices_in(methods@, ir.functions@.len() as int),
            k <= methods@.len(),
            text::views(exports@) == sel.take(k as int).map_values(
                |f: IrFunctionV| spec_go_method_export_name(f),
            ),
            text::views(names@) == sel.take(k as int).map_values(|f: IrFunctionV| f.cpp_name),
        decreases methods@.len() - k,
    {
        let idx = methods[k];
        assert(idx < ir.functions@.len());
        let f = &ir.functions[idx];
        let e = go_method_export_name(f);
        let n = f.cpp_name.clone();
        let ghost eb = text::views(exports@);
        let ghost nb = text::views(names@);
        exports.push(e);
        names.push(n);
        proof {
            assert(sel[k as int] == fs[idx as int]);
            assert(fs[idx as int] == f@);
            assert(text::views(exports@) =~= eb.push(e@));
            assert(text::views(names@) =~= nb.push(n@));
            assert(sel.take(k + 1) =~= sel.take(k as int).push(sel[k as int]));
            assert(sel.take(k + 1).map_values(|f: IrFunctionV| spec_go_method_export_name(f))
                =~= sel.take(k as int).map_values(|f: IrFunctionV| spec_go_method_export_name(f)).push(
                spec_go_method_export_name(sel[k as int]),
            ));
            assert(sel.take(k + 1).map_values(|f: IrFunctionV| f.cpp_name) =~= sel.take(
                k as int,
            ).map_values(|f: IrFunctionV| f.cpp_name).push(sel[k as int].cpp_name));
        }
        k += 1;
    }
    assert(sel.take(methods@.len() as int) =~= sel);
    let lead = concat3("Go facade method `", owner, ".");
    check_export_collisions(&exports, &names, lead.as_str())
}


// ---------------------------------------------------------------------------
// What gets a facade
// ---------------------------------------------------------------------------

/// The indices of the free functions among the first `k` wrappers that get
/// a facade.
pub open spec fn facade_function_indices(config: Config, fs: Seq<IrFunctionV>, k: int) -> Seq<usize>
    decreases k,
{
    if k <= 0 {
        Seq::empty()
    } else {
        facade_function_indices(config, fs, k - 1) + if fs[k - 1].kind == IrFunctionKind::Function
            && spec_free_function_supported(config, fs[k - 1]) {
            seq![(k - 1) as usize]
        } else {
            Seq::empty()
        }
    }
}

fn facade_functions(config: &Config, ir: &IrModule) -> (r: Vec<usize>)
    ensures
        r@ == facade_function_indices(
            *config,
            crate::codegen::ir_norm::function_views(ir.functions@),
            ir.functions@.len() as int,
        ),
        indices_in(r@, ir.functions@.len() as int),
{
    let ghost fs = crate::codegen::ir_norm::function_views(ir.functions@);
    let mut out: Vec<usize> = Vec::new();
    let mut i: usize = 0;
    while i < ir.functions.len()
        invariant
            fs == crate::codegen::ir_norm::function_views(ir.functions@),
            i <= ir.functions@.len(),
            out@ == facade_function_indices(*config, fs, i as int),
            indices_in(out@, i as int),
        decreases ir.functions@.len() - i,
    {
        let f = &ir.functions[i];
        assert(fs[i as int] == f@);
        if f.kind == IrFunctionKind::Function && free_function_supported(config, f) {
            out.push(i);
        } else {
            assert(out@ =~= out@ + Seq::<usize>::empty());
        }
        i += 1;
    }
    out
}

/// A method that can appear on a facade class.
pub open spec fn is_facade_method(config: Config, f: IrFunctionV) -> bool {
    f.kind == IrFunctionKind::Method && f.owner_cpp_type is Some && spec_method_supported(config, f)
}

/// The owners of the facade methods among the first `k` wrappers.
pub open spec fn facade_owners_upto(config: Config, fs: Seq<IrFunctionV>, k: int) -> Set<Seq<char>> {
    Set::new(
        |o: Seq<char>|
            exists|i: int|
                0 <= i < k && #[trigger] is_facade_method(config, fs[i]) && fs[i].owner_cpp_type
                    == Some(o),
    )
}

/// The indices of the facade methods of `owner` among the first `k`.
pub open spec fn owner_method_indices(config: Config, fs: Seq<IrFunctionV>, owner: Seq<char>, k: int) -> Seq<
    usize,
>
    decreases k,
{
    if k <= 0 {
        Seq::empty()
    } else {
        owner_method_indices(config, fs, owner, k - 1) + if is_facade_method(config, fs[k - 1])
            && fs[k - 1].owner_cpp_type == Some(owner) {
            seq![(k - 1) as usize]
        } else {
            Seq::empty()
        }
    }
}

/// The index of the last wrapper among the first `k` of the given kind
/// that belongs to `owner`.
pub open spec fn last_of_kind(fs: Seq<IrFunctionV>, kind: IrFunctionKind, owner: Seq<char>, k: int) -> Option<
    usize,
>
    decreases k,
{
    if k <= 0 {
        None
    } else if fs[k - 1].kind == kind && fs[k - 1].owner_cpp_type == Some(owner) {
        Some((k - 1) as usize)
    } else {
        last_of_kind(fs, kind, owner, k - 1)
    }
}

/// The mathematical value of an `AnalyzedFacadeClass`.
pub struct FacadeClassV {
    pub go_name: Seq<char>,
    pub handle_name: Seq<char>,
    pub constructor: usize,
    pub destructor: usize,
    pub methods: Seq<usize>,
}

pub open spec fn class_view(c: AnalyzedFacadeClass) -> FacadeClassV {
    FacadeClassV {
        go_name: c.go_name@,
        handle_name: c.handle_name@,
        constructor: c.constructor,
        destructor: c.destructor,
        methods: c.methods@,
    }
}

/// The facade class of one owner: an error where its methods' Go names
/// collide; none without a constructor that Go can call or without a
/// destructor.
pub open spec fn spec_facade_class_for(config: Config, fs: Seq<IrFunctionV>, owner: Seq<char>) -> Result<
    Option<FacadeClassV>,
    Seq<char>,
> {
    let n = fs.len() as int;
    let ms = owner_method_indices(config, fs, owner, n);
    match spec_method_exports_error(fs, owner, ms) {
        Some(e) => Err(e),
        None => match last_of_kind(fs, IrFunctionKind::Constructor, owner, n) {
            None => Ok(None),
            Some(c) => if !params_supported_from(config, fs[c as int].params, 0) {
                Ok(None)
            } else {
                match last_of_kind(fs, IrFunctionKind::Destructor, owner, n) {
                    None => Ok(None),
                    Some(d) => Ok(
                        Some(
                            FacadeClassV {
                                go_name: spec_leaf_cpp_name(owner),
                                handle_name: spec_flatten_qualified_cpp_name(owner) + "Handle"@,
                                constructor: c,
                                destructor: d,
                                methods: ms,
                            },
                        ),
                    ),
                }
            },
        },
    }
}

/// The facade classes of the given owners, in order; the first error
/// fails them all.
pub open spec fn fold_facade_classes(config: Config, fs: Seq<IrFunctionV>, owners: Seq<Seq<char>>) -> Result<
    Seq<FacadeClassV>,
    Seq<char>,
>
    decreases owners.len(),
{
    if owners.len() == 0 {
        Ok(Seq::empty())
    } else {
        match fold_facade_classes(config, fs, owners.drop_last()) {
            Err(e) => Err(e),
            Ok(done) => match spec_facade_class_for(config, fs, owners.last()) {
                Err(e) => Err(e),
                Ok(None) => Ok(done),
                Ok(Some(c)) => Ok(done.push(c)),
            },
        }
    }
}

proof fn lemma_fold_facade_classes_err(
    config: Config,
    fs: Seq<IrFunctionV>,
    owners: Seq<Seq<char>>,
    k: int,
)
    requires
        0 <= k <= owners.len(),
        fold_facade_classes(config, fs, owners.take(k)) is Err,
    ensures
        fold_facade_classes(config, fs, owners) == fold_facade_classes(config, fs, owners.take(k)),
    decreases owners.len(),
{
    if k == owners.len() {
        assert(owners.take(k) =~= owners);
    } else {
        assert(owners.drop_last().take(k) =~= owners.take(k));
        lemma_fold_facade_classes_err(config, fs, owners.drop_last(), k);
    }
}

/// The facade classes: one per owner of facade methods, in sorted order.
pub open spec fn spec_facade_classes(config: Config, fs: Seq<IrFunctionV>) -> Result<
    Seq<FacadeClassV>,
    Seq<char>,
> {
    fold_facade_classes(
        config,
        fs,
        text::sorted_of(facade_owners_upto(config, fs, fs.len() as int)),
    )
}

pub open spec fn classes_view(cs: Seq<AnalyzedFacadeClass>) -> Seq<FacadeClassV> {
    cs.map_values(|c: AnalyzedFacadeClass| class_view(c))
}

fn owner_methods(config: &Config, ir: &IrModule, owner: &str) -> (r: Vec<usize>)
    ensures
        r@ == owner_method_indices(
            *config,
            crate::codegen::ir_norm::function_views(ir.functions@),
            owner@,
            ir.functions@.len() as int,
        ),
        indices_in(r@, ir.functions@.len() as int),
{
    let ghost fs = crate::codegen::ir_norm::function_views(ir.functions@);
    let mut out: Vec<usize> = Vec::new();
    let mut i: usize = 0;
    while i < ir.functions.len()
        invariant
            fs == crate::codegen::ir_norm::function_views(ir.functions@),
            i <= ir.functions@.len(),
            out@ == owner_method_indices(*config, fs, owner@, i as int),
            indices_in(out@, i as int),
        decreases ir.functions@.len() - i,
    {
        let f = &ir.functions[i];
        assert(fs[i as int] == f@);
        let matches = f.kind == IrFunctionKind::Method && match &f.owner_cpp_type {
            Some(o) => str_eq(o.as_str(), owner) && method_supported(config, f),
            None => false,
        };
        if matches {
            out.push(i);
        } else {
            assert(out@ =~= out@ + Seq::<usize>::empty());
        }
        i += 1;
    }
    out
}

fn last_of_kind_exec(ir: &IrModule, kind: IrFunctionKind, owner: &str) -> (r: Option<usize>)
    ensures
        r == last_of_kind(
            crate::codegen::ir_norm::function_views(ir.functions@),
            kind,
            owner@,
            ir.functions@.len() as int,
        ),
        r matches Some(i) ==> i < ir.functions@.len(),
{
    let ghost fs = crate::codegen::ir_norm::function_views(ir.functions@);
    let mut found: Option<usize> = None;
    let mut i: usize = 0;
    while i < ir.functions.len()
        invariant
            fs == crate::codegen::ir_norm::function_views(ir.functions@),
            i <= ir.functions@.len(),
            found == last_of_kind(fs, kind, owner@, i as int),
            found matches Some(j) ==> j < i,
        decreases ir.functions@.len() - i,
    {
        let f = &ir.functions[i];
        assert(fs[i as int] == f@);
        let matches = f.kind == kind && match &f.owner_cpp_type {
            Some(o) => str_eq(o.as_str(), owner),
            None => false,
        };
        if matches {
            found = Some(i);
        }
        i += 1;
    }
    found
}

pub fn collect_facade_classes(config: &Config, ir: &IrModule) -> (r: Result<Vec<AnalyzedFacadeClass>, String>)
    ensures
        match spec_facade_classes(*config, crate::codegen::ir_norm::function_views(ir.functions@)) {
            Ok(cs) => r matches Ok(v) && classes_view(v@) == cs,
            Err(e0) => r matches Err(e) && e@ == e0,
        },
        r matches Ok(v) ==> forall|k: int|
            0 <= k < v@.len() ==> #[trigger] v@[k].constructor < ir.functions@.len()
                && v@[k].destructor < ir.functions@.len() && indices_in(
                v@[k].methods@,
                ir.functions@.len() as int,
            ),
{
    let ghost fs = crate::codegen::ir_norm::function_views(ir.functions@);
    let n = ir.functions.len();
    let mut owners: Vec<String> = Vec::new();
    let mut i: usize = 0;
    assert(text::views(owners@).to_set() =~= facade_owners_upto(*config, fs, 0));
    while i < n
        invariant
            fs == crate::codegen::ir_norm::function_views(ir.functions@),
            n == ir.functions@.len(),
            i <= n,
            text::sorted_strictly(text::views(owners@)),
            text::views(owners@).to_set() == facade_owners_upto(*config, fs, i as int),
        decreases n - i,
    {
        let f = &ir.functions[i];
        assert(fs[i as int] == f@);
        let fm = f.kind == IrFunctionKind::Method && f.owner_cpp_type.is_some() && method_supported(
            config,
            f,
        );
        assert(fm == is_facade_method(*config, fs[i as int]));
        if fm {
            match &f.owner_cpp_type {
                Some(o) => {
                    if !text::contains_string(&owners, o.as_str()) {
                        text::insert_sorted(&mut owners, o.clone());
                    }
                },
                None => {},
            }
        }
        proof {
            if fm {
                let o = fs[i as int].owner_cpp_type->0;
                assert(facade_owners_upto(*config, fs, i + 1).contains(o));
            }
            let now = text::views(owners@).to_set();
            assert forall|x: Seq<char>| #[trigger] now.contains(x) == facade_owners_upto(
                *config,
                fs,
                i + 1,
            ).contains(x) by {
                if facade_owners_upto(*config, fs, i + 1).contains(x) {
                    let j = choose|j: int|
                        0 <= j < i + 1 && #[trigger] is_facade_method(*config, fs[j])
                            && fs[j].owner_cpp_type == Some(x);
                    if j < i {
                        assert(facade_owners_upto(*config, fs, i as int).contains(x));
                    }
                }
                if facade_owners_upto(*config, fs, i as int).contains(x) {
                    let j = choose|j: int|
                        0 <= j < i && #[trigger] is_facade_method(*config, fs[j])
                            && fs[j].owner_cpp_type == Some(x);
                    assert(facade_owners_upto(*config, fs, i + 1).contains(x));
                }
            }
            assert(now =~= facade_owners_upto(*config, fs, i + 1));
        }
        i += 1;
    }
    proof {
        text::lemma_sorted_of(text::views(owners@));
    }
    let ghost ov = text::views(owners@);
    let mut classes: Vec<AnalyzedFacadeClass> = Vec::new();
    let mut k: usize = 0;
    assert(ov.take(0) =~= Seq::<Seq<char>>::empty());
    assert(classes_view(classes@) =~= Seq::<FacadeClassV>::empty());
    while k < owners.len()
        invariant
            fs == crate::codegen::ir_norm::function_views(ir.functions@),
            n == ir.functions@.len(),
            ov == text::views(owners@),
            ov == text::sorted_of(facade_owners_upto(*config, fs, n as int)),
            k <= owners@.len(),
            fold_facade_classes(*config, fs, ov.take(k as int)) == Ok::<
                Seq<FacadeClassV>,
                Seq<char>,
            >(classes_view(classes@)),
            forall|j: int|
                0 <= j < classes@.len() ==> #[trigger] classes@[j].constructor < n
                    && classes@[j].destructor < n && indices_in(classes@[j].methods@, n as int),
        decreases owners@.len() - k,
    {
        assert(ov.take(k + 1).drop_last() =~= ov.take(k as int));
        assert(ov.take(k + 1).last() == ov[k as int]);
        let owner = owners[k].as_str();
        let methods = owner_methods(config, ir, owner);
        match ensure_unique_method_exports(ir, owner, &methods) {
            Ok(()) => {},
            Err(e) => {
                proof {
                    lemma_fold_facade_classes_err(*config, fs, ov, k + 1);
                }
                return Err(e);
            },
        }
        let ghost before = classes_view(classes@);
        match last_of_kind_exec(ir, IrFunctionKind::Constructor, owner) {
            None => {},
            Some(c) => {
                assert(fs[c as int] == ir.functions@[c as int]@);
                if params_supported(config, &ir.functions[c].params, 0) {
                    match last_of_kind_exec(ir, IrFunctionKind::Destructor, owner) {
                        None => {},
                        Some(d) => {
                            let go_name = leaf_cpp_name(owner);
                            let flat = crate::codegen::ir_norm::flatten_qualified_cpp_name(owner);
                            let handle_name = concat2(flat.as_str(), "Handle");
                            let class = AnalyzedFacadeClass {
                                go_name,
                                handle_name,
                                constructor: c,
                                destructor: d,
                                methods,
                            };
                            let ghost cv = class_view(class);
                            classes.push(class);
                            assert(classes_view(classes@) =~= before.push(cv));
                        },
                    }
                }
            },
        }
        k += 1;
    }
    assert(ov.take(owners@.len() as int) =~= ov);
    Ok(classes)
}


// ---------------------------------------------------------------------------
// Callback usages
// ---------------------------------------------------------------------------

/// A callback parameter of a facade function: the callback's index among
/// the module's callbacks, the wrapper's index, and the parameter's index.
pub struct CallbackUsage {
    pub callback: usize,
    pub function: usize,
    pub param_index: usize,
}

pub open spec fn usage_view(u: CallbackUsage) -> (usize, usize, usize) {
    (u.callback, u.function, u.param_index)
}

pub open spec fn usages_view(us: Seq<CallbackUsage>) -> Seq<(usize, usize, usize)> {
    us.map_values(|u: CallbackUsage| usage_view(u))
}

/// The index of the last callback among the first `k` with the given name.
pub open spec fn lookup_callback(cbs: Seq<IrCallback>, name: Seq<char>, k: int) -> Option<usize>
    decreases k,
{
    if k <= 0 {
        None
    } else if cbs[k - 1].name@ == name {
        Some((k - 1) as usize)
    } else {
        lookup_callback(cbs, name, k - 1)
    }
}

/// The callback parameters among the first `k` parameters of wrapper `fi`
/// whose type names a known callback.
pub open spec fn usages_for_function(
    fs: Seq<IrFunctionV>,
    cbs: Seq<IrCallback>,
    fi: usize,
    k: int,
) -> Seq<(usize, usize, usize)>
    decreases k,
{
    if k <= 0 {
        Seq::empty()
    } else {
        let t = fs[fi as int].params[k - 1].ty;
        usages_for_function(fs, cbs, fi, k - 1) + if t.kind == IrTypeKind::Callback
            && lookup_callback(cbs, t.cpp_type, cbs.len() as int) is Some {
            seq![(lookup_callback(cbs, t.cpp_type, cbs.len() as int)->0, fi, (k - 1) as usize)]
        } else {
            Seq::empty()
        }
    }
}

/// The callback usages of the wrappers at the given indices, in order.
pub open spec fn usages_for_list(fs: Seq<IrFunctionV>, cbs: Seq<IrCallback>, idx: Seq<usize>) -> Seq<
    (usize, usize, usize),
>
    decreases idx.len(),
{
    if idx.len() == 0 {
        Seq::empty()
    } else {
        let fi = idx.last();
        usages_for_list(fs, cbs, idx.drop_last()) + usages_for_function(
            fs,
            cbs,
            fi,
            fs[fi as int].params.len() as int,
        )
    }
}

/// The callback usages of the facade classes' methods, in order.
pub open spec fn usages_for_classes(
    fs: Seq<IrFunctionV>,
    cbs: Seq<IrCallback>,
    classes: Seq<FacadeClassV>,
) -> Seq<(usize, usize, usize)>
    decreases classes.len(),
{
    if classes.len() == 0 {
        Seq::empty()
    } else {
        usages_for_classes(fs, cbs, classes.drop_last()) + usages_for_list(
            fs,
            cbs,
            classes.last().methods,
        )
    }
}

pub(crate) fn lookup_callback_exec(ir: &IrModule, name: &str) -> (r: Option<usize>)
    ensures
        r == lookup_callback(ir.callbacks@, name@, ir.callbacks@.len() as int),
        r matches Some(i) ==> i < ir.callbacks@.len(),
{
    let mut found: Option<usize> = None;
    let mut i: usize = 0;
    while i < ir.callbacks.len()
        invariant
            i <= ir.callbacks@.len(),
            found == lookup_callback(ir.callbacks@, name@, i as int),
            found matches Some(j) ==> j < i,
        decreases ir.callbacks@.len() - i,
    {
        if str_eq(ir.callbacks[i].name.as_str(), name) {
            found = Some(i);
        }
        i += 1;
    }
    found
}

fn push_function_usages(ir: &IrModule, fi: usize, out: &mut Vec<CallbackUsage>)
    requires
        fi < ir.functions@.len(),
    ensures
        usages_view(final(out)@) == usages_view(old(out)@) + usages_for_function(
            crate::codegen::ir_norm::function_views(ir.functions@),
            ir.callbacks@,
            fi,
            ir.functions@[fi as int].params@.len() as int,
        ),
        forall|k: int|
            old(out)@.len() <= k < final(out)@.len() ==> #[trigger] final(out)@[k].callback
                < ir.callbacks@.len() && final(out)@[k].function == fi,
        forall|k: int| 0 <= k < old(out)@.len() ==> #[trigger] final(out)@[k] == old(out)@[k],
{
    let ghost fs = crate::codegen::ir_norm::function_views(ir.functions@);
    let ghost base = usages_view(out@);
    let ghost start = out@.len();
    let ghost old_out = out@;
    let f = &ir.functions[fi];
    assert(fs[fi as int] == f@);
    let mut j: usize = 0;
    while j < f.params.len()
        invariant
            fs == crate::codegen::ir_norm::function_views(ir.functions@),
            fi < ir.functions@.len(),
            *f == ir.functions@[fi as int],
            fs[fi as int] == f@,
            j <= f.params@.len(),
            start <= out@.len(),
            usages_view(out@) == base + usages_for_function(fs, ir.callbacks@, fi, j as int),
            forall|k: int|
                start <= k < out@.len() ==> #[trigger] out@[k].callback < ir.callbacks@.len()
                    && out@[k].function == fi,
            forall|k: int| 0 <= k < start ==> #[trigger] out@[k] == old_out[k],
            old_out.len() == start,
        decreases f.params@.len() - j,
    {
        let p = &f.params[j];
        assert(fs[fi as int].params[j as int] == p@);
        let ghost before = usages_view(out@);
        if p.ty.kind == IrTypeKind::Callback {
            match lookup_callback_exec(ir, p.ty.cpp_type.as_str()) {
                Some(c) => {
                    let u = CallbackUsage { callback: c, function: fi, param_index: j };
                    out.push(u);
                    assert(usages_view(out@) =~= before + seq![(c, fi, j)]);
                },
                None => {
                    assert(usages_view(out@) =~= before + Seq::<(usize, usize, usize)>::empty());
                },
            }
        } else {
            assert(usages_view(out@) =~= before + Seq::<(usize, usize, usize)>::empty());
        }
        proof {
            lemma_concat_assoc(base, usages_for_function(fs, ir.callbacks@, fi, j as int));
        }
        j += 1;
    }
}

proof fn lemma_concat_assoc(a: Seq<(usize, usize, usize)>, b: Seq<(usize, usize, usize)>)
    ensures
        forall|c: Seq<(usize, usize, usize)>| #[trigger] ((a + b) + c) == a + (b + c),
{
    assert forall|c: Seq<(usize, usize, usize)>| #[trigger] ((a + b) + c) == a + (b + c) by {
        assert((a + b) + c =~= a + (b + c));
    }
}

fn push_list_usages(ir: &IrModule, idx: &Vec<usize>, out: &mut Vec<CallbackUsage>)
    requires
        indices_in(idx@, ir.functions@.len() as int),
        forall|k: int|
            0 <= k < old(out)@.len() ==> #[trigger] old(out)@[k].callback < ir.callbacks@.len()
                && old(out)@[k].function < ir.functions@.len(),
    ensures
        usages_view(final(out)@) == usages_view(old(out)@) + usages_for_list(
            crate::codegen::ir_norm::function_views(ir.functions@),
            ir.callbacks@,
            idx@,
        ),
        forall|k: int|
            0 <= k < final(out)@.len() ==> #[trigger] final(out)@[k].callback < ir.callbacks@.len()
                && final(out)@[k].function < ir.functions@.len(),
{
    let ghost fs = crate::codegen::ir_norm::function_views(ir.functions@);
    let ghost base = usages_view(out@);
    let mut i: usize = 0;
    assert(idx@.take(0) =~= Seq::<usize>::empty());
    assert(usages_view(out@) =~= base + usages_for_list(fs, ir.callbacks@, idx@.take(0)));
    while i < idx.len()
        invariant
            fs == crate::codegen::ir_norm::function_views(ir.functions@),
            indices_in(idx@, ir.functions@.len() as int),
            i <= idx@.len(),
            usages_view(out@) == base + usages_for_list(fs, ir.callbacks@, idx@.take(i as int)),
            forall|k: int|
                0 <= k < out@.len() ==> #[trigger] out@[k].callback < ir.callbacks@.len()
                    && out@[k].function < ir.functions@.len(),
        decreases idx@.len() - i,
    {
        assert(idx@.take(i + 1).drop_last() =~= idx@.take(i as int));
        assert(idx@.take(i + 1).last() == idx@[i as int]);
        let fi = idx[i];
        assert(fi < ir.functions@.len());
        assert(fs[fi as int].params.len() == ir.functions@[fi as int].params@.len());
        let ghost prev = usages_view(out@);
        push_function_usages(ir, fi, out);
        proof {
            lemma_concat_assoc(base, usages_for_list(fs, ir.callbacks@, idx@.take(i as int)));
        }
        i += 1;
    }
    assert(idx@.take(idx@.len() as int) =~= idx@);
}

/// The callback usages of the facade functions, then of the facade
/// classes' methods.
pub open spec fn spec_callback_usages(
    fs: Seq<IrFunctionV>,
    cbs: Seq<IrCallback>,
    functions: Seq<usize>,
    classes: Seq<FacadeClassV>,
) -> Seq<(usize, usize, usize)> {
    usages_for_list(fs, cbs, functions) + usages_for_classes(fs, cbs, classes)
}

pub fn collect_callback_usages(ir: &IrModule, functions: &Vec<usize>, classes: &Vec<AnalyzedFacadeClass>) -> (r:
    Vec<CallbackUsage>)
    requires
        indices_in(functions@, ir.functions@.len() as int),
        forall|k: int|
            0 <= k < classes@.len() ==> indices_in(
                #[trigger] classes@[k].methods@,
                ir.functions@.len() as int,
            ),
    ensures
        usages_view(r@) == spec_callback_usages(
            crate::codegen::ir_norm::function_views(ir.functions@),
            ir.callbacks@,
            functions@,
            classes_view(classes@),
        ),
        forall|k: int|
            0 <= k < r@.len() ==> #[trigger] r@[k].callback < ir.callbacks@.len() && r@[k].function
                < ir.functions@.len(),
{
    let ghost fs = crate::codegen::ir_norm::function_views(ir.functions@);
    let ghost cv = classes_view(classes@);
    let mut out: Vec<CallbackUsage> = Vec::new();
    assert(usages_view(out@) =~= Seq::<(usize, usize, usize)>::empty());
    push_list_usages(ir, functions, &mut out);
    let ghost first = usages_view(out@);
    let mut i: usize = 0;
    assert(cv.take(0) =~= Seq::<FacadeClassV>::empty());
    assert(usages_view(out@) =~= first + usages_for_classes(fs, ir.callbacks@, cv.take(0)));
    while i < classes.len()
        invariant
            fs == crate::codegen::ir_norm::function_views(ir.functions@),
            cv == classes_view(classes@),
            forall|k: int|
                0 <= k < classes@.len() ==> indices_in(
                    #[trigger] classes@[k].methods@,
                    ir.functions@.len() as int,
                ),
            i <= classes@.len(),
            usages_view(out@) == first + usages_for_classes(fs, ir.callbacks@, cv.take(i as int)),
            forall|k: int|
                0 <= k < out@.len() ==> #[trigger] out@[k].callback < ir.callbacks@.len()
                    && out@[k].function < ir.functions@.len(),
        decreases classes@.len() - i,
    {
        assert(cv.take(i + 1).drop_last() =~= cv.take(i as int));
        assert(cv.take(i + 1).last() == cv[i as int]);
        assert(indices_in(classes@[i as int].methods@, ir.functions@.len() as int));
        push_list_usages(ir, &classes[i].methods, &mut out);
        proof {
            lemma_concat_assoc(first, usages_for_classes(fs, ir.callbacks@, cv.take(i as int)));
        }
        i += 1;
    }
    assert(cv.take(classes@.len() as int) =~= cv);
    out
}

/// The names of the callbacks that the usages refer to.
pub open spec fn used_callback_names(cbs: Seq<IrCallback>, usages: Seq<(usize, usize, usize)>) -> Set<
    Seq<char>,
> {
    Set::new(|n: Seq<char>| exists|k: int| 0 <= k < usages.len() && #[trigger] cbs[usages[k].0 as int].name@ == n)
}

/// The callbacks that the usages refer to, one per name, sorted by name.
pub open spec fn spec_used_callbacks(cbs: Seq<IrCallback>, usages: Seq<(usize, usize, usize)>) -> Seq<
    usize,
> {
    text::sorted_of(used_callback_names(cbs, usages)).map_values(
        |n: Seq<char>| lookup_callback(cbs, n, cbs.len() as int)->0,
    )
}

pub fn used_callbacks(ir: &IrModule, usages: &Vec<CallbackUsage>) -> (r: Vec<usize>)
    requires
        forall|k: int| 0 <= k < usages@.len() ==> #[trigger] usages@[k].callback < ir.callbacks@.len(),
    ensures
        r@ == spec_used_callbacks(ir.callbacks@, usages_view(usages@)),
        forall|k: int| 0 <= k < r@.len() ==> #[trigger] r@[k] < ir.callbacks@.len(),
{
    let ghost uv = usages_view(usages@);
    let mut names: Vec<String> = Vec::new();
    let mut i: usize = 0;
    assert(text::views(names@).to_set() =~= Set::new(
        |n: Seq<char>| exists|k: int| 0 <= k < 0 && #[trigger] ir.callbacks@[uv[k].0 as int].name@ == n,
    ));
    while i < usages.len()
        invariant
            uv == usages_view(usages@),
            forall|k: int| 0 <= k < usages@.len() ==> #[trigger] usages@[k].callback < ir.callbacks@.len(),
            i <= usages@.len(),
            text::sorted_strictly(text::views(names@)),
            text::views(names@).to_set() == Set::new(
                |n: Seq<char>|
                    exists|k: int| 0 <= k < i && #[trigger] ir.callbacks@[uv[k].0 as int].name@ == n,
            ),
        decreases usages@.len() - i,
    {
        let c = usages[i].callback;
        assert(c < ir.callbacks@.len());
        let name = ir.callbacks[c].name.as_str();
        if !text::contains_string(&names, name) {
            text::insert_sorted(&mut names, ir.callbacks[c].name.clone());
        }
        proof {
            let now = text::views(names@).to_set();
            let want = Set::new(
                |n: Seq<char>|
                    exists|k: int| 0 <= k < i + 1 && #[trigger] ir.callbacks@[uv[k].0 as int].name@ == n,
            );
            let had = Set::new(
                |n: Seq<char>|
                    exists|k: int| 0 <= k < i && #[trigger] ir.callbacks@[uv[k].0 as int].name@ == n,
            );
            assert(uv[i as int].0 == c);
            assert forall|x: Seq<char>| #[trigger] now.contains(x) == want.contains(x) by {
                if want.contains(x) {
                    let k = choose|k: int|
                        0 <= k < i + 1 && #[trigger] ir.callbacks@[uv[k].0 as int].name@ == x;
                    if k < i {
                        assert(had.contains(x));
                    }
                }
                if had.contains(x) {
                    let k = choose|k: int|
                        0 <= k < i && #[trigger] ir.callbacks@[uv[k].0 as int].name@ == x;
                    assert(want.contains(x));
                }
                if x == name@ {
                    assert(ir.callbacks@[uv[i as int].0 as int].name@ == x);
                    assert(want.contains(x));
                }
            }
            assert(now =~= want);
        }
        i += 1;
    }
    proof {
        assert(text::views(names@).to_set() =~= used_callback_names(ir.callbacks@, uv));
        text::lemma_sorted_of(text::views(names@));
    }
    let ghost nv = text::views(names@);
    let mut out: Vec<usize> = Vec::new();
    let mut k: usize = 0;
    while k < names.len()
        invariant
            nv == text::views(names@),
            uv == usages_view(usages@),
            forall|k: int| 0 <= k < usages@.len() ==> #[trigger] usages@[k].callback < ir.callbacks@.len(),
            nv.to_set() == used_callback_names(ir.callbacks@, uv),
            k <= names@.len(),
            out@ == nv.take(k as int).map_values(
                |n: Seq<char>| lookup_callback(ir.callbacks@, n, ir.callbacks@.len() as int)->0,
            ),
            forall|j: int| 0 <= j < out@.len() ==> #[trigger] out@[j] < ir.callbacks@.len(),
        decreases names@.len() - k,
    {
        let found = lookup_callback_exec(ir, names[k].as_str());
        let idx = match found {
            Some(x) => x,
            None => 0,
        };
        proof {
            assert(nv.to_set().contains(nv[k as int]));
            let j = choose|j: int|
                0 <= j < uv.len() && #[trigger] ir.callbacks@[uv[j].0 as int].name@ == nv[k as int];
            assert(uv[j] == usage_view(usages@[j]));
            assert(usages@[j].callback < ir.callbacks@.len());
            lemma_lookup_found(ir.callbacks@, nv[k as int], ir.callbacks@.len() as int, uv[j].0 as int);
        }
        out.push(idx);
        assert(nv.take(k + 1) =~= nv.take(k as int).push(nv[k as int]));
        k += 1;
    }
    assert(nv.take(names@.len() as int) =~= nv);
    out
}

proof fn lemma_lookup_found(cbs: Seq<IrCallback>, name: Seq<char>, k: int, j: int)
    requires
        0 <= j < k <= cbs.len(),
        cbs[j].name@ == name,
    ensures
        lookup_callback(cbs, name, k) is Some,
        lookup_callback(cbs, name, k)->0 < k,
    decreases k,
{
    if cbs[k - 1].name@ != name {
        lemma_lookup_found(cbs, name, k - 1, j);
    }
}


// ---------------------------------------------------------------------------
// The Go file
// ---------------------------------------------------------------------------

/// A generated Go source file.
#[derive(Debug, Clone)]
pub struct GeneratedGoFile {
    pub filename: String,
    pub contents: String,
}

pub open spec fn returns_string(f: IrFunctionV) -> bool {
    f.returns.kind == IrTypeKind::String || f.returns.kind == IrTypeKind::CString
}

pub open spec fn has_string_params_from(ps: Seq<IrParamV>, start: int) -> bool {
    exists|i: int|
        start <= i < ps.len() && (#[trigger] ps[i].ty.kind == IrTypeKind::String || ps[i].ty.kind
            == IrTypeKind::CString)
}

/// A wrapper whose facade needs the `unsafe` package: it converts string
/// arguments (from `start` on) or returns a raw pointer.
pub open spec fn needs_unsafe(f: IrFunctionV, start: int) -> bool {
    has_string_params_from(f.params, start) || f.returns.kind == IrTypeKind::Pointer
}

fn has_string_params(function: &IrFunction, start: usize) -> (r: bool)
    ensures
        r == has_string_params_from(function@.params, start as int),
{
    let ghost fv = function@;
    let mut i: usize = start;
    while i < function.params.len()
        invariant
            start <= i,
            fv == function@,
            forall|j: int|
                start <= j < i ==> !(#[trigger] fv.params[j].ty.kind == IrTypeKind::String
                    || fv.params[j].ty.kind == IrTypeKind::CString),
        decreases function.params@.len() - i,
    {
        assert(fv.params[i as int] == function.params@[i as int]@);
        let k = function.params[i].ty.kind;
        if k == IrTypeKind::String || k == IrTypeKind::CString {
            assert(fv.params[i as int].ty.kind == k);
            return true;
        }
        i += 1;
    }
    false
}

/// Whether a wrapper at one of the indices returns a string.
pub open spec fn any_returns_string(fs: Seq<IrFunctionV>, idx: Seq<usize>) -> bool {
    exists|k: int| 0 <= k < idx.len() && returns_string(#[trigger] fs[idx[k] as int])
}

/// Whether a wrapper at one of the indices needs `unsafe`.
pub open spec fn any_needs_unsafe(fs: Seq<IrFunctionV>, idx: Seq<usize>, start: int) -> bool {
    exists|k: int| 0 <= k < idx.len() && needs_unsafe(#[trigger] fs[idx[k] as int], start)
}

fn any_returns_string_exec(ir: &IrModule, idx: &Vec<usize>) -> (r: bool)
    requires
        indices_in(idx@, ir.functions@.len() as int),
    ensures
        r == any_returns_string(crate::codegen::ir_norm::function_views(ir.functions@), idx@),
{
    let ghost fs = crate::codegen::ir_norm::function_views(ir.functions@);
    let mut k: usize = 0;
    while k < idx.len()
        invariant
            fs == crate::codegen::ir_norm::function_views(ir.functions@),
            indices_in(idx@, ir.functions@.len() as int),
            k <= idx@.len(),
            forall|j: int| 0 <= j < k ==> !returns_string(#[trigger] fs[idx@[j] as int]),
        decreases idx@.len() - k,
    {
        let i = idx[k];
        assert(i < ir.functions@.len());
        assert(fs[i as int] == ir.functions@[i as int]@);
        let kind = ir.functions[i].returns.kind;
        if kind == IrTypeKind::String || kind == IrTypeKind::CString {
            assert(returns_string(fs[idx@[k as int] as int]));
            return true;
        }
        k += 1;
    }
    false
}

fn any_needs_unsafe_exec(ir: &IrModule, idx: &Vec<usize>, start: usize) -> (r: bool)
    requires
        indices_in(idx@, ir.functions@.len() as int),
    ensures
        r == any_needs_unsafe(crate::codegen::ir_norm::function_views(ir.functions@), idx@, start as int),
{
    let ghost fs = crate::codegen::ir_norm::function_views(ir.functions@);
    let mut k: usize = 0;
    while k < idx.len()
        invariant
            fs == crate::codegen::ir_norm::function_views(ir.functions@),
            indices_in(idx@, ir.functions@.len() as int),
            k <= idx@.len(),
            forall|j: int| 0 <= j < k ==> !needs_unsafe(#[trigger] fs[idx@[j] as int], start as int),
        decreases idx@.len() - k,
    {
        let i = idx[k];
        assert(i < ir.functions@.len());
        let f = &ir.functions[i];
        assert(fs[i as int] == f@);
        if has_string_params(f, start) || f.returns.kind == IrTypeKind::Pointer {
            assert(needs_unsafe(fs[idx@[k as int] as int], start as int));
            return true;
        }
        k += 1;
    }
    false
}

/// The facade needs the `errors` package.
pub open spec fn spec_requires_errors(fs: Seq<IrFunctionV>, functions: Seq<usize>, classes: Seq<FacadeClassV>) -> bool {
    classes.len() > 0 || any_returns_string(fs, functions) || exists|c: int|
        0 <= c < classes.len() && any_returns_string(fs, #[trigger] classes[c].methods)
}

/// The facade needs the `unsafe` package.
pub open spec fn spec_requires_unsafe(fs: Seq<IrFunctionV>, functions: Seq<usize>, classes: Seq<FacadeClassV>) -> bool {
    any_needs_unsafe(fs, functions, 0) || exists|c: int|
        0 <= c < classes.len() && (has_string_params_from(
            fs[(#[trigger] classes[c]).constructor as int].params,
            0,
        ) || any_needs_unsafe(fs, classes[c].methods, 1))
}

/// The package clause and the imports.
pub open spec fn spec_facade_preamble(
    config: Config,
    fs: Seq<IrFunctionV>,
    functions: Seq<usize>,
    classes: Seq<FacadeClassV>,
    sync: bool,
) -> Seq<char> {
    "package "@ + spec_go_package_name(config.output.dir@) + "\n\n"@ + (if functions.len() > 0
        || classes.len() > 0 {
        "/*\n#include <stdlib.h>\n#include \""@ + config.output.header@ + "\"\n*/\nimport \"C\"\n\n"@
    } else {
        Seq::empty()
    }) + (if spec_requires_errors(fs, functions, classes) {
        "import \"errors\"\n\n"@
    } else {
        Seq::empty()
    }) + (if spec_requires_unsafe(fs, functions, classes) {
        "import \"unsafe\"\n\n"@
    } else {
        Seq::empty()
    }) + (if sync {
        "import \"sync\"\n\n"@
    } else {
        Seq::empty()
    })
}

/// Each enum and a blank line.
pub open spec fn spec_enums_part(enums: Seq<IrEnum>) -> Seq<char>
    decreases enums.len(),
{
    if enums.len() == 0 {
        Seq::empty()
    } else {
        spec_enums_part(enums.drop_last()) + spec_render_go_enum(enums.last()) + "\n"@
    }
}

/// Each used callback type and a blank line.
pub open spec fn spec_callback_types_part(cbs: Seq<IrCallback>, used: Seq<usize>) -> Seq<char>
    decreases used.len(),
{
    if used.len() == 0 {
        Seq::empty()
    } else {
        spec_callback_types_part(cbs, used.drop_last()) + spec_render_callback_type(
            cbs[used.last() as int],
        ) + "\n"@
    }
}

/// Each callback usage's registry and export, each followed by a blank
/// line.
pub open spec fn spec_usages_part(
    fs: Seq<IrFunctionV>,
    cbs: Seq<IrCallback>,
    usages: Seq<(usize, usize, usize)>,
) -> Seq<char>
    decreases usages.len(),
{
    if usages.len() == 0 {
        Seq::empty()
    } else {
        let u = usages.last();
        let f = fs[u.1 as int];
        spec_usages_part(fs, cbs, usages.drop_last()) + spec_render_callback_registry(
            spec_callback_state_name(f, u.2 as nat),
            cbs[u.0 as int].name@,
        ) + "\n"@ + spec_render_callback_export(f, u.2 as nat, cbs[u.0 as int]) + "\n"@
    }
}

/// Each free function facade and a blank line.
pub open spec fn spec_functions_part(config: Config, fs: Seq<IrFunctionV>, functions: Seq<usize>) -> Seq<
    char,
>
    decreases functions.len(),
{
    if functions.len() == 0 {
        Seq::empty()
    } else {
        spec_functions_part(config, fs, functions.drop_last()) + spec_render_free_function(
            config,
            fs[functions.last() as int],
        ) + "\n"@
    }
}

/// Each method facade of a class and a blank line.
pub open spec fn spec_methods_part(
    config: Config,
    fs: Seq<IrFunctionV>,
    go_name: Seq<char>,
    methods: Seq<usize>,
) -> Seq<char>
    decreases methods.len(),
{
    if methods.len() == 0 {
        Seq::empty()
    } else {
        spec_methods_part(config, fs, go_name, methods.drop_last())
            + spec_render_general_api_method(config, go_name, fs[methods.last() as int]) + "\n"@
    }
}

/// Each facade class: its type, constructor, `Close` and methods, each
/// followed by a blank line.
pub open spec fn spec_classes_part(config: Config, fs: Seq<IrFunctionV>, classes: Seq<FacadeClassV>) -> Seq<
    char,
>
    decreases classes.len(),
{
    if classes.len() == 0 {
        Seq::empty()
    } else {
        let c = classes.last();
        spec_classes_part(config, fs, classes.drop_last()) + spec_render_facade_class(
            c.go_name,
            c.handle_name,
        ) + "\n"@ + spec_render_facade_constructor(config, c.go_name, fs[c.constructor as int])
            + "\n"@ + spec_render_facade_close(c.go_name, fs[c.destructor as int].name) + "\n"@
            + spec_methods_part(config, fs, c.go_name, c.methods)
    }
}

/// The whole Go facade file.
pub open spec fn spec_render_go_facade_file(
    config: Config,
    ir: IrModule,
    functions: Seq<usize>,
    classes: Seq<FacadeClassV>,
    usages: Seq<(usize, usize, usize)>,
) -> Seq<char> {
    let fs = crate::codegen::ir_norm::function_views(ir.functions@);
    spec_facade_preamble(config, fs, functions, classes, usages.len() > 0) + spec_enums_part(
        ir.enums@,
    ) + spec_callback_types_part(ir.callbacks@, spec_used_callbacks(ir.callbacks@, usages))
        + spec_usages_part(fs, ir.callbacks@, usages) + spec_functions_part(config, fs, functions)
        + spec_classes_part(config, fs, classes)
}

/// What rendering the file needs of its inputs: the free functions and
/// methods are supported, the constructors' parameters too, and every
/// index is in bounds.
pub open spec fn facade_inputs_ok(
    config: Config,
    ir: IrModule,
    functions: Seq<usize>,
    classes: Seq<FacadeClassV>,
) -> bool {
    let fs = crate::codegen::ir_norm::function_views(ir.functions@);
    let n = ir.functions@.len() as int;
    &&& indices_in(functions, n)
    &&& forall|k: int|
        0 <= k < functions.len() ==> spec_free_function_supported(config, #[trigger] fs[functions[k] as int])
    &&& forall|c: int|
        0 <= c < classes.len() ==> {
            &&& (#[trigger] classes[c]).constructor < n
            &&& classes[c].destructor < n
            &&& indices_in(classes[c].methods, n)
            &&& params_supported_from(config, fs[classes[c].constructor as int].params, 0)
            &&& forall|m: int|
                0 <= m < classes[c].methods.len() ==> spec_method_supported(
                    config,
                    #[trigger] fs[classes[c].methods[m] as int],
                )
        }
}


fn facade_preamble(
    config: &Config,
    ir: &IrModule,
    functions: &Vec<usize>,
    classes: &Vec<AnalyzedFacadeClass>,
    sync: bool,
) -> (r: String)
    requires
        facade_inputs_ok(*config, *ir, functions@, classes_view(classes@)),
    ensures
        r@ == spec_facade_preamble(
            *config,
            crate::codegen::ir_norm::function_views(ir.functions@),
            functions@,
            classes_view(classes@),
            sync,
        ),
{
    let ghost fs = crate::codegen::ir_norm::function_views(ir.functions@);
    let ghost cv = classes_view(classes@);
    let requires_cgo = functions.len() > 0 || classes.len() > 0;
    let mut requires_errors = classes.len() > 0 || any_returns_string_exec(ir, functions);
    let mut requires_unsafe = any_needs_unsafe_exec(ir, functions, 0);
    let mut c: usize = 0;
    while c < classes.len()
        invariant
            fs == crate::codegen::ir_norm::function_views(ir.functions@),
            cv == classes_view(classes@),
            facade_inputs_ok(*config, *ir, functions@, cv),
            c <= classes@.len(),
            requires_errors == (cv.len() > 0 || any_returns_string(fs, functions@) || exists|j: int|
                0 <= j < c && any_returns_string(fs, #[trigger] cv[j].methods)),
            requires_unsafe == (any_needs_unsafe(fs, functions@, 0) || exists|j: int|
                0 <= j < c && (has_string_params_from(
                    fs[(#[trigger] cv[j]).constructor as int].params,
                    0,
                ) || any_needs_unsafe(fs, cv[j].methods, 1))),
        decreases classes@.len() - c,
    {
        let class = &classes[c];
        assert(cv[c as int] == class_view(*class));
        assert(indices_in(class.methods@, ir.functions@.len() as int));
        let e = any_returns_string_exec(ir, &class.methods);
        let ctor = &ir.functions[class.constructor];
        assert(fs[class.constructor as int] == ctor@);
        let u = has_string_params(ctor, 0) || any_needs_unsafe_exec(ir, &class.methods, 1);
        requires_errors = requires_errors || e;
        requires_unsafe = requires_unsafe || u;
        c += 1;
    }
    let package = go_package_name(config.output.dir.as_str());
    let mut out = concat3("package ", package.as_str(), "\n\n");
    let ghost a = out@;
    if requires_cgo {
        out.append("/*\n#include <stdlib.h>\n#include \"");
        out.append(config.output.header.as_str());
        out.append("\"\n*/\nimport \"C\"\n\n");
    } else {
        assert(out@ =~= a + Seq::<char>::empty());
    }
    let ghost b = out@;
    if requires_errors {
        out.append("import \"errors\"\n\n");
    } else {
        assert(out@ =~= b + Seq::<char>::empty());
    }
    let ghost d = out@;
    if requires_unsafe {
        out.append("import \"unsafe\"\n\n");
    } else {
        assert(out@ =~= d + Seq::<char>::empty());
    }
    let ghost e = out@;
    if sync {
        out.append("import \"sync\"\n\n");
    } else {
        assert(out@ =~= e + Seq::<char>::empty());
    }
    out
}

fn enums_part(ir: &IrModule) -> (r: String)
    ensures
        r@ == spec_enums_part(ir.enums@),
{
    let mut out = String::new();
    let mut k: usize = 0;
    assert(ir.enums@.take(0) =~= Seq::<IrEnum>::empty());
    while k < ir.enums.len()
        invariant
            k <= ir.enums@.len(),
            out@ == spec_enums_part(ir.enums@.take(k as int)),
        decreases ir.enums@.len() - k,
    {
        assert(ir.enums@.take(k + 1).drop_last() =~= ir.enums@.take(k as int));
        let part = render_go_enum(&ir.enums[k]);
        out.append(part.as_str());
        out.append("\n");
        k += 1;
    }
    assert(ir.enums@.take(ir.enums@.len() as int) =~= ir.enums@);
    out
}

fn callback_types_part(ir: &IrModule, used: &Vec<usize>) -> (r: String)
    requires
        forall|j: int| 0 <= j < used@.len() ==> #[trigger] used@[j] < ir.callbacks@.len(),
    ensures
        r@ == spec_callback_types_part(ir.callbacks@, used@),
{
    let mut out = String::new();
    let mut k: usize = 0;
    assert(used@.take(0) =~= Seq::<usize>::empty());
    while k < used.len()
        invariant
            k <= used@.len(),
            forall|j: int| 0 <= j < used@.len() ==> #[trigger] used@[j] < ir.callbacks@.len(),
            out@ == spec_callback_types_part(ir.callbacks@, used@.take(k as int)),
        decreases used@.len() - k,
    {
        assert(used@.take(k + 1).drop_last() =~= used@.take(k as int));
        let ci = used[k];
        assert(ci < ir.callbacks@.len());
        let part = render_callback_type(&ir.callbacks[ci]);
        out.append(part.as_str());
        out.append("\n");
        k += 1;
    }
    assert(used@.take(used@.len() as int) =~= used@);
    out
}

fn usages_part(ir: &IrModule, usages: &Vec<CallbackUsage>) -> (r: String)
    requires
        forall|k: int|
            0 <= k < usages@.len() ==> #[trigger] usages@[k].callback < ir.callbacks@.len()
                && usages@[k].function < ir.functions@.len(),
    ensures
        r@ == spec_usages_part(
            crate::codegen::ir_norm::function_views(ir.functions@),
            ir.callbacks@,
            usages_view(usages@),
        ),
{
    let ghost fs = crate::codegen::ir_norm::function_views(ir.functions@);
    let ghost uv = usages_view(usages@);
    let mut out = String::new();
    let mut k: usize = 0;
    assert(uv.take(0) =~= Seq::<(usize, usize, usize)>::empty());
    while k < usages.len()
        invariant
            fs == crate::codegen::ir_norm::function_views(ir.functions@),
            uv == usages_view(usages@),
            forall|j: int|
                0 <= j < usages@.len() ==> #[trigger] usages@[j].callback < ir.callbacks@.len()
                    && usages@[j].function < ir.functions@.len(),
            k <= usages@.len(),
            out@ == spec_usages_part(fs, ir.callbacks@, uv.take(k as int)),
        decreases usages@.len() - k,
    {
        assert(uv.take(k + 1).drop_last() =~= uv.take(k as int));
        assert(uv.take(k + 1).last() == usage_view(usages@[k as int]));
        let u = &usages[k];
        let f = &ir.functions[u.function];
        assert(fs[u.function as int] == f@);
        let cb = &ir.callbacks[u.callback];
        let reg = render_callback_registry(f, u.param_index, cb);
        let exp = render_callback_export(f, u.param_index, cb);
        out.append(reg.as_str());
        out.append("\n");
        out.append(exp.as_str());
        out.append("\n");
        k += 1;
    }
    assert(uv.take(usages@.len() as int) =~= uv);
    out
}

fn functions_part(config: &Config, ir: &IrModule, functions: &Vec<usize>) -> (r: String)
    requires
        indices_in(functions@, ir.functions@.len() as int),
        forall|k: int|
            0 <= k < functions@.len() ==> spec_free_function_supported(
                *config,
                #[trigger] crate::codegen::ir_norm::function_views(ir.functions@)[functions@[k] as int],
            ),
    ensures
        r@ == spec_functions_part(
            *config,
            crate::codegen::ir_norm::function_views(ir.functions@),
            functions@,
        ),
{
    let ghost fs = crate::codegen::ir_norm::function_views(ir.functions@);
    let mut out = String::new();
    let mut k: usize = 0;
    assert(functions@.take(0) =~= Seq::<usize>::empty());
    while k < functions.len()
        invariant
            fs == crate::codegen::ir_norm::function_views(ir.functions@),
            indices_in(functions@, ir.functions@.len() as int),
            forall|j: int|
                0 <= j < functions@.len() ==> spec_free_function_supported(
                    *config,
                    #[trigger] fs[functions@[j] as int],
                ),
            k <= functions@.len(),
            out@ == spec_functions_part(*config, fs, functions@.take(k as int)),
        decreases functions@.len() - k,
    {
        assert(functions@.take(k + 1).drop_last() =~= functions@.take(k as int));
        assert(functions@.take(k + 1).last() == functions@[k as int]);
        let fi = functions[k];
        assert(fi < ir.functions@.len());
        let f = &ir.functions[fi];
        assert(fs[fi as int] == f@);
        assert(spec_free_function_supported(*config, fs[functions@[k as int] as int]));
        let part = render_free_function(config, f);
        out.append(part.as_str());
        out.append("\n");
        k += 1;
    }
    assert(functions@.take(functions@.len() as int) =~= functions@);
    out
}

fn methods_part(config: &Config, ir: &IrModule, class: &AnalyzedFacadeClass) -> (r: String)
    requires
        indices_in(class.methods@, ir.functions@.len() as int),
        forall|m: int|
            0 <= m < class.methods@.len() ==> spec_method_supported(
                *config,
                #[trigger] crate::codegen::ir_norm::function_views(ir.functions@)[class.methods@[m] as int],
            ),
    ensures
        r@ == spec_methods_part(
            *config,
            crate::codegen::ir_norm::function_views(ir.functions@),
            class.go_name@,
            class.methods@,
        ),
{
    let ghost fs = crate::codegen::ir_norm::function_views(ir.functions@);
    let mut out = String::new();
    let mut m: usize = 0;
    assert(class.methods@.take(0) =~= Seq::<usize>::empty());
    while m < class.methods.len()
        invariant
            fs == crate::codegen::ir_norm::function_views(ir.functions@),
            indices_in(class.methods@, ir.functions@.len() as int),
            forall|j: int|
                0 <= j < class.methods@.len() ==> spec_method_supported(
                    *config,
                    #[trigger] fs[class.methods@[j] as int],
                ),
            m <= class.methods@.len(),
            out@ == spec_methods_part(*config, fs, class.go_name@, class.methods@.take(m as int)),
        decreases class.methods@.len() - m,
    {
        assert(class.methods@.take(m + 1).drop_last() =~= class.methods@.take(m as int));
        assert(class.methods@.take(m + 1).last() == class.methods@[m as int]);
        let mi = class.methods[m];
        assert(mi < ir.functions@.len());
        let f = &ir.functions[mi];
        assert(fs[mi as int] == f@);
        assert(spec_method_supported(*config, fs[class.methods@[m as int] as int]));
        let part = render_general_api_method(config, class, f);
        out.append(part.as_str());
        out.append("\n");
        m += 1;
    }
    assert(class.methods@.take(class.methods@.len() as int) =~= class.methods@);
    out
}

fn classes_part(config: &Config, ir: &IrModule, functions: &Vec<usize>, classes: &Vec<AnalyzedFacadeClass>) -> (r:
    String)
    requires
        facade_inputs_ok(*config, *ir, functions@, classes_view(classes@)),
    ensures
        r@ == spec_classes_part(
            *config,
            crate::codegen::ir_norm::function_views(ir.functions@),
            classes_view(classes@),
        ),
{
    let ghost fs = crate::codegen::ir_norm::function_views(ir.functions@);
    let ghost cv = classes_view(classes@);
    let mut out = String::new();
    let mut k: usize = 0;
    assert(cv.take(0) =~= Seq::<FacadeClassV>::empty());
    while k < classes.len()
        invariant
            fs == crate::codegen::ir_norm::function_views(ir.functions@),
            cv == classes_view(classes@),
            facade_inputs_ok(*config, *ir, functions@, cv),
            k <= classes@.len(),
            out@ == spec_classes_part(*config, fs, cv.take(k as int)),
        decreases classes@.len() - k,
    {
        assert(cv.take(k + 1).drop_last() =~= cv.take(k as int));
        assert(cv.take(k + 1).last() == cv[k as int]);
        let class = &classes[k];
        assert(cv[k as int] == class_view(*class));
        let ctor = &ir.functions[class.constructor];
        let dtor = &ir.functions[class.destructor];
        assert(fs[class.constructor as int] == ctor@);
        assert(fs[class.destructor as int] == dtor@);
        assert(forall|m: int|
            0 <= m < class.methods@.len() ==> spec_method_supported(
                *config,
                #[trigger] fs[class.methods@[m] as int],
            ));
        let a = render_facade_class(class);
        let b = render_facade_constructor(config, class, ctor);
        let d = render_facade_close(class, dtor);
        let ms = methods_part(config, ir, class);
        out.append(a.as_str());
        out.append("\n");
        out.append(b.as_str());
        out.append("\n");
        out.append(d.as_str());
        out.append("\n");
        out.append(ms.as_str());
        k += 1;
    }
    assert(cv.take(classes@.len() as int) =~= cv);
    out
}

pub fn render_go_facade_file(
    config: &Config,
    ir: &IrModule,
    functions: &Vec<usize>,
    classes: &Vec<AnalyzedFacadeClass>,
    usages: &Vec<CallbackUsage>,
) -> (r: String)
    requires
        facade_inputs_ok(*config, *ir, functions@, classes_view(classes@)),
        forall|k: int|
            0 <= k < usages@.len() ==> #[trigger] usages@[k].callback < ir.callbacks@.len()
                && usages@[k].function < ir.functions@.len(),
    ensures
        r@ == spec_render_go_facade_file(
            *config,
            *ir,
            functions@,
            classes_view(classes@),
            usages_view(usages@),
        ),
{
    let pre = facade_preamble(config, ir, functions, classes, usages.len() > 0);
    let e = enums_part(ir);
    let used = used_callbacks(ir, usages);
    let t = callback_types_part(ir, &used);
    let u = usages_part(ir, usages);
    let f = functions_part(config, ir, functions);
    let c = classes_part(config, ir, functions, classes);
    let mut out = pre;
    out.append(e.as_str());
    out.append(t.as_str());
    out.append(u.as_str());
    out.append(f.as_str());
    out.append(c.as_str());
    out
}


proof fn lemma_facade_function_indices(config: Config, fs: Seq<IrFunctionV>, k: int)
    requires
        0 <= k <= fs.len(),
        fs.len() <= usize::MAX,
    ensures
        indices_in(facade_function_indices(config, fs, k), k),
        forall|j: int|
            0 <= j < facade_function_indices(config, fs, k).len() ==> spec_free_function_supported(
                config,
                #[trigger] fs[facade_function_indices(config, fs, k)[j] as int],
            ),
    decreases k,
{
    if k > 0 {
        lemma_facade_function_indices(config, fs, k - 1);
        let prev = facade_function_indices(config, fs, k - 1);
        let cur = facade_function_indices(config, fs, k);
        assert forall|j: int| 0 <= j < cur.len() implies cur[j] < k && spec_free_function_supported(
            config,
            #[trigger] fs[cur[j] as int],
        ) by {
            if j < prev.len() {
                assert(cur[j] == prev[j]);
            } else {
                assert(cur[j] == (k - 1) as usize);
            }
        }
    }
}

proof fn lemma_owner_method_indices(config: Config, fs: Seq<IrFunctionV>, owner: Seq<char>, k: int)
    requires
        0 <= k <= fs.len(),
        fs.len() <= usize::MAX,
    ensures
        indices_in(owner_method_indices(config, fs, owner, k), k),
        forall|j: int|
            0 <= j < owner_method_indices(config, fs, owner, k).len() ==> spec_method_supported(
                config,
                #[trigger] fs[owner_method_indices(config, fs, owner, k)[j] as int],
            ),
    decreases k,
{
    if k > 0 {
        lemma_owner_method_indices(config, fs, owner, k - 1);
        let prev = owner_method_indices(config, fs, owner, k - 1);
        let cur = owner_method_indices(config, fs, owner, k);
        assert forall|j: int| 0 <= j < cur.len() implies cur[j] < k && spec_method_supported(
            config,
            #[trigger] fs[cur[j] as int],
        ) by {
            if j < prev.len() {
                assert(cur[j] == prev[j]);
            } else {
                assert(cur[j] == (k - 1) as usize);
            }
        }
    }
}

proof fn lemma_last_of_kind(fs: Seq<IrFunctionV>, kind: IrFunctionKind, owner: Seq<char>, k: int)
    ensures
        last_of_kind(fs, kind, owner, k) matches Some(i) ==> i < k,
    decreases k,
{
    if k > 0 {
        lemma_last_of_kind(fs, kind, owner, k - 1);
    }
}

proof fn lemma_fold_facade_classes_ok(
    config: Config,
    ir: IrModule,
    functions: Seq<usize>,
    owners: Seq<Seq<char>>,
)
    requires
        facade_inputs_ok(config, ir, functions, Seq::empty()),
        ir.functions@.len() <= usize::MAX,
    ensures
        fold_facade_classes(config, crate::codegen::ir_norm::function_views(ir.functions@), owners) matches Ok(
            cs,
        ) ==> facade_inputs_ok(config, ir, functions, cs),
    decreases owners.len(),
{
    let fs = crate::codegen::ir_norm::function_views(ir.functions@);
    let n = ir.functions@.len() as int;
    if owners.len() > 0 {
        lemma_fold_facade_classes_ok(config, ir, functions, owners.drop_last());
        let o = owners.last();
        lemma_owner_method_indices(config, fs, o, n);
        lemma_last_of_kind(fs, IrFunctionKind::Constructor, o, n);
        lemma_last_of_kind(fs, IrFunctionKind::Destructor, o, n);
        if fold_facade_classes(config, fs, owners) is Ok {
            let done = fold_facade_classes(config, fs, owners.drop_last())->Ok_0;
            let cs = fold_facade_classes(config, fs, owners)->Ok_0;
            if spec_facade_class_for(config, fs, o)->Ok_0 is Some {
                let c = spec_facade_class_for(config, fs, o)->Ok_0->Some_0;
                assert(cs == done.push(c));
                assert forall|j: int| 0 <= j < cs.len() implies {
                    &&& (#[trigger] cs[j]).constructor < n
                    &&& cs[j].destructor < n
                    &&& indices_in(cs[j].methods, n)
                    &&& params_supported_from(config, fs[cs[j].constructor as int].params, 0)
                    &&& forall|m: int|
                        0 <= m < cs[j].methods.len() ==> spec_method_supported(
                            config,
                            #[trigger] fs[cs[j].methods[m] as int],
                        )
                } by {
                    if j < done.len() {
                        assert(cs[j] == done[j]);
                    }
                }
            }
        }
    }
}

/// The Go facade of a module: one file, unless there is nothing to wrap;
/// an error where Go names collide.
pub open spec fn spec_render_go_facade(config: Config, ir: IrModule) -> Result<
    Seq<(Seq<char>, Seq<char>)>,
    Seq<char>,
> {
    let fs = crate::codegen::ir_norm::function_views(ir.functions@);
    let functions = facade_function_indices(config, fs, fs.len() as int);
    match spec_facade_classes(config, fs) {
        Err(e) => Err(e),
        Ok(classes) => if functions.len() == 0 && classes.len() == 0 && ir.enums@.len() == 0 {
            Ok(Seq::empty())
        } else {
            match spec_go_exports_error(fs, functions) {
                Some(e) => Err(e),
                None => Ok(
                    seq![
                        (
                            crate::config::spec_go_filename(config),
                            spec_render_go_facade_file(
                                config,
                                ir,
                                functions,
                                classes,
                                spec_callback_usages(fs, ir.callbacks@, functions, classes),
                            ),
                        ),
                    ],
                ),
            }
        },
    }
}

pub open spec fn files_view(v: Seq<GeneratedGoFile>) -> Seq<(Seq<char>, Seq<char>)> {
    v.map_values(|f: GeneratedGoFile| (f.filename@, f.contents@))
}

pub fn render_go_facade(config: &Config, ir: &IrModule) -> (r: Result<Vec<GeneratedGoFile>, String>)
    ensures
        match spec_render_go_facade(*config, *ir) {
            Ok(files) => r matches Ok(v) && files_view(v@) == files,
            Err(e0) => r matches Err(e) && e@ == e0,
        },
{
    let ghost fs = crate::codegen::ir_norm::function_views(ir.functions@);
    let n = ir.functions.len();
    assert(fs.len() == n);
    let functions = facade_functions(config, ir);
    proof {
        lemma_facade_function_indices(*config, fs, fs.len() as int);
        lemma_fold_facade_classes_ok(
            *config,
            *ir,
            functions@,
            text::sorted_of(facade_owners_upto(*config, fs, fs.len() as int)),
        );
    }
    let classes = collect_facade_classes(config, ir)?;
    assert(forall|k: int|
        0 <= k < classes@.len() ==> indices_in(
            #[trigger] classes@[k].methods@,
            ir.functions@.len() as int,
        )) by {
        assert forall|k: int| 0 <= k < classes@.len() implies indices_in(
            #[trigger] classes@[k].methods@,
            ir.functions@.len() as int,
        ) by {
            assert(classes@[k].constructor < ir.functions@.len());
        }
    }
    let usages = collect_callback_usages(ir, &functions, &classes);
    if functions.len() == 0 && classes.len() == 0 && ir.enums.len() == 0 {
        let empty: Vec<GeneratedGoFile> = Vec::new();
        assert(files_view(empty@) =~= Seq::<(Seq<char>, Seq<char>)>::empty());
        return Ok(empty);
    }
    ensure_unique_go_exports(ir, &functions)?;
    let contents = render_go_facade_file(config, ir, &functions, &classes, &usages);
    let file = GeneratedGoFile { filename: config.go_filename(""), contents };
    let mut out: Vec<GeneratedGoFile> = Vec::new();
    out.push(file);
    assert(files_view(out@) =~= seq![(file.filename@, file.contents@)]);
    Ok(out)
}

// ---------------------------------------------------------------------------
// Laws
// ---------------------------------------------------------------------------

proof fn lemma_count_one(xs: Seq<Seq<char>>, x: Seq<char>, i: int, k: int)
    requires
        0 <= i < k <= xs.len(),
        xs[i] == x,
    ensures
        count_eq(xs, x, k) >= 1,
    decreases k,
{
    if k - 1 > i {
        lemma_count_one(xs, x, i, k - 1);
    }
}

proof fn lemma_count_two(xs: Seq<Seq<char>>, x: Seq<char>, i: int, j: int, k: int)
    requires
        0 <= i < j < k <= xs.len(),
        xs[i] == x,
        xs[j] == x,
    ensures
        count_eq(xs, x, k) >= 2,
    decreases k,
{
    if k - 1 > j {
        lemma_count_two(xs, x, i, j, k - 1);
    } else {
        lemma_count_one(xs, x, i, j);
    }
}

/// The Go export names of the free functions that the facade renders.
pub open spec fn facade_export_names(config: Config, ir: IrModule) -> Seq<Seq<char>> {
    let fs = crate::codegen::ir_norm::function_views(ir.functions@);
    at_indices(fs, facade_function_indices(config, fs, fs.len() as int)).map_values(
        |f: IrFunctionV| spec_go_facade_export_name(f),
    )
}

/// Where the facade renders, no two of its free functions share a Go
/// export name.
pub proof fn law_facade_exports_distinct(config: Config, ir: IrModule)
    requires
        spec_render_go_facade(config, ir) is Ok,
    ensures
        forall|i: int, j: int|
            0 <= i < j < facade_export_names(config, ir).len() ==> facade_export_names(config, ir)[i]
                != facade_export_names(config, ir)[j],
{
    let fs = crate::codegen::ir_norm::function_views(ir.functions@);
    let functions = facade_function_indices(config, fs, fs.len() as int);
    let xs = facade_export_names(config, ir);
    if functions.len() > 0 {
        assert(spec_go_exports_error(fs, functions) is None);
        lemma_no_duplicates_distinct(xs);
    }
}

/// The Go export names of a facade class's methods.
pub open spec fn method_export_names(fs: Seq<IrFunctionV>, methods: Seq<usize>) -> Seq<Seq<char>> {
    at_indices(fs, methods).map_values(|f: IrFunctionV| spec_go_method_export_name(f))
}

/// Whether no two entries are equal.
pub open spec fn all_distinct(xs: Seq<Seq<char>>) -> bool {
    forall|i: int, j: int| 0 <= i < j < xs.len() ==> xs[i] != xs[j]
}

proof fn lemma_no_duplicates_distinct(xs: Seq<Seq<char>>)
    requires
        duplicates(xs) == Set::<Seq<char>>::empty(),
    ensures
        all_distinct(xs),
{
    assert forall|i: int, j: int| 0 <= i < j < xs.len() implies xs[i] != xs[j] by {
        if xs[i] == xs[j] {
            lemma_count_two(xs, xs[i], i, j, xs.len() as int);
            assert(duplicates(xs).contains(xs[i]));
        }
    }
}

proof fn lemma_fold_facade_classes_distinct(config: Config, fs: Seq<IrFunctionV>, owners: Seq<Seq<char>>)
    requires
        fold_facade_classes(config, fs, owners) is Ok,
    ensures
        forall|k: int|
            0 <= k < fold_facade_classes(config, fs, owners)->Ok_0.len() ==> all_distinct(
                method_export_names(fs, (#[trigger] fold_facade_classes(config, fs, owners)->Ok_0[k]).methods),
            ),
    decreases owners.len(),
{
    if owners.len() > 0 {
        let pre = owners.drop_last();
        lemma_fold_facade_classes_distinct(config, fs, pre);
        let done = fold_facade_classes(config, fs, pre)->Ok_0;
        let cs = fold_facade_classes(config, fs, owners)->Ok_0;
        match spec_facade_class_for(config, fs, owners.last()) {
            Ok(Some(c)) => {
                let ms = owner_method_indices(config, fs, owners.last(), fs.len() as int);
                assert(spec_method_exports_error(fs, owners.last(), ms) is None);
                assert(c.methods == ms);
                lemma_no_duplicates_distinct(method_export_names(fs, ms));
                assert(cs == done.push(c));
                assert forall|k: int| 0 <= k < cs.len() implies all_distinct(
                    method_export_names(fs, (#[trigger] cs[k]).methods),
                ) by {
                    if k < done.len() {
                        assert(cs[k] == done[k]);
                    }
                }
            },
            _ => {
                assert(cs == done);
            },
        }
    }
}

/// Where the facade renders, no two methods of one Go type share a Go
/// name.
pub proof fn law_facade_method_exports_distinct(config: Config, ir: IrModule)
    requires
        spec_render_go_facade(config, ir) is Ok,
    ensures
        spec_facade_classes(config, crate::codegen::ir_norm::function_views(ir.functions@)) is Ok,
        forall|k: int|
            0 <= k < spec_facade_classes(config, crate::codegen::ir_norm::function_views(ir.functions@))->Ok_0.len()
                ==> all_distinct(
                method_export_names(
                    crate::codegen::ir_norm::function_views(ir.functions@),
                    (#[trigger] spec_facade_classes(
                        config,
                        crate::codegen::ir_norm::function_views(ir.functions@),
                    )->Ok_0[k]).methods,
                ),
            ),
{
    let fs = crate::codegen::ir_norm::function_views(ir.functions@);
    lemma_fold_facade_classes_distinct(
        config,
        fs,
        text::sorted_of(facade_owners_upto(config, fs, fs.len() as int)),
    );
}

/// The facade renders into one file, named as `go_filename` says, or into
/// none exactly where there is nothing to render (no free function, no
/// class, no enum); a Go export collision among its free functions is an
/// error.
pub proof fn law_facade_files(config: Config, ir: IrModule)
    ensures
        spec_render_go_facade(config, ir) matches Ok(files) ==> files.len() <= 1 && (files.len() == 1
            ==> files[0].0 == crate::config::spec_go_filename(config)),
        ({
            let fs = crate::codegen::ir_norm::function_views(ir.functions@);
            let functions = facade_function_indices(config, fs, fs.len() as int);
            spec_facade_classes(config, fs) is Ok && functions.len() > 0 && spec_go_exports_error(
                fs,
                functions,
            ) is Some ==> spec_render_go_facade(config, ir) is Err
        }),
        ({
            let fs = crate::codegen::ir_norm::function_views(ir.functions@);
            let functions = facade_function_indices(config, fs, fs.len() as int);
            (spec_render_go_facade(config, ir) == Ok::<Seq<(Seq<char>, Seq<char>)>, Seq<char>>(
                Seq::empty(),
            )) == (spec_facade_classes(config, fs) is Ok && functions.len() == 0 && spec_facade_classes(
                config,
                fs,
            )->Ok_0.len() == 0 && ir.enums@.len() == 0)
        }),
{
}

/// The Go type that cgo pairs with a C type: the same width, signedness
/// and kind (`C.double` with `float64`, `C.uint64_t` with `uint64`).
pub open spec fn go_type_of_cgo(c: Seq<char>) -> Option<Seq<char>> {
    if c == "C.bool"@ {
        Some("bool"@)
    } else if c == "C.float"@ {
        Some("float32"@)
    } else if c == "C.double"@ {
        Some("float64"@)
    } else if c == "C.int8_t"@ {
        Some("int8"@)
    } else if c == "C.int16_t"@ {
        Some("int16"@)
    } else if c == "C.int32_t"@ {
        Some("int32"@)
    } else if c == "C.int64_t"@ {
        Some("int64"@)
    } else if c == "C.uint8_t"@ {
        Some("uint8"@)
    } else if c == "C.uint16_t"@ {
        Some("uint16"@)
    } else if c == "C.uint32_t"@ {
        Some("uint32"@)
    } else if c == "C.uint64_t"@ {
        Some("uint64"@)
    } else if c == "C.int"@ {
        Some("int"@)
    } else if c == "C.long"@ {
        Some("int64"@)
    } else if c == "C.size_t"@ {
        Some("uintptr"@)
    } else {
        None
    }
}

/// The fixed-width integer names: `int8` to `int64`, `uint8` to `uint64`.
pub open spec fn is_fixed_width_name(b: Seq<char>) -> bool {
    b == "int8"@ || b == "int16"@ || b == "int32"@ || b == "int64"@ || b == "uint8"@ || b == "uint16"@
        || b == "uint32"@ || b == "uint64"@
}

/// Wherever a primitive has a cgo conversion, its Go type is the one cgo
/// pairs with that C type, so a value keeps its width and kind between Go
/// and C; the fixed-width names, with or without `_t`, map to the Go type
/// of that name; `long long` maps to `int64`, and `unsigned long` and
/// `unsigned long long` to `uint64`.
#[verifier::spinoff_prover]
#[verifier::rlimit(100)]
pub proof fn law_go_type_matches_cgo_cast(k: Seq<char>)
    ensures
        key_cgo_cast(k) is Some ==> key_go_type(k) == go_type_of_cgo(key_cgo_cast(k)->0),
        is_fixed_width_name(k) ==> key_go_type(k) == Some(k) && key_go_type(k + "_t"@) == Some(k),
        k == "longlong"@ ==> key_go_type(k) == Some("int64"@),
        k == "unsignedlong"@ || k == "unsignedlonglong"@ ==> key_go_type(k) == Some("uint64"@),
{
    reveal_strlit("C.bool");
    assert("C.bool"@[0] == 'C');
    assert("C.bool"@[1] == '.');
    assert("C.bool"@[2] == 'b');
    assert("C.bool"@[3] == 'o');
    assert("C.bool"@[4] == 'o');
    assert("C.bool"@[5] == 'l');
    reveal_strlit("C.double");
    assert("C.double"@[0] == 'C');
    assert("C.double"@[1] == '.');
    assert("C.double"@[2] == 'd');
    assert("C.double"@[3] == 'o');
    assert("C.double"@[4] == 'u');
    assert("C.double"@[5] == 'b');
    assert("C.double"@[6] == 'l');
    assert("C.double"@[7] == 'e');
    reveal_strlit("C.float");
    assert("C.float"@[0] == 'C');
    assert("C.float"@[1] == '.');
    assert("C.float"@[2] == 'f');
    assert("C.float"@[3] == 'l');
    assert("C.float"@[4] == 'o');
    assert("C.float"@[5] == 'a');
    assert("C.float"@[6] == 't');
    reveal_strlit("C.int");
    assert("C.int"@[0] == 'C');
    assert("C.int"@[1] == '.');
    assert("C.int"@[2] == 'i');
    assert("C.int"@[3] == 'n');
    assert("C.int"@[4] == 't');
    reveal_strlit("C.int16_t");
    assert("C.int16_t"@[0] == 'C');
    assert("C.int16_t"@[1] == '.');
    assert("C.int16_t"@[2] == 'i');
    assert("C.int16_t"@[3] == 'n');
    assert("C.int16_t"@[4] == 't');
    assert("C.int16_t"@[5] == '1');
    assert("C.int16_t"@[6] == '6');
    assert("C.int16_t"@[7] == '_');
    assert("C.int16_t"@[8] == 't');
    reveal_strlit("C.int32_t");
    assert("C.int32_t"@[0] == 'C');
    assert("C.int32_t"@[1] == '.');
    assert("C.int32_t"@[2] == 'i');
    assert("C.int32_t"@[3] == 'n');
    assert("C.int32_t"@[4] == 't');
    assert("C.int32_t"@[5] == '3');
    assert("C.int32_t"@[6] == '2');
    assert("C.int32_t"@[7] == '_');
    assert("C.int32_t"@[8] == 't');
    reveal_strlit("C.int64_t");
    assert("C.int64_t"@[0] == 'C');
    assert("C.int64_t"@[1] == '.');
    assert("C.int64_t"@[2] == 'i');
    assert("C.int64_t"@[3] == 'n');
    assert("C.int64_t"@[4] == 't');
    assert("C.int64_t"@[5] == '6');
    assert("C.int64_t"@[6] == '4');
    assert("C.int64_t"@[7] == '_');
    assert("C.int64_t"@[8] == 't');
    reveal_strlit("C.int8_t");
    assert("C.int8_t"@[0] == 'C');
    assert("C.int8_t"@[1] == '.');
    assert("C.int8_t"@[2] == 'i');
    assert("C.int8_t"@[3] == 'n');
    assert("C.int8_t"@[4] == 't');
    assert("C.int8_t"@[5] == '8');
    assert("C.int8_t"@[6] == '_');
    assert("C.int8_t"@[7] == 't');
    reveal_strlit("C.long");
    assert("C.long"@[0] == 'C');
    assert("C.long"@[1] == '.');
    assert("C.long"@[2] == 'l');
    assert("C.long"@[3] == 'o');
    assert("C.long"@[4] == 'n');
    assert("C.long"@[5] == 'g');
    reveal_strlit("C.size_t");
    assert("C.size_t"@[0] == 'C');
    assert("C.size_t"@[1] == '.');
    assert("C.size_t"@[2] == 's');
    assert("C.size_t"@[3] == 'i');
    assert("C.size_t"@[4] == 'z');
    assert("C.size_t"@[5] == 'e');
    assert("C.size_t"@[6] == '_');
    assert("C.size_t"@[7] == 't');
    reveal_strlit("C.uint16_t");
    assert("C.uint16_t"@[0] == 'C');
    assert("C.uint16_t"@[1] == '.');
    assert("C.uint16_t"@[2] == 'u');
    assert("C.uint16_t"@[3] == 'i');
    assert("C.uint16_t"@[4] == 'n');
    assert("C.uint16_t"@[5] == 't');
    assert("C.uint16_t"@[6] == '1');
    assert("C.uint16_t"@[7] == '6');
    assert("C.uint16_t"@[8] == '_');
    assert("C.uint16_t"@[9] == 't');
    reveal_strlit("C.uint32_t");
    assert("C.uint32_t"@[0] == 'C');
    assert("C.uint32_t"@[1] == '.');
    assert("C.uint32_t"@[2] == 'u');
    assert("C.uint32_t"@[3] == 'i');
    assert("C.uint32_t"@[4] == 'n');
    assert("C.uint32_t"@[5] == 't');
    assert("C.uint32_t"@[6] == '3');
    assert("C.uint32_t"@[7] == '2');
    assert("C.uint32_t"@[8] == '_');
    assert("C.uint32_t"@[9] == 't');
    reveal_strlit("C.uint64_t");
    assert("C.uint64_t"@[0] == 'C');
    assert("C.uint64_t"@[1] == '.');
    assert("C.uint64_t"@[2] == 'u');
    assert("C.uint64_t"@[3] == 'i');
    assert("C.uint64_t"@[4] == 'n');
    assert("C.uint64_t"@[5] == 't');
    assert("C.uint64_t"@[6] == '6');
    assert("C.uint64_t"@[7] == '4');
    assert("C.uint64_t"@[8] == '_');
    assert("C.uint64_t"@[9] == 't');
    reveal_strlit("C.uint8_t");
    assert("C.uint8_t"@[0] == 'C');
    assert("C.uint8_t"@[1] == '.');
    assert("C.uint8_t"@[2] == 'u');
    assert("C.uint8_t"@[3] == 'i');
    assert("C.uint8_t"@[4] == 'n');
    assert("C.uint8_t"@[5] == 't');
    assert("C.uint8_t"@[6] == '8');
    assert("C.uint8_t"@[7] == '_');
    assert("C.uint8_t"@[8] == 't');
    reveal_strlit("_t");
    assert("_t"@[0] == '_');
    assert("_t"@[1] == 't');
    reveal_strlit("bool");
    assert("bool"@[0] == 'b');
    assert("bool"@[1] == 'o');
    assert("bool"@[2] == 'o');
    assert("bool"@[3] == 'l');
    reveal_strlit("double");
    assert("double"@[0] == 'd');
    assert("double"@[1] == 'o');
    assert("double"@[2] == 'u');
    assert("double"@[3] == 'b');
    assert("double"@[4] == 'l');
    assert("double"@[5] == 'e');
    reveal_strlit("float");
    assert("float"@[0] == 'f');
    assert("float"@[1] == 'l');
    assert("float"@[2] == 'o');
    assert("float"@[3] == 'a');
    assert("float"@[4] == 't');
    reveal_strlit("float32");
    assert("float32"@[0] == 'f');
    assert("float32"@[1] == 'l');
    assert("float32"@[2] == 'o');
    assert("float32"@[3] == 'a');
    assert("float32"@[4] == 't');
    assert("float32"@[5] == '3');
    assert("float32"@[6] == '2');
    reveal_strlit("float64");
    assert("float64"@[0] == 'f');
    assert("float64"@[1] == 'l');
    assert("float64"@[2] == 'o');
    assert("float64"@[3] == 'a');
    assert("float64"@[4] == 't');
    assert("float64"@[5] == '6');
    assert("float64"@[6] == '4');
    reveal_strlit("int");
    assert("int"@[0] == 'i');
    assert("int"@[1] == 'n');
    assert("int"@[2] == 't');
    reveal_strlit("int16");
    assert("int16"@[0] == 'i');
    assert("int16"@[1] == 'n');
    assert("int16"@[2] == 't');
    assert("int16"@[3] == '1');
    assert("int16"@[4] == '6');
    reveal_strlit("int16_t");
    assert("int16_t"@[0] == 'i');
    assert("int16_t"@[1] == 'n');
    assert("int16_t"@[2] == 't');
    assert("int16_t"@[3] == '1');
    assert("int16_t"@[4] == '6');
    assert("int16_t"@[5] == '_');
    assert("int16_t"@[6] == 't');
    reveal_strlit("int32");
    assert("int32"@[0] == 'i');
    assert("int32"@[1] == 'n');
    assert("int32"@[2] == 't');
    assert("int32"@[3] == '3');
    assert("int32"@[4] == '2');
    reveal_strlit("int32_t");
    assert("int32_t"@[0] == 'i');
    assert("int32_t"@[1] == 'n');
    assert("int32_t"@[2] == 't');
    assert("int32_t"@[3] == '3');
    assert("int32_t"@[4] == '2');
    assert("int32_t"@[5] == '_');
    assert("int32_t"@[6] == 't');
    reveal_strlit("int64");
    assert("int64"@[0] == 'i');
    assert("int64"@[1] == 'n');
    assert("int64"@[2] == 't');
    assert("int64"@[3] == '6');
    assert("int64"@[4] == '4');
    reveal_strlit("int64_t");
    assert("int64_t"@[0] == 'i');
    assert("int64_t"@[1] == 'n');
    assert("int64_t"@[2] == 't');
    assert("int64_t"@[3] == '6');
    assert("int64_t"@[4] == '4');
    assert("int64_t"@[5] == '_');
    assert("int64_t"@[6] == 't');
    reveal_strlit("int8");
    assert("int8"@[0] == 'i');
    assert("int8"@[1] == 'n');
    assert("int8"@[2] == 't');
    assert("int8"@[3] == '8');
    reveal_strlit("int8_t");
    assert("int8_t"@[0] == 'i');
    assert("int8_t"@[1] == 'n');
    assert("int8_t"@[2] == 't');
    assert("int8_t"@[3] == '8');
    assert("int8_t"@[4] == '_');
    assert("int8_t"@[5] == 't');
    reveal_strlit("long");
    assert("long"@[0] == 'l');
    assert("long"@[1] == 'o');
    assert("long"@[2] == 'n');
    assert("long"@[3] == 'g');
    reveal_strlit("longlong");
    assert("longlong"@[0] == 'l');
    assert("longlong"@[1] == 'o');
    assert("longlong"@[2] == 'n');
    assert("longlong"@[3] == 'g');
    assert("longlong"@[4] == 'l');
    assert("longlong"@[5] == 'o');
    assert("longlong"@[6] == 'n');
    assert("longlong"@[7] == 'g');
    reveal_strlit("short");
    assert("short"@[0] == 's');
    assert("short"@[1] == 'h');
    assert("short"@[2] == 'o');
    assert("short"@[3] == 'r');
    assert("short"@[4] == 't');
    reveal_strlit("signedchar");
    assert("signedchar"@[0] == 's');
    assert("signedchar"@[1] == 'i');
    assert("signedchar"@[2] == 'g');
    assert("signedchar"@[3] == 'n');
    assert("signedchar"@[4] == 'e');
    assert("signedchar"@[5] == 'd');
    assert("signedchar"@[6] == 'c');
    assert("signedchar"@[7] == 'h');
    assert("signedchar"@[8] == 'a');
    assert("signedchar"@[9] == 'r');
    reveal_strlit("size_t");
    assert("size_t"@[0] == 's');
    assert("size_t"@[1] == 'i');
    assert("size_t"@[2] == 'z');
    assert("size_t"@[3] == 'e');
    assert("size_t"@[4] == '_');
    assert("size_t"@[5] == 't');
    reveal_strlit("uint16");
    assert("uint16"@[0] == 'u');
    assert("uint16"@[1] == 'i');
    assert("uint16"@[2] == 'n');
    assert("uint16"@[3] == 't');
    assert("uint16"@[4] == '1');
    assert("uint16"@[5] == '6');
    reveal_strlit("uint16_t");
    assert("uint16_t"@[0] == 'u');
    assert("uint16_t"@[1] == 'i');
    assert("uint16_t"@[2] == 'n');
    assert("uint16_t"@[3] == 't');
    assert("uint16_t"@[4] == '1');
    assert("uint16_t"@[5] == '6');
    assert("uint16_t"@[6] == '_');
    assert("uint16_t"@[7] == 't');
    reveal_strlit("uint32");
    assert("uint32"@[0] == 'u');
    assert("uint32"@[1] == 'i');
    assert("uint32"@[2] == 'n');
    assert("uint32"@[3] == 't');
    assert("uint32"@[4] == '3');
    assert("uint32"@[5] == '2');
    reveal_strlit("uint32_t");
    assert("uint32_t"@[0] == 'u');
    assert("uint32_t"@[1] == 'i');
    assert("uint32_t"@[2] == 'n');
    assert("uint32_t"@[3] == 't');
    assert("uint32_t"@[4] == '3');
    assert("uint32_t"@[5] == '2');
    assert("uint32_t"@[6] == '_');
    assert("uint32_t"@[7] == 't');
    reveal_strlit("uint64");
    assert("uint64"@[0] == 'u');
    assert("uint64"@[1] == 'i');
    assert("uint64"@[2] == 'n');
    assert("uint64"@[3] == 't');
    assert("uint64"@[4] == '6');
    assert("uint64"@[5] == '4');
    reveal_strlit("uint64_t");
    assert("uint64_t"@[0] == 'u');
    assert("uint64_t"@[1] == 'i');
    assert("uint64_t"@[2] == 'n');
    assert("uint64_t"@[3] == 't');
    assert("uint64_t"@[4] == '6');
    assert("uint64_t"@[5] == '4');
    assert("uint64_t"@[6] == '_');
    assert("uint64_t"@[7] == 't');
    reveal_strlit("uint8");
    assert("uint8"@[0] == 'u');
    assert("uint8"@[1] == 'i');
    assert("uint8"@[2] == 'n');
    assert("uint8"@[3] == 't');
    assert("uint8"@[4] == '8');
    reveal_strlit("uint8_t");
    assert("uint8_t"@[0] == 'u');
    assert("uint8_t"@[1] == 'i');
    assert("uint8_t"@[2] == 'n');
    assert("uint8_t"@[3] == 't');
    assert("uint8_t"@[4] == '8');
    assert("uint8_t"@[5] == '_');
    assert("uint8_t"@[6] == 't');
    reveal_strlit("uintptr");
    assert("uintptr"@[0] == 'u');
    assert("uintptr"@[1] == 'i');
    assert("uintptr"@[2] == 'n');
    assert("uintptr"@[3] == 't');
    assert("uintptr"@[4] == 'p');
    assert("uintptr"@[5] == 't');
    assert("uintptr"@[6] == 'r');
    reveal_strlit("unsigned");
    assert("unsigned"@[0] == 'u');
    assert("unsigned"@[1] == 'n');
    assert("unsigned"@[2] == 's');
    assert("unsigned"@[3] == 'i');
    assert("unsigned"@[4] == 'g');
    assert("unsigned"@[5] == 'n');
    assert("unsigned"@[6] == 'e');
    assert("unsigned"@[7] == 'd');
    reveal_strlit("unsignedchar");
    assert("unsignedchar"@[0] == 'u');
    assert("unsignedchar"@[1] == 'n');
    assert("unsignedchar"@[2] == 's');
    assert("unsignedchar"@[3] == 'i');
    assert("unsignedchar"@[4] == 'g');
    assert("unsignedchar"@[5] == 'n');
    assert("unsignedchar"@[6] == 'e');
    assert("unsignedchar"@[7] == 'd');
    assert("unsignedchar"@[8] == 'c');
    assert("unsignedchar"@[9] == 'h');
    assert("unsignedchar"@[10] == 'a');
    assert("unsignedchar"@[11] == 'r');
    reveal_strlit("unsignedint");
    assert("unsignedint"@[0] == 'u');
    assert("unsignedint"@[1] == 'n');
    assert("unsignedint"@[2] == 's');
    assert("unsignedint"@[3] == 'i');
    assert("unsignedint"@[4] == 'g');
    assert("unsignedint"@[5] == 'n');
    assert("unsignedint"@[6] == 'e');
    assert("unsignedint"@[7] == 'd');
    assert("unsignedint"@[8] == 'i');
    assert("unsignedint"@[9] == 'n');
    assert("unsignedint"@[10] == 't');
    reveal_strlit("unsignedlong");
    assert("unsignedlong"@[0] == 'u');
    assert("unsignedlong"@[1] == 'n');
    assert("unsignedlong"@[2] == 's');
    assert("unsignedlong"@[3] == 'i');
    assert("unsignedlong"@[4] == 'g');
    assert("unsignedlong"@[5] == 'n');
    assert("unsignedlong"@[6] == 'e');
    assert("unsignedlong"@[7] == 'd');
    assert("unsignedlong"@[8] == 'l');
    assert("unsignedlong"@[9] == 'o');
    assert("unsignedlong"@[10] == 'n');
    assert("unsignedlong"@[11] == 'g');
    reveal_strlit("unsignedlonglong");
    assert("unsignedlonglong"@[0] == 'u');
    assert("unsignedlonglong"@[1] == 'n');
    assert("unsignedlonglong"@[2] == 's');
    assert("unsignedlonglong"@[3] == 'i');
    assert("unsignedlonglong"@[4] == 'g');
    assert("unsignedlonglong"@[5] == 'n');
    assert("unsignedlonglong"@[6] == 'e');
    assert("unsignedlonglong"@[7] == 'd');
    assert("unsignedlonglong"@[8] == 'l');
    assert("unsignedlonglong"@[9] == 'o');
    assert("unsignedlonglong"@[10] == 'n');
    assert("unsignedlonglong"@[11] == 'g');
    assert("unsignedlonglong"@[12] == 'l');
    assert("unsignedlonglong"@[13] == 'o');
    assert("unsignedlonglong"@[14] == 'n');
    assert("unsignedlonglong"@[15] == 'g');
    reveal_strlit("unsignedshort");
    assert("unsignedshort"@[0] == 'u');
    assert("unsignedshort"@[1] == 'n');
    assert("unsignedshort"@[2] == 's');
    assert("unsignedshort"@[3] == 'i');
    assert("unsignedshort"@[4] == 'g');
    assert("unsignedshort"@[5] == 'n');
    assert("unsignedshort"@[6] == 'e');
    assert("unsignedshort"@[7] == 'd');
    assert("unsignedshort"@[8] == 's');
    assert("unsignedshort"@[9] == 'h');
    assert("unsignedshort"@[10] == 'o');
    assert("unsignedshort"@[11] == 'r');
    assert("unsignedshort"@[12] == 't');
    if k == "bool"@ {
        assert(key_cgo_cast(k) == Some("C.bool"@));
        assert(key_go_type(k) == Some("bool"@));
        assert(go_type_of_cgo("C.bool"@) == Some("bool"@));
    } else if k == "float"@ {
        assert(key_cgo_cast(k) == Some("C.float"@));
        assert(key_go_type(k) == Some("float32"@));
        assert(go_type_of_cgo("C.float"@) == Some("float32"@));
    } else if k == "double"@ {
        assert(key_cgo_cast(k) == Some("C.double"@));
        assert(key_go_type(k) == Some("float64"@));
        assert(go_type_of_cgo("C.double"@) == Some("float64"@));
    } else if k == "int8"@ {
        assert(key_cgo_cast(k) == Some("C.int8_t"@));
        assert(key_go_type(k) == Some("int8"@));
        assert(go_type_of_cgo("C.int8_t"@) == Some("int8"@));
    } else if k == "int8_t"@ {
        assert(key_cgo_cast(k) == Some("C.int8_t"@));
        assert(key_go_type(k) == Some("int8"@));
        assert(go_type_of_cgo("C.int8_t"@) == Some("int8"@));
    } else if k == "signedchar"@ {
        assert(key_cgo_cast(k) == Some("C.int8_t"@));
        assert(key_go_type(k) == Some("int8"@));
        assert(go_type_of_cgo("C.int8_t"@) == Some("int8"@));
    } else if k == "int16"@ {
        assert(key_cgo_cast(k) == Some("C.int16_t"@));
        assert(key_go_type(k) == Some("int16"@));
        assert(go_type_of_cgo("C.int16_t"@) == Some("int16"@));
    } else if k == "int16_t"@ {
        assert(key_cgo_cast(k) == Some("C.int16_t"@));
        assert(key_go_type(k) == Some("int16"@));
        assert(go_type_of_cgo("C.int16_t"@) == Some("int16"@));
    } else if k == "short"@ {
        assert(key_cgo_cast(k) == Some("C.int16_t"@));
        assert(key_go_type(k) == Some("int16"@));
        assert(go_type_of_cgo("C.int16_t"@) == Some("int16"@));
    } else if k == "int32"@ {
        assert(key_cgo_cast(k) == Some("C.int32_t"@));
        assert(key_go_type(k) == Some("int32"@));
        assert(go_type_of_cgo("C.int32_t"@) == Some("int32"@));
    } else if k == "int32_t"@ {
        assert(key_cgo_cast(k) == Some("C.int32_t"@));
        assert(key_go_type(k) == Some("int32"@));
        assert(go_type_of_cgo("C.int32_t"@) == Some("int32"@));
    } else if k == "int64"@ {
        assert(key_cgo_cast(k) == Some("C.int64_t"@));
        assert(key_go_type(k) == Some("int64"@));
        assert(go_type_of_cgo("C.int64_t"@) == Some("int64"@));
    } else if k == "int64_t"@ {
        assert(key_cgo_cast(k) == Some("C.int64_t"@));
        assert(key_go_type(k) == Some("int64"@));
        assert(go_type_of_cgo("C.int64_t"@) == Some("int64"@));
    } else if k == "uint8"@ {
        assert(key_cgo_cast(k) == Some("C.uint8_t"@));
        assert(key_go_type(k) == Some("uint8"@));
        assert(go_type_of_cgo("C.uint8_t"@) == Some("uint8"@));
    } else if k == "uint8_t"@ {
        assert(key_cgo_cast(k) == Some("C.uint8_t"@));
        assert(key_go_type(k) == Some("uint8"@));
        assert(go_type_of_cgo("C.uint8_t"@) == Some("uint8"@));
    } else if k == "unsignedchar"@ {
        assert(key_cgo_cast(k) == Some("C.uint8_t"@));
        assert(key_go_type(k) == Some("uint8"@));
        assert(go_type_of_cgo("C.uint8_t"@) == Some("uint8"@));
    } else if k == "uint16"@ {
        assert(key_cgo_cast(k) == Some("C.uint16_t"@));
        assert(key_go_type(k) == Some("uint16"@));
        assert(go_type_of_cgo("C.uint16_t"@) == Some("uint16"@));
    } else if k == "uint16_t"@ {
        assert(key_cgo_cast(k) == Some("C.uint16_t"@));
        assert(key_go_type(k) == Some("uint16"@));
        assert(go_type_of_cgo("C.uint16_t"@) == Some("uint16"@));
    } else if k == "unsignedshort"@ {
        assert(key_cgo_cast(k) == Some("C.uint16_t"@));
        assert(key_go_type(k) == Some("uint16"@));
        assert(go_type_of_cgo("C.uint16_t"@) == Some("uint16"@));
    } else if k == "uint32"@ {
        assert(key_cgo_cast(k) == Some("C.uint32_t"@));
        assert(key_go_type(k) == Some("uint32"@));
        assert(go_type_of_cgo("C.uint32_t"@) == Some("uint32"@));
    } else if k == "uint32_t"@ {
        assert(key_cgo_cast(k) == Some("C.uint32_t"@));
        assert(key_go_type(k) == Some("uint32"@));
        assert(go_type_of_cgo("C.uint32_t"@) == Some("uint32"@));
    } else if k == "unsignedint"@ {
        assert(key_cgo_cast(k) == Some("C.uint32_t"@));
        assert(key_go_type(k) == Some("uint32"@));
        assert(go_type_of_cgo("C.uint32_t"@) == Some("uint32"@));
    } else if k == "unsigned"@ {
        assert(key_cgo_cast(k) == Some("C.uint32_t"@));
        assert(key_go_type(k) == Some("uint32"@));
        assert(go_type_of_cgo("C.uint32_t"@) == Some("uint32"@));
    } else if k == "uint64"@ {
        assert(key_cgo_cast(k) == Some("C.uint64_t"@));
        assert(key_go_type(k) == Some("uint64"@));
        assert(go_type_of_cgo("C.uint64_t"@) == Some("uint64"@));
    } else if k == "uint64_t"@ {
        assert(key_cgo_cast(k) == Some("C.uint64_t"@));
        assert(key_go_type(k) == Some("uint64"@));
        assert(go_type_of_cgo("C.uint64_t"@) == Some("uint64"@));
    } else if k == "int"@ {
        assert(key_cgo_cast(k) == Some("C.int"@));
        assert(key_go_type(k) == Some("int"@));
        assert(go_type_of_cgo("C.int"@) == Some("int"@));
    } else if k == "long"@ {
        assert(key_cgo_cast(k) == Some("C.long"@));
        assert(key_go_type(k) == Some("int64"@));
        assert(go_type_of_cgo("C.long"@) == Some("int64"@));
    } else if k == "size_t"@ {
        assert(key_cgo_cast(k) == Some("C.size_t"@));
        assert(key_go_type(k) == Some("uintptr"@));
        assert(go_type_of_cgo("C.size_t"@) == Some("uintptr"@));
    } else {
        assert(key_cgo_cast(k) is None);
    }
    if is_fixed_width_name(k) {
        if k == "int8"@ {
            assert(k + "_t"@ =~= "int8_t"@);
        } else if k == "int16"@ {
            assert(k + "_t"@ =~= "int16_t"@);
        } else if k == "int32"@ {
            assert(k + "_t"@ =~= "int32_t"@);
        } else if k == "int64"@ {
            assert(k + "_t"@ =~= "int64_t"@);
        } else if k == "uint8"@ {
            assert(k + "_t"@ =~= "uint8_t"@);
        } else if k == "uint16"@ {
            assert(k + "_t"@ =~= "uint16_t"@);
        } else if k == "uint32"@ {
            assert(k + "_t"@ =~= "uint32_t"@);
        } else {
            assert(k + "_t"@ =~= "uint64_t"@);
        }
    }
}

/// The same, for the Go type of a type spelling and its cgo conversion.
pub proof fn law_primitive_go_type_matches_cgo_cast(value: Seq<char>)
    ensures
        spec_primitive_cgo_cast_type(value) is Some ==> spec_primitive_go_type(value) == go_type_of_cgo(
            spec_primitive_cgo_cast_type(value)->0,
        ),
{
    law_go_type_matches_cgo_cast(spec_normalize_type_key(value));
}


} // verus!
