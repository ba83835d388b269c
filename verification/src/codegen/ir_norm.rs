//! Normalization of parsed C++ declarations into the C ABI IR.
use vstd::prelude::*;
use crate::config::Config;
use crate::domain::kind::{FieldAccessKind, IrFunctionKind, IrTypeKind};
use crate::parser::{
    CppCallbackTypedef, CppClass, CppConstructor, CppField, CppFunction, CppMethod, CppParam,
    ParsedApi,
};
use crate::text;
use crate::text::{
    insert_sorted, seq_lt, sorted_strictly, str_lt,
    chars_of, clone_strings, concat2, contains_string, copy_opt, opt_view, owned, str_eq,
    string_of_range, trim_str,
};

verus! {

// ---------------------------------------------------------------------------
// The IR
// ---------------------------------------------------------------------------

/// One normalized module: everything that one header set produces.
#[derive(Debug, Clone)]
pub struct IrModule {
    pub version: u32,
    pub module: String,
    pub source_headers: Vec<String>,
    pub opaque_types: Vec<OpaqueType>,
    pub functions: Vec<IrFunction>,
    pub enums: Vec<IrEnum>,
    pub callbacks: Vec<IrCallback>,
    pub support: SupportMetadata,
}

/// A handle type that stands for a C++ class on the C side.
#[derive(Debug, Clone)]
pub struct OpaqueType {
    pub name: String,
    pub cpp_type: String,
}

/// One C ABI wrapper function.
#[derive(Debug, Clone)]
pub struct IrFunction {
    pub name: String,
    pub kind: IrFunctionKind,
    pub cpp_name: String,
    pub method_of: Option<String>,
    pub owner_cpp_type: Option<String>,
    pub is_const: Option<bool>,
    pub field_accessor: Option<IrFieldAccessor>,
    pub returns: IrType,
    pub params: Vec<IrParam>,
}

/// The field that a synthesized accessor reads or writes.
#[derive(Debug, Clone)]
pub struct IrFieldAccessor {
    pub field_name: String,
    pub access: FieldAccessKind,
}

/// A parameter of a wrapper function.
#[derive(Debug, Clone)]
pub struct IrParam {
    pub name: String,
    pub ty: IrType,
}

/// How one C++ type crosses the C ABI.
#[derive(Debug, Clone)]
pub struct IrType {
    pub kind: IrTypeKind,
    pub cpp_type: String,
    pub c_type: String,
    pub handle: Option<String>,
}

/// A callback typedef in C terms.
#[derive(Debug, Clone)]
pub struct IrCallback {
    pub name: String,
    pub cpp_name: String,
    pub returns: IrType,
    pub params: Vec<IrParam>,
}

/// An enum in C terms.
#[derive(Debug, Clone)]
pub struct IrEnum {
    pub name: String,
    pub cpp_name: String,
    pub variants: Vec<IrEnumVariant>,
}

/// One enumerator.
#[derive(Debug, Clone)]
pub struct IrEnumVariant {
    pub name: String,
    pub value: Option<String>,
}

/// What the IR dump records about how it was produced.
#[derive(Debug, Clone)]
pub struct SupportMetadata {
    pub parser_backend: String,
    pub notes: Vec<String>,
    pub skipped_declarations: Vec<SkippedDeclaration>,
}

/// A declaration that was left out, and why.
#[derive(Debug, Clone)]
pub struct SkippedDeclaration {
    pub cpp_name: String,
    pub reason: String,
}

// ---------------------------------------------------------------------------
// Views
// ---------------------------------------------------------------------------

/// The mathematical value of an `IrType`.
pub struct IrTypeV {
    pub kind: IrTypeKind,
    pub cpp_type: Seq<char>,
    pub c_type: Seq<char>,
    pub handle: Option<Seq<char>>,
}

impl View for IrType {
    type V = IrTypeV;

    open spec fn view(&self) -> IrTypeV {
        IrTypeV {
            kind: self.kind,
            cpp_type: self.cpp_type@,
            c_type: self.c_type@,
            handle: opt_view(self.handle),
        }
    }
}

/// A copy of an IR type.
pub fn copy_type(t: &IrType) -> (r: IrType)
    ensures
        r@ == t@,
{
    IrType {
        kind: t.kind,
        cpp_type: t.cpp_type.clone(),
        c_type: t.c_type.clone(),
        handle: copy_opt(&t.handle),
    }
}

// ---------------------------------------------------------------------------
// Type names
// ---------------------------------------------------------------------------

/// The primitive spellings that the C ABI passes by value.
pub open spec fn spec_is_supported_primitive(s: Seq<char>) -> bool {
    s == "bool"@ || s == "int"@ || s == "int8_t"@ || s == "int8"@ || s == "int16_t"@ || s
        == "int16"@ || s == "int32_t"@ || s == "int32"@ || s == "int64_t"@ || s == "int64"@
        || s == "short"@ || s == "long"@ || s == "long long"@ || s == "float"@ || s
        == "double"@ || s == "size_t"@ || s == "uint8_t"@ || s == "uint8"@ || s
        == "uint16_t"@ || s == "uint16"@ || s == "uint32_t"@ || s == "uint32"@ || s
        == "uint64_t"@ || s == "uint64"@ || s == "char"@ || s == "const char"@ || s
        == "unsigned"@ || s == "unsigned int"@ || s == "unsigned short"@ || s
        == "unsigned long"@ || s == "unsigned long long"@ || s == "signed char"@ || s
        == "unsigned char"@
}

pub fn is_supported_primitive(name: &str) -> (r: bool)
    ensures
        r == spec_is_supported_primitive(name@),
{
    str_eq(name, "bool") || str_eq(name, "int") || str_eq(name, "int8_t") || str_eq(name, "int8")
        || str_eq(name, "int16_t") || str_eq(name, "int16") || str_eq(name, "int32_t") || str_eq(
        name,
        "int32",
    ) || str_eq(name, "int64_t") || str_eq(name, "int64") || str_eq(name, "short") || str_eq(
        name,
        "long",
    ) || str_eq(name, "long long") || str_eq(name, "float") || str_eq(name, "double") || str_eq(
        name,
        "size_t",
    ) || str_eq(name, "uint8_t") || str_eq(name, "uint8") || str_eq(name, "uint16_t") || str_eq(
        name,
        "uint16",
    ) || str_eq(name, "uint32_t") || str_eq(name, "uint32") || str_eq(name, "uint64_t") || str_eq(
        name,
        "uint64",
    ) || str_eq(name, "char") || str_eq(name, "const char") || str_eq(name, "unsigned")
        || str_eq(name, "unsigned int") || str_eq(name, "unsigned short") || str_eq(
        name,
        "unsigned long",
    ) || str_eq(name, "unsigned long long") || str_eq(name, "signed char") || str_eq(
        name,
        "unsigned char",
    )
}

/// The fixed-width C spelling of a project alias such as `uint8`.
pub open spec fn spec_canonical_primitive_c_type(s: Seq<char>) -> Seq<char> {
    if s == "uint8"@ {
        "uint8_t"@
    } else if s == "uint16"@ {
        "uint16_t"@
    } else if s == "uint32"@ {
        "uint32_t"@
    } else if s == "uint64"@ {
        "uint64_t"@
    } else if s == "int8"@ {
        "int8_t"@
    } else if s == "int16"@ {
        "int16_t"@
    } else if s == "int32"@ {
        "int32_t"@
    } else if s == "int64"@ {
        "int64_t"@
    } else {
        s
    }
}

pub fn canonical_primitive_c_type(name: &str) -> (r: String)
    ensures
        r@ == spec_canonical_primitive_c_type(name@),
{
    if str_eq(name, "uint8") {
        owned("uint8_t")
    } else if str_eq(name, "uint16") {
        owned("uint16_t")
    } else if str_eq(name, "uint32") {
        owned("uint32_t")
    } else if str_eq(name, "uint64") {
        owned("uint64_t")
    } else if str_eq(name, "int8") {
        owned("int8_t")
    } else if str_eq(name, "int16") {
        owned("int16_t")
    } else if str_eq(name, "int32") {
        owned("int32_t")
    } else if str_eq(name, "int64") {
        owned("int64_t")
    } else {
        owned(name)
    }
}

/// A type spelling without surrounding whitespace, leading `const `, and
/// trailing `&` and `*`.
pub open spec fn spec_base_model_cpp_type(s: Seq<char>) -> Seq<char> {
    text::trim(
        text::trim_end_char(
            text::trim_end_char(text::trim_start_matches(text::trim(s), "const "@), '&'),
            '*',
        ),
    )
}

pub fn base_model_cpp_type(value: &str) -> (r: String)
    ensures
        r@ == spec_base_model_cpp_type(value@),
{
    let a = trim_str(value);
    let b = text::trim_start_matches_str(a.as_str(), "const ");
    let c = text::trim_end_char_str(b.as_str(), '&');
    let d = text::trim_end_char_str(c.as_str(), '*');
    trim_str(d.as_str())
}

/// A qualified name with its `::` separators removed.
pub open spec fn spec_flatten_qualified_cpp_name(s: Seq<char>) -> Seq<char> {
    text::replace(s, "::"@, Seq::empty())
}

/// `value.split("::").collect::<Vec<_>>().join("")`.
pub fn flatten_qualified_cpp_name(value: &str) -> (r: String)
    ensures
        r@ == spec_flatten_qualified_cpp_name(value@),
{
    proof {
        reveal_strlit("::");
        reveal_strlit("");
        assert(""@ =~= Seq::<char>::empty());
    }
    text::replace_str(value, "::", "")
}

/// The handle name of a type that the C ABI can carry as an opaque model.
pub open spec fn spec_raw_safe_model_handle_name(s: Seq<char>) -> Option<Seq<char>> {
    let base = spec_base_model_cpp_type(s);
    if base.len() == 0 || base == "void"@ || base.contains('<') || text::starts_with(base, "std::"@)
        || text::starts_with(base, "struct "@) || base.contains('[') || base.contains(']')
        || base.contains('(') || base.contains(')') || spec_is_supported_primitive(base) {
        None
    } else {
        Some(spec_flatten_qualified_cpp_name(base) + "Handle"@)
    }
}

pub fn raw_safe_model_handle_name(cpp_type: &str) -> (r: Option<String>)
    ensures
        opt_view(r) == spec_raw_safe_model_handle_name(cpp_type@),
{
    let base = base_model_cpp_type(cpp_type);
    let b = base.as_str();
    if base.unicode_len() == 0 || str_eq(b, "void") || text::contains_char(b, '<')
        || text::has_prefix(b, "std::") || text::has_prefix(b, "struct ") || text::contains_char(
        b,
        '[',
    ) || text::contains_char(b, ']') || text::contains_char(b, '(') || text::contains_char(b, ')')
        || is_supported_primitive(b) {
        None
    } else {
        let flat = flatten_qualified_cpp_name(b);
        Some(concat2(flat.as_str(), "Handle"))
    }
}

/// The C spelling of a C struct that is passed through unchanged
/// (`struct tag`, or `timeval`).
pub open spec fn spec_extern_c_struct_base_type(s: Seq<char>) -> Option<Seq<char>> {
    let base = spec_base_model_cpp_type(s);
    match text::strip_prefix(base, "struct "@) {
        Some(tag) => if text::trim(tag).len() > 0 {
            Some("struct "@ + text::trim(tag))
        } else {
            None
        },
        None => if base == "timeval"@ {
            Some("struct timeval"@)
        } else {
            None
        },
    }
}

pub fn extern_c_struct_base_type(cpp_type: &str) -> (r: Option<String>)
    ensures
        opt_view(r) == spec_extern_c_struct_base_type(cpp_type@),
{
    let base = base_model_cpp_type(cpp_type);
    match text::strip_prefix_str(base.as_str(), "struct ") {
        Some(tag) => {
            let t = trim_str(tag.as_str());
            if t.unicode_len() > 0 {
                Some(concat2("struct ", t.as_str()))
            } else {
                None
            }
        },
        None => {
            if str_eq(base.as_str(), "timeval") {
                Some(owned("struct timeval"))
            } else {
                None
            }
        },
    }
}

// ---------------------------------------------------------------------------
// Arrays
// ---------------------------------------------------------------------------

/// The index of the last occurrence of `c` in `s`.
pub open spec fn spec_rfind(s: Seq<char>, c: char) -> Option<int>
    decreases s.len(),
{
    if s.len() == 0 {
        None
    } else if s.last() == c {
        Some(s.len() - 1)
    } else {
        spec_rfind(s.drop_last(), c)
    }
}

pub proof fn lemma_rfind_bounds(s: Seq<char>, c: char)
    ensures
        spec_rfind(s, c) matches Some(i) ==> 0 <= i < s.len() && s[i] == c,
    decreases s.len(),
{
    if s.len() > 0 && s.last() != c {
        lemma_rfind_bounds(s.drop_last(), c);
    }
}

/// `T[N]` with `N > 0`: the element type and the length.
pub open spec fn spec_parse_array_type(s: Seq<char>) -> Option<(Seq<char>, usize)> {
    let t = text::trim(text::trim_start_matches(text::trim(s), "const "@));
    match spec_rfind(t, '[') {
        Some(bracket) => {
            let elem = text::trim(t.take(bracket));
            match text::strip_suffix(t.skip(bracket + 1), "]"@) {
                Some(rest) => match text::parse_usize(text::trim(rest)) {
                    Some(n) => if elem.len() == 0 || n == 0 {
                        None
                    } else {
                        Some((elem, n))
                    },
                    None => None,
                },
                None => None,
            }
        },
        None => None,
    }
}

/// The index of the last occurrence of `c` in `v`.
fn rfind_char(v: &[char], c: char) -> (r: Option<usize>)
    ensures
        r matches Some(i) ==> spec_rfind(v@, c) == Some(i as int),
        r is None ==> spec_rfind(v@, c) is None,
{
    let mut e: usize = v.len();
    assert(v@.take(v.len() as int) =~= v@);
    while e > 0
        invariant
            e <= v.len(),
            spec_rfind(v@, c) == spec_rfind(v@.take(e as int), c),
        decreases e,
    {
        if v[e - 1] == c {
            return Some(e - 1);
        }
        assert(v@.take(e as int).drop_last() =~= v@.take(e - 1));
        e -= 1;
    }
    None
}

/// `T[N]` with `N > 0`: the element type and the length.
pub fn parse_array_type(value: &str) -> (r: Option<(String, usize)>)
    ensures
        r matches Some((e, n)) ==> spec_parse_array_type(value@) == Some((e@, n)),
        r is None ==> spec_parse_array_type(value@) is None,
{
    let a = trim_str(value);
    let b = text::trim_start_matches_str(a.as_str(), "const ");
    let t = trim_str(b.as_str());
    let tv = chars_of(t.as_str());
    match rfind_char(&tv, '[') {
        Some(bracket) => {
            proof {
                lemma_rfind_bounds(tv@, '[');
            }
            assert(bracket < tv.len());
            let before = string_of_range(&tv, 0, bracket);
            assert(before@ =~= tv@.take(bracket as int));
            let elem = trim_str(before.as_str());
            let after = string_of_range(&tv, bracket + 1, tv.len());
            assert(after@ =~= tv@.skip(bracket + 1));
            match text::strip_suffix_str(after.as_str(), "]") {
                Some(rest) => {
                    let rt = trim_str(rest.as_str());
                    match text::parse_usize_str(rt.as_str()) {
                        Some(n) => {
                            if elem.unicode_len() == 0 || n == 0 {
                                None
                            } else {
                                Some((elem, n))
                            }
                        },
                        None => None,
                    }
                },
                None => None,
            }
        },
        None => None,
    }
}

/// The array length of a `T[N]` spelling (for fixed and model arrays).
pub fn fixed_array_length(cpp_type: &str) -> (r: Option<usize>)
    ensures
        r == (match spec_parse_array_type(cpp_type@) {
            Some((_, n)) => Some(n),
            None => None,
        }),
{
    match parse_array_type(cpp_type) {
        Some((_, n)) => Some(n),
        None => None,
    }
}

/// The element type of a `T[N]` spelling (for fixed arrays).
pub fn fixed_array_elem_type(cpp_type: &str) -> (r: Option<String>)
    ensures
        opt_view(r) == (match spec_parse_array_type(cpp_type@) {
            Some((e, _)) => Some(e),
            None => None,
        }),
{
    match parse_array_type(cpp_type) {
        Some((e, _)) => Some(e),
        None => None,
    }
}

/// A non-empty run of ASCII digits.
pub open spec fn spec_is_digit_run(s: Seq<char>) -> bool {
    s.len() > 0 && text::all_digits(s)
}

fn is_digit_run(s: &str) -> (r: bool)
    ensures
        r == spec_is_digit_run(s@),
{
    let v = chars_of(s);
    if v.len() == 0 {
        return false;
    }
    let mut i: usize = 0;
    while i < v.len()
        invariant
            i <= v.len(),
            v@ == s@,
            forall|j: int| 0 <= j < i ==> text::is_ascii_digit(#[trigger] v@[j]),
        decreases v.len() - i,
    {
        if !text::char_is_ascii_digit(v[i]) {
            assert(!text::is_ascii_digit(v@[i as int]));
            return false;
        }
        i += 1;
    }
    true
}

pub proof fn lemma_trim_len(s: Seq<char>)
    ensures
        text::trim(s).len() <= s.len(),
{
    lemma_trim_start_len(s);
    lemma_trim_end_len(text::trim_start(s));
}

pub proof fn lemma_trim_start_len(s: Seq<char>)
    ensures
        text::trim_start(s).len() <= s.len(),
    decreases s.len(),
{
    if s.len() > 0 && text::is_ws(s[0]) {
        lemma_trim_start_len(s.drop_first());
    }
}

pub proof fn lemma_trim_end_len(s: Seq<char>)
    ensures
        text::trim_end(s).len() <= s.len(),
    decreases s.len(),
{
    if s.len() > 0 && text::is_ws(s.last()) {
        lemma_trim_end_len(s.drop_last());
    }
}

/// `char[N]`, possibly `const`.
pub open spec fn spec_is_char_array_type(s: Seq<char>) -> bool
    decreases s.len(),
{
    let t = text::trim(s);
    match text::strip_prefix(t, "const "@) {
        Some(inner) => {
            proof {
                lemma_trim_len(s);
                reveal_strlit("const ");
            }
            spec_is_char_array_type(inner)
        },
        None => match text::strip_prefix(t, "char["@) {
            Some(prefix) => match text::strip_suffix(prefix, "]"@) {
                Some(len) => spec_is_digit_run(len),
                None => false,
            },
            None => false,
        },
    }
}

pub fn is_char_array_type(value: &str) -> (r: bool)
    ensures
        r == spec_is_char_array_type(value@),
    decreases value@.len(),
{
    let t = trim_str(value);
    match text::strip_prefix_str(t.as_str(), "const ") {
        Some(inner) => {
            proof {
                lemma_trim_len(value@);
                reveal_strlit("const ");
            }
            is_char_array_type(inner.as_str())
        },
        None => match text::strip_prefix_str(t.as_str(), "char[") {
            Some(prefix) => match text::strip_suffix_str(prefix.as_str(), "]") {
                Some(len) => is_digit_run(len.as_str()),
                None => false,
            },
            None => false,
        },
    }
}

/// `unsigned char[N]`, possibly `const`.
pub open spec fn spec_is_unsigned_char_array_type(s: Seq<char>) -> bool
    decreases s.len(),
{
    let t = text::trim(s);
    match text::strip_prefix(t, "const "@) {
        Some(inner) => {
            proof {
                lemma_trim_len(s);
                reveal_strlit("const ");
            }
            spec_is_unsigned_char_array_type(inner)
        },
        None => match text::strip_prefix(t, "unsigned char["@) {
            Some(prefix) => match text::strip_suffix(prefix, "]"@) {
                Some(len) => spec_is_digit_run(len),
                None => false,
            },
            None => false,
        },
    }
}

pub fn is_unsigned_char_array_type(value: &str) -> (r: bool)
    ensures
        r == spec_is_unsigned_char_array_type(value@),
    decreases value@.len(),
{
    let t = trim_str(value);
    match text::strip_prefix_str(t.as_str(), "const ") {
        Some(inner) => {
            proof {
                lemma_trim_len(value@);
                reveal_strlit("const ");
            }
            is_unsigned_char_array_type(inner.as_str())
        },
        None => match text::strip_prefix_str(t.as_str(), "unsigned char[") {
            Some(prefix) => match text::strip_suffix_str(prefix.as_str(), "]") {
                Some(len) => is_digit_run(len.as_str()),
                None => false,
            },
            None => false,
        },
    }
}

/// The length of an `unsigned char[N]` spelling.
pub open spec fn spec_byte_array_length(s: Seq<char>) -> Option<usize> {
    let t = text::trim(text::trim_start_matches(text::trim(s), "const "@));
    match text::strip_prefix(t, "unsigned char["@) {
        Some(prefix) => match text::strip_suffix(prefix, "]"@) {
            Some(len) => text::parse_usize(len),
            None => None,
        },
        None => None,
    }
}

/// The length of an `unsigned char[N]` spelling.
pub fn byte_array_length(cpp_type: &str) -> (r: Option<usize>)
    ensures
        r == spec_byte_array_length(cpp_type@),
{
    let a = trim_str(cpp_type);
    let b = text::trim_start_matches_str(a.as_str(), "const ");
    let t = trim_str(b.as_str());
    match text::strip_prefix_str(t.as_str(), "unsigned char[") {
        Some(prefix) => match text::strip_suffix_str(prefix.as_str(), "]") {
            Some(len) => text::parse_usize_str(len.as_str()),
            None => None,
        },
        None => None,
    }
}


// ---------------------------------------------------------------------------
// Type normalization
// ---------------------------------------------------------------------------

pub open spec fn mk_type(
    kind: IrTypeKind,
    cpp_type: Seq<char>,
    c_type: Seq<char>,
    handle: Option<Seq<char>>,
) -> IrTypeV {
    IrTypeV { kind, cpp_type, c_type, handle }
}

/// A primitive (or `void`) type that C and C++ spell the same way.
pub open spec fn spec_primitive_type(name: Seq<char>) -> IrTypeV {
    mk_type(
        if name == "void"@ {
            IrTypeKind::Void
        } else {
            IrTypeKind::Primitive
        },
        name,
        name,
        None,
    )
}

pub fn primitive_type(name: &str) -> (r: IrType)
    ensures
        r@ == spec_primitive_type(name@),
{
    IrType {
        kind: if str_eq(name, "void") {
            IrTypeKind::Void
        } else {
            IrTypeKind::Primitive
        },
        cpp_type: owned(name),
        c_type: owned(name),
        handle: None,
    }
}

pub fn alias_primitive_type(cpp_name: &str, c_name: &str) -> (r: IrType)
    ensures
        r@ == mk_type(IrTypeKind::Primitive, cpp_name@, c_name@, None),
{
    IrType {
        kind: IrTypeKind::Primitive,
        cpp_type: owned(cpp_name),
        c_type: owned(c_name),
        handle: None,
    }
}

fn mk_ir_type(kind: IrTypeKind, cpp_type: &str, c_type: &str) -> (r: IrType)
    ensures
        r@ == mk_type(kind, cpp_type@, c_type@, None),
{
    IrType { kind, cpp_type: owned(cpp_type), c_type: owned(c_type), handle: None }
}

/// The built-in spellings that `normalize_type` takes as primitives.
pub open spec fn spec_is_builtin_scalar(t: Seq<char>) -> bool {
    t == "bool"@ || t == "int"@ || t == "short"@ || t == "long"@ || t == "long long"@ || t
        == "float"@ || t == "double"@ || t == "size_t"@ || t == "char"@ || t == "const char"@
        || t == "unsigned"@ || t == "unsigned int"@ || t == "unsigned short"@ || t
        == "unsigned long"@ || t == "unsigned long long"@ || t == "signed char"@ || t
        == "unsigned char"@
}

fn is_builtin_scalar(t: &str) -> (r: bool)
    ensures
        r == spec_is_builtin_scalar(t@),
{
    str_eq(t, "bool") || str_eq(t, "int") || str_eq(t, "short") || str_eq(t, "long") || str_eq(
        t,
        "long long",
    ) || str_eq(t, "float") || str_eq(t, "double") || str_eq(t, "size_t") || str_eq(t, "char")
        || str_eq(t, "const char") || str_eq(t, "unsigned") || str_eq(t, "unsigned int")
        || str_eq(t, "unsigned short") || str_eq(t, "unsigned long") || str_eq(
        t,
        "unsigned long long",
    ) || str_eq(t, "signed char") || str_eq(t, "unsigned char")
}

/// The project's fixed-width aliases and their C spellings.
pub open spec fn spec_alias_c_name(t: Seq<char>) -> Option<Seq<char>> {
    if t == "uint8"@ {
        Some("uint8_t"@)
    } else if t == "uint16"@ {
        Some("uint16_t"@)
    } else if t == "uint32"@ {
        Some("uint32_t"@)
    } else if t == "uint64"@ {
        Some("uint64_t"@)
    } else if t == "int8"@ {
        Some("int8_t"@)
    } else if t == "int16"@ {
        Some("int16_t"@)
    } else if t == "int32"@ {
        Some("int32_t"@)
    } else if t == "int64"@ {
        Some("int64_t"@)
    } else {
        None
    }
}

fn alias_c_name(t: &str) -> (r: Option<String>)
    ensures
        opt_view(r) == spec_alias_c_name(t@),
{
    if str_eq(t, "uint8") {
        Some(owned("uint8_t"))
    } else if str_eq(t, "uint16") {
        Some(owned("uint16_t"))
    } else if str_eq(t, "uint32") {
        Some(owned("uint32_t"))
    } else if str_eq(t, "uint64") {
        Some(owned("uint64_t"))
    } else if str_eq(t, "int8") {
        Some(owned("int8_t"))
    } else if str_eq(t, "int16") {
        Some(owned("int16_t"))
    } else if str_eq(t, "int32") {
        Some(owned("int32_t"))
    } else if str_eq(t, "int64") {
        Some(owned("int64_t"))
    } else {
        None
    }
}

/// A spelling with its trailing `c` characters and then its surrounding
/// whitespace removed.
pub open spec fn spec_strip_trailing(t: Seq<char>, c: char) -> Seq<char> {
    text::trim(text::trim_end_char(t, c))
}

fn strip_trailing(t: &str, c: char) -> (r: String)
    ensures
        r@ == spec_strip_trailing(t@, c),
{
    let a = text::trim_end_char_str(t, c);
    trim_str(a.as_str())
}

pub open spec fn ends_with_char(t: Seq<char>, c: char) -> bool {
    t.len() > 0 && t.last() == c
}

/// The named and suffixed spellings of `normalize_type`, for an already
/// trimmed spelling that is neither a callback, a `const` value, nor an
/// array.
pub open spec fn spec_normalize_named_type(t: Seq<char>) -> Option<IrTypeV> {
    if t == "void"@ || spec_is_builtin_scalar(t) {
        Some(spec_primitive_type(t))
    } else if spec_alias_c_name(t) is Some {
        Some(mk_type(IrTypeKind::Primitive, t, spec_alias_c_name(t)->0, None))
    } else if t == "const char *"@ || t == "const char*"@ {
        Some(mk_type(IrTypeKind::CString, t, "const char*"@, None))
    } else if t == "char *"@ || t == "char*"@ {
        Some(mk_type(IrTypeKind::CString, t, "char*"@, None))
    } else if t == "NPCSTR"@ || t == "NPSTRC"@ || t == "NPCSTRC"@ {
        Some(mk_type(IrTypeKind::CString, t, "const char*"@, None))
    } else if t == "NPSTR"@ {
        Some(mk_type(IrTypeKind::CString, t, "char*"@, None))
    } else if t == "NPVOID"@ || t == "void *"@ || t == "void*"@ {
        Some(mk_type(IrTypeKind::ModelPointer, "void"@, "NPVOIDHandle*"@, Some("NPVOIDHandle"@)))
    } else if t == "std::string"@ || t == "const std::string &"@ || t == "const std::string&"@ || t
        == "std::string_view"@ {
        Some(mk_type(IrTypeKind::String, t, "char*"@, None))
    } else if ends_with_char(t, '*') && spec_is_supported_primitive(spec_strip_trailing(t, '*')) {
        Some(
            mk_type(
                IrTypeKind::Pointer,
                t,
                spec_canonical_primitive_c_type(spec_strip_trailing(t, '*')) + "*"@,
                None,
            ),
        )
    } else if ends_with_char(t, '&') && spec_is_supported_primitive(spec_strip_trailing(t, '&')) {
        Some(
            mk_type(
                IrTypeKind::Reference,
                t,
                spec_canonical_primitive_c_type(spec_strip_trailing(t, '&')) + "*"@,
                None,
            ),
        )
    } else if ends_with_char(t, '&') && spec_extern_c_struct_base_type(t) is Some {
        Some(
            mk_type(
                IrTypeKind::ExternStructReference,
                t,
                spec_extern_c_struct_base_type(t)->0 + "*"@,
                None,
            ),
        )
    } else if ends_with_char(t, '*') && spec_extern_c_struct_base_type(t) is Some {
        Some(
            mk_type(
                IrTypeKind::ExternStructPointer,
                t,
                spec_extern_c_struct_base_type(t)->0 + "*"@,
                None,
            ),
        )
    } else if ends_with_char(t, '&') && spec_raw_safe_model_handle_name(t) is Some {
        let h = spec_raw_safe_model_handle_name(t)->0;
        Some(mk_type(IrTypeKind::ModelReference, t, h + "*"@, Some(h)))
    } else if ends_with_char(t, '*') && spec_raw_safe_model_handle_name(t) is Some {
        let h = spec_raw_safe_model_handle_name(t)->0;
        Some(mk_type(IrTypeKind::ModelPointer, t, h + "*"@, Some(h)))
    } else if spec_raw_safe_model_handle_name(t) is Some {
        let h = spec_raw_safe_model_handle_name(t)->0;
        Some(mk_type(IrTypeKind::ModelValue, t, h + "*"@, Some(h)))
    } else {
        None
    }
}

fn handle_type(kind: IrTypeKind, cpp_type: &str, handle: String) -> (r: IrType)
    ensures
        r@ == mk_type(kind, cpp_type@, handle@ + "*"@, Some(handle@)),
{
    IrType {
        kind,
        cpp_type: owned(cpp_type),
        c_type: concat2(handle.as_str(), "*"),
        handle: Some(handle),
    }
}

fn normalize_named_type(t: &str) -> (r: Option<IrType>)
    ensures
        r matches Some(ty) ==> spec_normalize_named_type(t@) == Some(ty@),
        r is None ==> spec_normalize_named_type(t@) is None,
{
    if str_eq(t, "void") || is_builtin_scalar(t) {
        return Some(primitive_type(t));
    }
    if let Some(c_name) = alias_c_name(t) {
        return Some(alias_primitive_type(t, c_name.as_str()));
    }
    if str_eq(t, "const char *") || str_eq(t, "const char*") {
        return Some(mk_ir_type(IrTypeKind::CString, t, "const char*"));
    }
    if str_eq(t, "char *") || str_eq(t, "char*") {
        return Some(mk_ir_type(IrTypeKind::CString, t, "char*"));
    }
    if str_eq(t, "NPCSTR") || str_eq(t, "NPSTRC") || str_eq(t, "NPCSTRC") {
        return Some(mk_ir_type(IrTypeKind::CString, t, "const char*"));
    }
    if str_eq(t, "NPSTR") {
        return Some(mk_ir_type(IrTypeKind::CString, t, "char*"));
    }
    if str_eq(t, "NPVOID") || str_eq(t, "void *") || str_eq(t, "void*") {
        return Some(
            IrType {
                kind: IrTypeKind::ModelPointer,
                cpp_type: owned("void"),
                c_type: owned("NPVOIDHandle*"),
                handle: Some(owned("NPVOIDHandle")),
            },
        );
    }
    if str_eq(t, "std::string") || str_eq(t, "const std::string &") || str_eq(
        t,
        "const std::string&",
    ) || str_eq(t, "std::string_view") {
        return Some(mk_ir_type(IrTypeKind::String, t, "char*"));
    }
    let ends_star = text::ends_with_char(t, '*');
    let ends_amp = text::ends_with_char(t, '&');
    let star_base = strip_trailing(t, '*');
    if ends_star && is_supported_primitive(star_base.as_str()) {
        let c = canonical_primitive_c_type(star_base.as_str());
        return Some(IrType {
            kind: IrTypeKind::Pointer,
            cpp_type: owned(t),
            c_type: concat2(c.as_str(), "*"),
            handle: None,
        });
    }
    let amp_base = strip_trailing(t, '&');
    if ends_amp && is_supported_primitive(amp_base.as_str()) {
        let c = canonical_primitive_c_type(amp_base.as_str());
        return Some(IrType {
            kind: IrTypeKind::Reference,
            cpp_type: owned(t),
            c_type: concat2(c.as_str(), "*"),
            handle: None,
        });
    }
    let ext = extern_c_struct_base_type(t);
    if ends_amp && ext.is_some() {
        let base = ext.unwrap();
        return Some(IrType {
            kind: IrTypeKind::ExternStructReference,
            cpp_type: owned(t),
            c_type: concat2(base.as_str(), "*"),
            handle: None,
        });
    }
    if ends_star && ext.is_some() {
        let base = ext.unwrap();
        return Some(IrType {
            kind: IrTypeKind::ExternStructPointer,
            cpp_type: owned(t),
            c_type: concat2(base.as_str(), "*"),
            handle: None,
        });
    }
    match raw_safe_model_handle_name(t) {
        Some(h) => {
            if ends_amp {
                Some(handle_type(IrTypeKind::ModelReference, t, h))
            } else if ends_star {
                Some(handle_type(IrTypeKind::ModelPointer, t, h))
            } else {
                Some(handle_type(IrTypeKind::ModelValue, t, h))
            }
        },
        None => None,
    }
}

/// The array spellings of `normalize_type`, for an already trimmed
/// spelling.
pub open spec fn spec_normalize_array_type(t: Seq<char>) -> Option<IrTypeV> {
    if spec_is_char_array_type(t) {
        Some(mk_type(IrTypeKind::CString, t, "const char*"@, None))
    } else if spec_is_unsigned_char_array_type(t) {
        Some(mk_type(IrTypeKind::FixedByteArray, t, "uint8_t*"@, None))
    } else {
        match spec_parse_array_type(t) {
            Some((elem, _)) => if spec_is_supported_primitive(elem) {
                Some(
                    mk_type(
                        IrTypeKind::FixedArray,
                        t,
                        spec_canonical_primitive_c_type(elem) + "*"@,
                        None,
                    ),
                )
            } else {
                match spec_raw_safe_model_handle_name(elem) {
                    Some(h) => Some(mk_type(IrTypeKind::FixedModelArray, t, h + "**"@, Some(h))),
                    None => None,
                }
            },
            None => None,
        }
    }
}

fn normalize_array_type(t: &str) -> (r: Option<IrType>)
    ensures
        r matches Some(ty) ==> spec_normalize_array_type(t@) == Some(ty@),
        r is None ==> spec_normalize_array_type(t@) is None,
{
    if is_char_array_type(t) {
        return Some(mk_ir_type(IrTypeKind::CString, t, "const char*"));
    }
    if is_unsigned_char_array_type(t) {
        return Some(mk_ir_type(IrTypeKind::FixedByteArray, t, "uint8_t*"));
    }
    match parse_array_type(t) {
        Some((elem, _)) => {
            if is_supported_primitive(elem.as_str()) {
                let c = canonical_primitive_c_type(elem.as_str());
                Some(IrType {
                    kind: IrTypeKind::FixedArray,
                    cpp_type: owned(t),
                    c_type: concat2(c.as_str(), "*"),
                    handle: None,
                })
            } else {
                match raw_safe_model_handle_name(elem.as_str()) {
                    Some(h) => Some(IrType {
                        kind: IrTypeKind::FixedModelArray,
                        cpp_type: owned(t),
                        c_type: concat2(h.as_str(), "**"),
                        handle: Some(h),
                    }),
                    None => None,
                }
            }
        },
        None => None,
    }
}

/// How `normalize_type` classifies a C++ type spelling, given the names of
/// the known callback typedefs; `None` where the spelling is unsupported.
pub open spec fn spec_normalize_type(s: Seq<char>, callbacks: Seq<Seq<char>>) -> Option<IrTypeV>
    decreases s.len(),
{
    let t = text::trim(s);
    if callbacks.contains(t) {
        Some(mk_type(IrTypeKind::Callback, t, t, None))
    } else {
        let from_const = match text::strip_prefix(t, "const "@) {
            Some(stripped) => {
                let st = text::trim(stripped);
                if !ends_with_char(st, '*') && !ends_with_char(st, '&') {
                    proof {
                        lemma_trim_len(s);
                        lemma_trim_len(stripped);
                        reveal_strlit("const ");
                    }
                    match spec_normalize_type(st, callbacks) {
                        Some(ty) => Some(IrTypeV { cpp_type: t, ..ty }),
                        None => None,
                    }
                } else {
                    None
                }
            },
            None => None,
        };
        if from_const is Some {
            from_const
        } else if spec_normalize_array_type(t) is Some {
            spec_normalize_array_type(t)
        } else {
            spec_normalize_named_type(t)
        }
    }
}

/// The message of an unsupported type.
pub open spec fn unsupported_type_message(t: Seq<char>) -> Seq<char> {
    "unsupported C++ type in v1: "@ + t
}

/// Classifies a C++ type spelling for the C ABI.
pub fn normalize_type(cpp_type: &str, callback_names: &[String]) -> (r: Result<IrType, String>)
    ensures
        r matches Ok(ty) ==> spec_normalize_type(cpp_type@, text::views(callback_names@)) == Some(
            ty@,
        ),
        r matches Err(e) ==> spec_normalize_type(cpp_type@, text::views(callback_names@)) is None
            && e@ == unsupported_type_message(text::trim(cpp_type@)),
    decreases cpp_type@.len(),
{
    let t = trim_str(cpp_type);
    let ts = t.as_str();
    if contains_string(callback_names, ts) {
        return Ok(mk_ir_type(IrTypeKind::Callback, ts, ts));
    }
    if let Some(stripped) = text::strip_prefix_str(ts, "const ") {
        let st = trim_str(stripped.as_str());
        if !text::ends_with_char(st.as_str(), '*') && !text::ends_with_char(st.as_str(), '&') {
            proof {
                lemma_trim_len(cpp_type@);
                lemma_trim_len(stripped@);
                reveal_strlit("const ");
            }
            if let Ok(ty) = normalize_type(st.as_str(), callback_names) {
                return Ok(IrType { kind: ty.kind, cpp_type: t, c_type: ty.c_type, handle: ty.handle });
            }
        }
    }
    if let Some(ty) = normalize_array_type(ts) {
        return Ok(ty);
    }
    match normalize_named_type(ts) {
        Some(ty) => Ok(ty),
        None => Err(concat2("unsupported C++ type in v1: ", ts)),
    }
}


/// The shape of a spelling once a leading `const ` is dropped.
#[derive(PartialEq, Eq, Structural, Clone, Copy)]
pub enum TypeShape {
    Pointer,
    Reference,
    Value,
}

pub open spec fn spec_raw_type_shape(s: Seq<char>) -> TypeShape {
    let t = text::trim(text::trim_start_matches(text::trim(s), "const "@));
    if ends_with_char(t, '*') {
        TypeShape::Pointer
    } else if ends_with_char(t, '&') {
        TypeShape::Reference
    } else {
        TypeShape::Value
    }
}

pub fn raw_type_shape(cpp_type: &str) -> (r: TypeShape)
    ensures
        r == spec_raw_type_shape(cpp_type@),
{
    let a = trim_str(cpp_type);
    let b = text::trim_start_matches_str(a.as_str(), "const ");
    let t = trim_str(b.as_str());
    if text::ends_with_char(t.as_str(), '*') {
        TypeShape::Pointer
    } else if text::ends_with_char(t.as_str(), '&') {
        TypeShape::Reference
    } else {
        TypeShape::Value
    }
}

pub open spec fn is_model_kind(k: IrTypeKind) -> bool {
    k == IrTypeKind::ModelReference || k == IrTypeKind::ModelPointer || k == IrTypeKind::ModelValue
}

/// The kinds whose canonical spelling wins over a model-looking alias.
pub open spec fn is_canonical_preferred_kind(k: IrTypeKind) -> bool {
    k == IrTypeKind::ExternStructReference || k == IrTypeKind::ExternStructPointer || k
        == IrTypeKind::Primitive || k == IrTypeKind::Reference || k == IrTypeKind::Pointer || k
        == IrTypeKind::String || k == IrTypeKind::CString || k == IrTypeKind::FixedByteArray
}

/// How `normalize_type_with_canonical` classifies a spelling together with
/// its canonical spelling; `Err` holds the message.
pub open spec fn spec_normalize_type_with_canonical(
    cpp_type: Seq<char>,
    canonical_type: Seq<char>,
    callbacks: Seq<Seq<char>>,
) -> Result<IrTypeV, Seq<char>> {
    let t = text::trim(cpp_type);
    let ct = text::trim(canonical_type);
    match spec_normalize_type(t, callbacks) {
        Some(ty) => if is_model_kind(ty.kind) && ct != t {
            match spec_normalize_type(ct, callbacks) {
                Some(cty) => if is_canonical_preferred_kind(cty.kind) {
                    Ok(IrTypeV { cpp_type: t, ..cty })
                } else if is_model_kind(cty.kind) {
                    Ok(IrTypeV { cpp_type: ct, ..ty })
                } else {
                    Ok(ty)
                },
                None => Ok(ty),
            }
        } else {
            Ok(ty)
        },
        None => if ct != t {
            if spec_raw_type_shape(t) == spec_raw_type_shape(ct) && spec_normalize_type(
                ct,
                callbacks,
            ) is Some {
                Ok(IrTypeV { cpp_type: t, ..spec_normalize_type(ct, callbacks)->0 })
            } else {
                Err("unsupported C++ type in v1: "@ + t + " (canonical: "@ + ct + ")"@)
            }
        } else {
            Err(unsupported_type_message(t))
        },
    }
}

pub open spec fn result_view(r: Result<IrType, String>) -> Result<IrTypeV, Seq<char>> {
    match r {
        Ok(t) => Ok(t@),
        Err(e) => Err(e@),
    }
}

/// Classifies a type spelling, falling back to (or refining with) the
/// canonical spelling that clang reports for it.
pub fn normalize_type_with_canonical(
    _config: &Config,
    cpp_type: &str,
    canonical_type: &str,
    callback_names: &[String],
) -> (r: Result<IrType, String>)
    ensures
        result_view(r) == spec_normalize_type_with_canonical(
            cpp_type@,
            canonical_type@,
            text::views(callback_names@),
        ),
{
    let t = trim_str(cpp_type);
    let ct = trim_str(canonical_type);
    let same = str_eq(ct.as_str(), t.as_str());
    if let Ok(ty) = normalize_type(t.as_str(), callback_names) {
        let model = ty.kind == IrTypeKind::ModelReference || ty.kind == IrTypeKind::ModelPointer
            || ty.kind == IrTypeKind::ModelValue;
        if model && !same {
            if let Ok(cty) = normalize_type(ct.as_str(), callback_names) {
                let k = cty.kind;
                if k == IrTypeKind::ExternStructReference || k == IrTypeKind::ExternStructPointer
                    || k == IrTypeKind::Primitive || k == IrTypeKind::Reference || k
                    == IrTypeKind::Pointer || k == IrTypeKind::String || k == IrTypeKind::CString
                    || k == IrTypeKind::FixedByteArray {
                    return Ok(IrType { kind: cty.kind, cpp_type: t, c_type: cty.c_type, handle: cty.handle });
                }
                if k == IrTypeKind::ModelValue || k == IrTypeKind::ModelReference || k
                    == IrTypeKind::ModelPointer {
                    return Ok(IrType { kind: ty.kind, cpp_type: ct, c_type: ty.c_type, handle: ty.handle });
                }
            }
        }
        return Ok(ty);
    }
    if !same {
        if raw_type_shape(t.as_str()) == raw_type_shape(ct.as_str()) {
            if let Ok(ty) = normalize_type(ct.as_str(), callback_names) {
                return Ok(IrType { kind: ty.kind, cpp_type: t, c_type: ty.c_type, handle: ty.handle });
            }
        }
        return Err(text::concat5("unsupported C++ type in v1: ", t.as_str(), " (canonical: ", ct.as_str(), ")"));
    }
    Err(concat2("unsupported C++ type in v1: ", t.as_str()))
}

/// Whether a model type is one of the abstract classes.
pub open spec fn spec_is_abstract_model_type(cpp_type: Seq<char>, abstract_types: Seq<Seq<char>>) -> bool {
    let base = spec_base_model_cpp_type(cpp_type);
    base.len() > 0 && abstract_types.contains(base)
}

pub fn is_abstract_model_type(cpp_type: &str, abstract_types: &[String]) -> (r: bool)
    ensures
        r == spec_is_abstract_model_type(cpp_type@, text::views(abstract_types@)),
{
    let base = base_model_cpp_type(cpp_type);
    base.unicode_len() > 0 && contains_string(abstract_types, base.as_str())
}

/// How a return type is classified: a model reference or pointer to a
/// concrete class is returned as an owned copy (a model view).
pub open spec fn spec_normalize_return_type_with_canonical(
    cpp_type: Seq<char>,
    canonical_type: Seq<char>,
    abstract_types: Seq<Seq<char>>,
    callbacks: Seq<Seq<char>>,
) -> Result<IrTypeV, Seq<char>> {
    match spec_normalize_type_with_canonical(cpp_type, canonical_type, callbacks) {
        Ok(ty) => if (ty.kind == IrTypeKind::ModelReference || ty.kind == IrTypeKind::ModelPointer)
            && !spec_is_abstract_model_type(ty.cpp_type, abstract_types) && spec_base_model_cpp_type(
            ty.cpp_type,
        ) != "void"@ {
            Ok(IrTypeV { kind: IrTypeKind::ModelView, ..ty })
        } else {
            Ok(ty)
        },
        Err(e) => Err(e),
    }
}

pub fn normalize_return_type_with_canonical(
    config: &Config,
    cpp_type: &str,
    canonical_type: &str,
    abstract_types: &[String],
    callback_names: &[String],
) -> (r: Result<IrType, String>)
    ensures
        result_view(r) == spec_normalize_return_type_with_canonical(
            cpp_type@,
            canonical_type@,
            text::views(abstract_types@),
            text::views(callback_names@),
        ),
{
    let ty = normalize_type_with_canonical(config, cpp_type, canonical_type, callback_names)?;
    if (ty.kind == IrTypeKind::ModelReference || ty.kind == IrTypeKind::ModelPointer)
        && !is_abstract_model_type(ty.cpp_type.as_str(), abstract_types) && !str_eq(
        base_model_cpp_type(ty.cpp_type.as_str()).as_str(),
        "void",
    ) {
        Ok(IrType { kind: IrTypeKind::ModelView, cpp_type: ty.cpp_type, c_type: ty.c_type, handle: ty.handle })
    } else {
        Ok(ty)
    }
}

/// A by-value spelling of a class type that cannot be carried safely.
pub open spec fn spec_is_raw_unsafe_by_value_object_candidate(s: Seq<char>) -> bool {
    let t = text::trim(s);
    if t.len() == 0 || t == "void"@ || ends_with_char(t, '&') || ends_with_char(t, '*') {
        false
    } else {
        let base = spec_base_model_cpp_type(t);
        base.len() > 0 && !base.contains('<') && !text::starts_with(base, "std::"@)
            && !spec_is_supported_primitive(base)
    }
}

pub fn is_raw_unsafe_by_value_object_candidate(cpp_type: &str) -> (r: bool)
    ensures
        r == spec_is_raw_unsafe_by_value_object_candidate(cpp_type@),
{
    let t = trim_str(cpp_type);
    let ts = t.as_str();
    if t.unicode_len() == 0 || str_eq(ts, "void") || text::ends_with_char(ts, '&')
        || text::ends_with_char(ts, '*') {
        return false;
    }
    let base = base_model_cpp_type(ts);
    let b = base.as_str();
    base.unicode_len() > 0 && !text::contains_char(b, '<') && !text::has_prefix(b, "std::")
        && !is_supported_primitive(b)
}

/// Whether a parameter type is an unsupported by-value object.
pub open spec fn spec_is_raw_unsafe_by_value_param_type(
    display: Seq<char>,
    canonical: Seq<char>,
    callbacks: Seq<Seq<char>>,
) -> bool {
    let d = text::trim(display);
    let c = text::trim(canonical);
    if spec_normalize_type_with_canonical(d, c, callbacks) is Ok {
        false
    } else {
        (d.len() > 0 && spec_is_raw_unsafe_by_value_object_candidate(d)) || (c.len() > 0
            && spec_is_raw_unsafe_by_value_object_candidate(c))
    }
}

pub fn is_raw_unsafe_by_value_param_type(
    display: &str,
    canonical: &str,
    callback_names: &[String],
) -> (r: bool)
    ensures
        r == spec_is_raw_unsafe_by_value_param_type(display@, canonical@, text::views(callback_names@)),
{
    let d = trim_str(display);
    let c = trim_str(canonical);
    let config = Config::default();
    if normalize_type_with_canonical(&config, d.as_str(), c.as_str(), callback_names).is_ok() {
        return false;
    }
    (d.unicode_len() > 0 && is_raw_unsafe_by_value_object_candidate(d.as_str())) || (
    c.unicode_len() > 0 && is_raw_unsafe_by_value_object_candidate(c.as_str()))
}

/// Whether a return type is an unsupported by-value object.
pub open spec fn spec_is_raw_unsafe_by_value_return_type(
    display: Seq<char>,
    canonical: Seq<char>,
    callbacks: Seq<Seq<char>>,
) -> bool {
    let cd = text::trim(canonical) != text::trim(display);
    if spec_normalize_type_with_canonical(display, canonical, callbacks) is Ok {
        false
    } else if spec_normalize_type(display, callbacks) is Some {
        false
    } else if text::trim(canonical).len() > 0 && cd && spec_normalize_type(canonical, callbacks) is Some {
        false
    } else {
        spec_is_raw_unsafe_by_value_object_candidate(display) || (text::trim(canonical).len() > 0
            && cd && spec_is_raw_unsafe_by_value_object_candidate(canonical))
    }
}

pub fn is_raw_unsafe_by_value_return_type(
    display: &str,
    canonical: &str,
    callback_names: &[String],
) -> (r: bool)
    ensures
        r == spec_is_raw_unsafe_by_value_return_type(display@, canonical@, text::views(callback_names@)),
{
    let config = Config::default();
    if normalize_type_with_canonical(&config, display, canonical, callback_names).is_ok() {
        return false;
    }
    if normalize_type(display, callback_names).is_ok() {
        return false;
    }
    let tc = trim_str(canonical);
    let td = trim_str(display);
    let cd = !str_eq(tc.as_str(), td.as_str());
    if tc.unicode_len() > 0 && cd && normalize_type(canonical, callback_names).is_ok() {
        return false;
    }
    is_raw_unsafe_by_value_object_candidate(display) || (tc.unicode_len() > 0 && cd
        && is_raw_unsafe_by_value_object_candidate(canonical))
}

/// `display`, or `display (canonical)` where the canonical spelling differs.
pub open spec fn spec_format_type_for_reason(display: Seq<char>, canonical: Seq<char>) -> Seq<char> {
    if canonical.len() == 0 || canonical == display {
        display
    } else {
        display + " ("@ + canonical + ")"@
    }
}

pub fn format_type_for_reason(display: &str, canonical: &str) -> (r: String)
    ensures
        r@ == spec_format_type_for_reason(display@, canonical@),
{
    if canonical.unicode_len() == 0 || str_eq(canonical, display) {
        owned(display)
    } else {
        text::concat4(display, " (", canonical, ")")
    }
}

/// A parameter whose function pointer type is a known callback typedef.
pub open spec fn spec_is_named_callback_param(param: CppParam, callbacks: Seq<Seq<char>>) -> bool {
    match param.callback_typedef {
        Some(name) => callbacks.contains(name@),
        None => false,
    }
}

pub fn is_named_callback_param(param: &CppParam, callback_names: &[String]) -> (r: bool)
    ensures
        r == spec_is_named_callback_param(*param, text::views(callback_names@)),
{
    match &param.callback_typedef {
        Some(name) => contains_string(callback_names, name.as_str()),
        None => false,
    }
}

/// The complaints about raw function pointer parameters, in order.
pub open spec fn spec_function_pointer_param_issues(
    params: Seq<CppParam>,
    callbacks: Seq<Seq<char>>,
) -> Seq<Seq<char>>
    decreases params.len(),
{
    if params.len() == 0 {
        Seq::empty()
    } else {
        let init = spec_function_pointer_param_issues(params.drop_last(), callbacks);
        let p = params.last();
        if p.is_function_pointer && !spec_is_named_callback_param(p, callbacks) {
            init.push(
                "parameter `"@ + p.name@ + "` type `"@ + spec_format_type_for_reason(
                    p.ty@,
                    p.canonical_ty@,
                ) + "` uses a function pointer"@,
            )
        } else {
            init
        }
    }
}

/// The complaint about a function pointer return type, if there is one.
pub open spec fn spec_function_pointer_return_issue(
    return_type: Option<(Seq<char>, Seq<char>, bool)>,
) -> Seq<Seq<char>> {
    match return_type {
        Some((d, c, true)) => seq![
            "return type `"@ + spec_format_type_for_reason(d, c) + "` uses a function pointer"@,
        ],
        _ => Seq::empty(),
    }
}

/// Why a declaration that uses raw function pointers is skipped, if it is.
pub open spec fn spec_function_pointer_reason(
    return_type: Option<(Seq<char>, Seq<char>, bool)>,
    params: Seq<CppParam>,
    callbacks: Seq<Seq<char>>,
) -> Option<Seq<char>> {
    let issues = spec_function_pointer_return_issue(return_type) + spec_function_pointer_param_issues(
        params,
        callbacks,
    );
    if issues.len() == 0 {
        None
    } else {
        Some(text::join(issues, "; "@))
    }
}

pub open spec fn opt_triple_view(o: Option<(&str, &str, bool)>) -> Option<(Seq<char>, Seq<char>, bool)> {
    match o {
        Some((d, c, f)) => Some((d@, c@, f)),
        None => None,
    }
}

pub fn function_pointer_reason(
    return_type: Option<(&str, &str, bool)>,
    params: &[CppParam],
    callback_names: &[String],
) -> (r: Option<String>)
    ensures
        opt_view(r) == spec_function_pointer_reason(
            opt_triple_view(return_type),
            params@,
            text::views(callback_names@),
        ),
{
    let ghost cbs = text::views(callback_names@);
    let mut issues: Vec<String> = Vec::new();
    if let Some((display, canonical, true)) = return_type {
        let f = format_type_for_reason(display, canonical);
        issues.push(text::concat3("return type `", f.as_str(), "` uses a function pointer"));
    }
    let ghost ret = text::views(issues@);
    assert(ret =~= spec_function_pointer_return_issue(opt_triple_view(return_type)));
    let mut i: usize = 0;
    assert(params@.take(0) =~= Seq::<CppParam>::empty());
    assert(text::views(issues@) =~= ret + spec_function_pointer_param_issues(params@.take(0), cbs));
    while i < params.len()
        invariant
            i <= params.len(),
            cbs == text::views(callback_names@),
            text::views(issues@) == ret + spec_function_pointer_param_issues(params@.take(i as int), cbs),
        decreases params.len() - i,
    {
        let param = &params[i];
        let ghost before = text::views(issues@);
        let ghost done = spec_function_pointer_param_issues(params@.take(i as int), cbs);
        proof {
            assert(params@.take(i + 1).drop_last() =~= params@.take(i as int));
            assert(params@.take(i + 1).last() == params@[i as int]);
        }
        let flagged = param.is_function_pointer && !is_named_callback_param(param, callback_names);
        if flagged {
            let f = format_type_for_reason(param.ty.as_str(), param.canonical_ty.as_str());
            let issue = text::concat5("parameter `", param.name.as_str(), "` type `", f.as_str(), "` uses a function pointer");
            issues.push(issue);
            proof {
                assert(text::views(issues@) =~= before.push(issue@));
                assert((ret + done).push(issue@) =~= ret + done.push(issue@));
            }
        }
        i += 1;
    }
    assert(params@.take(params.len() as int) =~= params@);
    if issues.len() == 0 {
        None
    } else {
        Some(text::join_strings(&issues, "; "))
    }
}

/// The complaints about by-value object parameters, in order.
pub open spec fn spec_raw_unsafe_param_issues(
    params: Seq<CppParam>,
    callbacks: Seq<Seq<char>>,
) -> Seq<Seq<char>>
    decreases params.len(),
{
    if params.len() == 0 {
        Seq::empty()
    } else {
        let init = spec_raw_unsafe_param_issues(params.drop_last(), callbacks);
        let p = params.last();
        if spec_is_raw_unsafe_by_value_param_type(p.ty@, p.canonical_ty@, callbacks) {
            init.push(
                "parameter `"@ + p.name@ + "` type `"@ + spec_format_type_for_reason(
                    p.ty@,
                    p.canonical_ty@,
                ) + "` uses a raw-unsafe by-value object type"@,
            )
        } else {
            init
        }
    }
}

/// The complaint about a by-value object return type, if there is one.
pub open spec fn spec_raw_unsafe_return_issue(
    return_type: Option<(Seq<char>, Seq<char>)>,
    callbacks: Seq<Seq<char>>,
) -> Seq<Seq<char>> {
    match return_type {
        Some((d, c)) => if spec_is_raw_unsafe_by_value_return_type(d, c, callbacks) {
            seq![
                "return type `"@ + spec_format_type_for_reason(d, c)
                    + "` uses a raw-unsafe by-value object type"@,
            ]
        } else {
            Seq::empty()
        },
        None => Seq::empty(),
    }
}

/// Why a declaration that passes class objects by value is skipped, if it
/// is.
pub open spec fn spec_raw_unsafe_by_value_reason(
    return_type: Option<(Seq<char>, Seq<char>)>,
    params: Seq<CppParam>,
    callbacks: Seq<Seq<char>>,
) -> Option<Seq<char>> {
    let issues = spec_raw_unsafe_return_issue(return_type, callbacks) + spec_raw_unsafe_param_issues(
        params,
        callbacks,
    );
    if issues.len() == 0 {
        None
    } else {
        Some(text::join(issues, "; "@))
    }
}

pub open spec fn opt_pair_view(o: Option<(&str, &str)>) -> Option<(Seq<char>, Seq<char>)> {
    match o {
        Some((d, c)) => Some((d@, c@)),
        None => None,
    }
}

pub fn raw_unsafe_by_value_reason(
    return_type: Option<(&str, &str)>,
    params: &[CppParam],
    callback_names: &[String],
) -> (r: Option<String>)
    ensures
        opt_view(r) == spec_raw_unsafe_by_value_reason(
            opt_pair_view(return_type),
            params@,
            text::views(callback_names@),
        ),
{
    let ghost cbs = text::views(callback_names@);
    let mut issues: Vec<String> = Vec::new();
    if let Some((display, canonical)) = return_type {
        if is_raw_unsafe_by_value_return_type(display, canonical, callback_names) {
            let f = format_type_for_reason(display, canonical);
            issues.push(text::concat3("return type `", f.as_str(), "` uses a raw-unsafe by-value object type"));
        }
    }
    let ghost ret = text::views(issues@);
    assert(ret =~= spec_raw_unsafe_return_issue(opt_pair_view(return_type), cbs));
    let mut i: usize = 0;
    assert(params@.take(0) =~= Seq::<CppParam>::empty());
    assert(text::views(issues@) =~= ret + spec_raw_unsafe_param_issues(params@.take(0), cbs));
    while i < params.len()
        invariant
            i <= params.len(),
            cbs == text::views(callback_names@),
            text::views(issues@) == ret + spec_raw_unsafe_param_issues(params@.take(i as int), cbs),
        decreases params.len() - i,
    {
        let param = &params[i];
        let ghost before = text::views(issues@);
        let ghost done = spec_raw_unsafe_param_issues(params@.take(i as int), cbs);
        proof {
            assert(params@.take(i + 1).drop_last() =~= params@.take(i as int));
            assert(params@.take(i + 1).last() == params@[i as int]);
        }
        if is_raw_unsafe_by_value_param_type(param.ty.as_str(), param.canonical_ty.as_str(), callback_names) {
            let f = format_type_for_reason(param.ty.as_str(), param.canonical_ty.as_str());
            let issue = text::concat5("parameter `", param.name.as_str(), "` type `", f.as_str(), "` uses a raw-unsafe by-value object type");
            issues.push(issue);
            proof {
                assert(text::views(issues@) =~= before.push(issue@));
                assert((ret + done).push(issue@) =~= ret + done.push(issue@));
            }
        }
        i += 1;
    }
    assert(params@.take(params.len() as int) =~= params@);
    if issues.len() == 0 {
        None
    } else {
        Some(text::join_strings(&issues, "; "))
    }
}

/// Operators are not wrapped.
pub open spec fn spec_is_operator_name(name: Seq<char>) -> bool {
    text::starts_with(text::trim(name), "operator"@)
}

pub fn is_operator_name(name: &str) -> (r: bool)
    ensures
        r == spec_is_operator_name(name@),
{
    let t = trim_str(name);
    text::has_prefix(t.as_str(), "operator")
}

/// The Go keywords, which a parameter name must not be.
pub open spec fn spec_is_go_keyword(name: Seq<char>) -> bool {
    name == "break"@ || name == "case"@ || name == "chan"@ || name == "const"@ || name
        == "continue"@ || name == "default"@ || name == "defer"@ || name == "else"@ || name
        == "fallthrough"@ || name == "for"@ || name == "func"@ || name == "go"@ || name
        == "goto"@ || name == "if"@ || name == "import"@ || name == "interface"@ || name
        == "map"@ || name == "package"@ || name == "range"@ || name == "return"@ || name
        == "select"@ || name == "struct"@ || name == "switch"@ || name == "type"@ || name
        == "var"@
}

pub open spec fn spec_sanitize_go_param_name(name: Seq<char>) -> Seq<char> {
    if spec_is_go_keyword(name) {
        name + "_"@
    } else {
        name
    }
}

pub fn sanitize_go_param_name(name: &str) -> (r: String)
    ensures
        r@ == spec_sanitize_go_param_name(name@),
{
    let kw = str_eq(name, "break") || str_eq(name, "case") || str_eq(name, "chan") || str_eq(
        name,
        "const",
    ) || str_eq(name, "continue") || str_eq(name, "default") || str_eq(name, "defer") || str_eq(
        name,
        "else",
    ) || str_eq(name, "fallthrough") || str_eq(name, "for") || str_eq(name, "func") || str_eq(
        name,
        "go",
    ) || str_eq(name, "goto") || str_eq(name, "if") || str_eq(name, "import") || str_eq(
        name,
        "interface",
    ) || str_eq(name, "map") || str_eq(name, "package") || str_eq(name, "range") || str_eq(
        name,
        "return",
    ) || str_eq(name, "select") || str_eq(name, "struct") || str_eq(name, "switch") || str_eq(
        name,
        "type",
    ) || str_eq(name, "var");
    if kw {
        concat2(name, "_")
    } else {
        owned(name)
    }
}


// ---------------------------------------------------------------------------
// Views of the declaration IR
// ---------------------------------------------------------------------------

/// The mathematical value of an `IrParam`.
pub struct IrParamV {
    pub name: Seq<char>,
    pub ty: IrTypeV,
}

impl View for IrParam {
    type V = IrParamV;

    open spec fn view(&self) -> IrParamV {
        IrParamV { name: self.name@, ty: self.ty@ }
    }
}

pub open spec fn param_views(s: Seq<IrParam>) -> Seq<IrParamV> {
    s.map_values(|p: IrParam| p@)
}

/// The mathematical value of an `IrFunction`; a field accessor is the pair
/// of the field's name and the access.
pub struct IrFunctionV {
    pub name: Seq<char>,
    pub kind: IrFunctionKind,
    pub cpp_name: Seq<char>,
    pub method_of: Option<Seq<char>>,
    pub owner_cpp_type: Option<Seq<char>>,
    pub is_const: Option<bool>,
    pub field_accessor: Option<(Seq<char>, FieldAccessKind)>,
    pub returns: IrTypeV,
    pub params: Seq<IrParamV>,
}

pub open spec fn accessor_view(a: Option<IrFieldAccessor>) -> Option<(Seq<char>, FieldAccessKind)> {
    match a {
        Some(x) => Some((x.field_name@, x.access)),
        None => None,
    }
}

impl View for IrFunction {
    type V = IrFunctionV;

    open spec fn view(&self) -> IrFunctionV {
        IrFunctionV {
            name: self.name@,
            kind: self.kind,
            cpp_name: self.cpp_name@,
            method_of: opt_view(self.method_of),
            owner_cpp_type: opt_view(self.owner_cpp_type),
            is_const: self.is_const,
            field_accessor: accessor_view(self.field_accessor),
            returns: self.returns@,
            params: param_views(self.params@),
        }
    }
}

pub open spec fn function_views(s: Seq<IrFunction>) -> Seq<IrFunctionV> {
    s.map_values(|f: IrFunction| f@)
}

/// A skipped declaration as the pair of its C++ name and the reason.
impl View for SkippedDeclaration {
    type V = (Seq<char>, Seq<char>);

    open spec fn view(&self) -> (Seq<char>, Seq<char>) {
        (self.cpp_name@, self.reason@)
    }
}

pub open spec fn skipped_views(s: Seq<SkippedDeclaration>) -> Seq<(Seq<char>, Seq<char>)> {
    s.map_values(|d: SkippedDeclaration| d@)
}

/// An opaque handle type as the pair of its name and its C++ type.
impl View for OpaqueType {
    type V = (Seq<char>, Seq<char>);

    open spec fn view(&self) -> (Seq<char>, Seq<char>) {
        (self.name@, self.cpp_type@)
    }
}

pub open spec fn opaque_views(s: Seq<OpaqueType>) -> Seq<(Seq<char>, Seq<char>)> {
    s.map_values(|o: OpaqueType| o@)
}

// ---------------------------------------------------------------------------
// Names and symbols
// ---------------------------------------------------------------------------

/// `ns1::ns2::leaf`, or the leaf alone outside any namespace.
pub open spec fn spec_cpp_qualified(namespace: Seq<Seq<char>>, leaf: Seq<char>) -> Seq<char> {
    if namespace.len() == 0 {
        leaf
    } else {
        text::join(namespace, "::"@) + "::"@ + leaf
    }
}

pub fn cpp_qualified(namespace: &[String], leaf: &str) -> (r: String)
    ensures
        r@ == spec_cpp_qualified(text::views(namespace@), leaf@),
{
    if namespace.len() == 0 {
        owned(leaf)
    } else {
        let j = text::join_strings(namespace, "::");
        text::concat3(j.as_str(), "::", leaf)
    }
}

/// The namespace parts and the leaf run together, as handle and enum names
/// spell them.
pub open spec fn spec_flatten_cpp_name(namespace: Seq<Seq<char>>, leaf: Seq<char>) -> Seq<char> {
    if namespace.len() == 0 {
        leaf
    } else {
        text::join(namespace, Seq::empty()) + leaf
    }
}

pub fn flatten_cpp_name(namespace: &[String], leaf: &str) -> (r: String)
    ensures
        r@ == spec_flatten_cpp_name(text::views(namespace@), leaf@),
{
    if namespace.len() == 0 {
        owned(leaf)
    } else {
        let j = text::join_strings(namespace, "");
        proof {
            reveal_strlit("");
            assert(""@ =~= Seq::<char>::empty());
        }
        concat2(j.as_str(), leaf)
    }
}

/// One part of a wrapper symbol: kept as written under the `preserve`
/// naming style, lowercased under any other.
pub open spec fn spec_format_symbol_part(style: Seq<char>, value: Seq<char>) -> Seq<char> {
    if style == "preserve"@ {
        value
    } else {
        text::lower_str(value)
    }
}

pub fn format_symbol_part(config: &Config, value: &str) -> (r: String)
    ensures
        r@ == spec_format_symbol_part(config.naming.style@, value@),
{
    if str_eq(config.naming.style.as_str(), "preserve") {
        owned(value)
    } else {
        text::to_lowercase(value)
    }
}

/// The parts of a wrapper symbol: the prefix, the namespace, the owner
/// where there is one, and the tail.
pub open spec fn spec_symbol_parts(
    config: Config,
    namespace: Seq<Seq<char>>,
    owner: Seq<char>,
    tail: Seq<char>,
) -> Seq<Seq<char>> {
    let style = config.naming.style@;
    seq![config.naming.prefix@] + namespace.map_values(|p: Seq<char>| spec_format_symbol_part(style, p))
        + (if owner.len() > 0 {
        seq![spec_format_symbol_part(style, owner)]
    } else {
        Seq::empty()
    }) + seq![spec_format_symbol_part(style, tail)]
}

/// The wrapper symbol: its parts joined by `_`.
pub open spec fn spec_symbol_name(
    config: Config,
    namespace: Seq<Seq<char>>,
    owner: Seq<char>,
    tail: Seq<char>,
) -> Seq<char> {
    text::join(spec_symbol_parts(config, namespace, owner, tail), "_"@)
}

pub fn symbol_name(config: &Config, namespace: &[String], owner: &str, tail: &str) -> (r: String)
    ensures
        r@ == spec_symbol_name(*config, text::views(namespace@), owner@, tail@),
{
    let ghost style = config.naming.style@;
    let ghost ns = text::views(namespace@);
    let mut parts: Vec<String> = Vec::new();
    parts.push(config.naming.prefix.clone());
    let mut i: usize = 0;
    assert(ns.take(0).map_values(|p: Seq<char>| spec_format_symbol_part(style, p)) =~= Seq::<
        Seq<char>,
    >::empty());
    while i < namespace.len()
        invariant
            i <= namespace.len(),
            ns == text::views(namespace@),
            style == config.naming.style@,
            text::views(parts@) == seq![config.naming.prefix@] + ns.take(i as int).map_values(
                |p: Seq<char>| spec_format_symbol_part(style, p),
            ),
        decreases namespace.len() - i,
    {
        let part = format_symbol_part(config, namespace[i].as_str());
        let ghost before = text::views(parts@);
        parts.push(part);
        proof {
            assert(text::views(parts@) =~= before.push(part@));
            assert(ns.take(i + 1).map_values(|p: Seq<char>| spec_format_symbol_part(style, p))
                =~= ns.take(i as int).map_values(|p: Seq<char>| spec_format_symbol_part(style, p)).push(
                spec_format_symbol_part(style, ns[i as int]),
            ));
        }
        i += 1;
    }
    assert(ns.take(namespace.len() as int) =~= ns);
    if !owner.is_empty() {
        let part = format_symbol_part(config, owner);
        let ghost before = text::views(parts@);
        parts.push(part);
        assert(text::views(parts@) =~= before.push(part@));
    }
    let part = format_symbol_part(config, tail);
    let ghost before = text::views(parts@);
    parts.push(part);
    assert(text::views(parts@) =~= before.push(part@));
    assert(text::views(parts@) =~= spec_symbol_parts(*config, ns, owner@, tail@));
    text::join_strings(&parts, "_")
}

// ---------------------------------------------------------------------------
// Folds that stop at the first error
// ---------------------------------------------------------------------------

/// Maps each item, stopping at the first error, as an iterator of
/// `Result`s collected into a `Result<Vec<_>>` does.
pub open spec fn fold_results<A, B>(items: Seq<A>, f: spec_fn(A) -> Result<B, Seq<char>>) -> Result<
    Seq<B>,
    Seq<char>,
>
    decreases items.len(),
{
    if items.len() == 0 {
        Ok(Seq::empty())
    } else {
        match fold_results(items.drop_last(), f) {
            Ok(done) => match f(items.last()) {
                Ok(b) => Ok(done.push(b)),
                Err(e) => Err(e),
            },
            Err(e) => Err(e),
        }
    }
}

/// Once a prefix fails, the whole fold fails with the same error.
pub proof fn lemma_fold_results_err<A, B>(
    items: Seq<A>,
    f: spec_fn(A) -> Result<B, Seq<char>>,
    k: int,
)
    requires
        0 <= k <= items.len(),
        fold_results(items.take(k), f) is Err,
    ensures
        fold_results(items, f) == fold_results(items.take(k), f),
    decreases items.len(),
{
    if k == items.len() {
        assert(items.take(k) =~= items);
    } else {
        assert(items.drop_last().take(k) =~= items.take(k));
        lemma_fold_results_err(items.drop_last(), f, k);
    }
}

// ---------------------------------------------------------------------------
// Parameters, enums and callbacks
// ---------------------------------------------------------------------------

/// How one parameter is normalized.
pub open spec fn spec_normalize_param(param: CppParam, callbacks: Seq<Seq<char>>) -> Result<
    IrParamV,
    Seq<char>,
> {
    match spec_normalize_type_with_canonical(param.ty@, param.canonical_ty@, callbacks) {
        Ok(t) => Ok(IrParamV { name: spec_sanitize_go_param_name(param.name@), ty: t }),
        Err(e) => Err(e),
    }
}

pub open spec fn param_step(callbacks: Seq<Seq<char>>) -> spec_fn(CppParam) -> Result<
    IrParamV,
    Seq<char>,
> {
    |p: CppParam| spec_normalize_param(p, callbacks)
}

/// How a parameter list is normalized: the first parameter that fails
/// fails the list.
pub open spec fn spec_normalize_params(params: Seq<CppParam>, callbacks: Seq<Seq<char>>) -> Result<
    Seq<IrParamV>,
    Seq<char>,
> {
    fold_results(params, param_step(callbacks))
}

pub open spec fn params_result_view(r: Result<Vec<IrParam>, String>) -> Result<
    Seq<IrParamV>,
    Seq<char>,
> {
    match r {
        Ok(v) => Ok(param_views(v@)),
        Err(e) => Err(e@),
    }
}

pub fn normalize_param(config: &Config, param: &CppParam, callback_names: &[String]) -> (r: Result<
    IrParam,
    String,
>)
    ensures
        match r {
            Ok(p) => spec_normalize_param(*param, text::views(callback_names@)) == Ok::<
                IrParamV,
                Seq<char>,
            >(p@),
            Err(e) => spec_normalize_param(*param, text::views(callback_names@)) == Err::<
                IrParamV,
                Seq<char>,
            >(e@),
        },
{
    let ty = normalize_type_with_canonical(
        config,
        param.ty.as_str(),
        param.canonical_ty.as_str(),
        callback_names,
    )?;
    Ok(IrParam { name: sanitize_go_param_name(param.name.as_str()), ty })
}

pub fn normalize_params(config: &Config, params: &[CppParam], callback_names: &[String]) -> (r:
    Result<Vec<IrParam>, String>)
    ensures
        params_result_view(r) == spec_normalize_params(params@, text::views(callback_names@)),
{
    let ghost cbs = text::views(callback_names@);
    let ghost f = param_step(cbs);
    let mut out: Vec<IrParam> = Vec::new();
    let mut i: usize = 0;
    assert(params@.take(0) =~= Seq::<CppParam>::empty());
    assert(param_views(out@) =~= Seq::<IrParamV>::empty());
    while i < params.len()
        invariant
            i <= params.len(),
            cbs == text::views(callback_names@),
            f == param_step(cbs),
            fold_results(params@.take(i as int), f) == Ok::<Seq<IrParamV>, Seq<char>>(
                param_views(out@),
            ),
        decreases params.len() - i,
    {
        assert(params@.take(i + 1).drop_last() =~= params@.take(i as int));
        assert(params@.take(i + 1).last() == params@[i as int]);
        match normalize_param(config, &params[i], callback_names) {
            Ok(p) => {
                let ghost before = param_views(out@);
                out.push(p);
                assert(param_views(out@) =~= before.push(p@));
            },
            Err(e) => {
                proof {
                    lemma_fold_results_err(params@, f, i + 1);
                }
                return Err(e);
            },
        }
        i += 1;
    }
    assert(params@.take(params.len() as int) =~= params@);
    Ok(out)
}

/// The enum with its flattened C name and its qualified C++ name.
pub open spec fn enum_matches(e: IrEnum, item: crate::parser::CppEnum) -> bool {
    &&& e.name@ == spec_flatten_cpp_name(text::views(item.namespace@), item.name@)
    &&& e.cpp_name@ == spec_cpp_qualified(text::views(item.namespace@), item.name@)
    &&& e.variants@.len() == item.variants@.len()
    &&& forall|i: int| 0 <= i < e.variants@.len() ==> variant_matches(#[trigger] e.variants@[i], item.variants@[i])
}

/// A variant with the name and the value of the parsed one.
pub open spec fn variant_matches(v: IrEnumVariant, item: crate::parser::CppEnumVariant) -> bool {
    v.name@ == item.name@ && opt_view(v.value) == opt_view(item.value)
}

#[verifier::spinoff_prover]
pub fn normalize_enum(item: &crate::parser::CppEnum) -> (r: IrEnum)
    ensures
        enum_matches(r, *item),
{
    let mut variants: Vec<IrEnumVariant> = Vec::new();
    let mut i: usize = 0;
    while i < item.variants.len()
        invariant
            i <= item.variants@.len(),
            variants@.len() == i,
            forall|j: int| 0 <= j < i ==> variant_matches(#[trigger] variants@[j], item.variants@[j]),
        decreases item.variants@.len() - i,
    {
        let v = &item.variants[i];
        let nv = IrEnumVariant { name: v.name.clone(), value: copy_opt(&v.value) };
        assert(variant_matches(nv, item.variants@[i as int]));
        let ghost before = variants@;
        variants.push(nv);
        assert forall|j: int| 0 <= j < i + 1 implies variant_matches(
            #[trigger] variants@[j],
            item.variants@[j],
        ) by {
            if j < i {
                assert(variants@[j] == before[j]);
            }
        }
        i += 1;
    }
    let name = flatten_cpp_name(&item.namespace, item.name.as_str());
    let cpp_name = cpp_qualified(&item.namespace, item.name.as_str());
    IrEnum { name, cpp_name, variants }
}

/// How a callback typedef is normalized: its return type first, then its
/// parameters; the first failure fails it.
pub open spec fn spec_normalize_callback(
    callback: crate::parser::CppCallbackTypedef,
    callbacks: Seq<Seq<char>>,
) -> Result<(Seq<char>, Seq<char>, IrTypeV, Seq<IrParamV>), Seq<char>> {
    match spec_normalize_type_with_canonical(
        callback.return_type@,
        callback.return_canonical_type@,
        callbacks,
    ) {
        Err(e) => Err(e),
        Ok(ret) => match spec_normalize_params(callback.params@, callbacks) {
            Err(e) => Err(e),
            Ok(ps) => Ok(
                (
                    callback.name@,
                    spec_cpp_qualified(text::views(callback.namespace@), callback.name@),
                    ret,
                    ps,
                ),
            ),
        },
    }
}

pub open spec fn callback_view(c: IrCallback) -> (Seq<char>, Seq<char>, IrTypeV, Seq<IrParamV>) {
    (c.name@, c.cpp_name@, c.returns@, param_views(c.params@))
}

pub fn normalize_callback(
    config: &Config,
    callback: &crate::parser::CppCallbackTypedef,
    callback_names: &[String],
) -> (r: Result<IrCallback, String>)
    ensures
        match r {
            Ok(c) => spec_normalize_callback(*callback, text::views(callback_names@)) == Ok::<
                (Seq<char>, Seq<char>, IrTypeV, Seq<IrParamV>),
                Seq<char>,
            >(callback_view(c)),
            Err(e) => spec_normalize_callback(*callback, text::views(callback_names@)) == Err::<
                (Seq<char>, Seq<char>, IrTypeV, Seq<IrParamV>),
                Seq<char>,
            >(e@),
        },
{
    let ret_ty = normalize_type_with_canonical(
        config,
        callback.return_type.as_str(),
        callback.return_canonical_type.as_str(),
        callback_names,
    )?;
    let params = normalize_params(config, &callback.params, callback_names)?;
    Ok(
        IrCallback {
            name: callback.name.clone(),
            cpp_name: cpp_qualified(&callback.namespace, callback.name.as_str()),
            returns: ret_ty,
            params,
        },
    )
}


// ---------------------------------------------------------------------------
// Declarations that may be skipped
// ---------------------------------------------------------------------------

/// A skipped declaration: its C++ name and the reason.
pub type SkippedV = (Seq<char>, Seq<char>);

/// What normalizing one declaration gives: a wrapper, nothing (the
/// declaration was skipped), or an error; and the skips it records.
pub type DeclStep = (Result<Option<IrFunctionV>, Seq<char>>, Seq<SkippedV>);

/// Normalizes each declaration in order, collecting the wrappers and the
/// skips, and stops at the first error.
pub open spec fn fold_decls<A>(items: Seq<A>, f: spec_fn(A) -> DeclStep) -> (
    Result<Seq<IrFunctionV>, Seq<char>>,
    Seq<SkippedV>,
)
    decreases items.len(),
{
    if items.len() == 0 {
        (Ok(Seq::empty()), Seq::empty())
    } else {
        let (r0, s0) = fold_decls(items.drop_last(), f);
        match r0 {
            Err(e) => (Err(e), s0),
            Ok(done) => {
                let (r1, s1) = f(items.last());
                match r1 {
                    Err(e) => (Err(e), s0 + s1),
                    Ok(None) => (Ok(done), s0 + s1),
                    Ok(Some(g)) => (Ok(done.push(g)), s0 + s1),
                }
            },
        }
    }
}

/// Once a prefix fails, the whole fold fails the same way.
pub proof fn lemma_fold_decls_err<A>(items: Seq<A>, f: spec_fn(A) -> DeclStep, k: int)
    requires
        0 <= k <= items.len(),
        fold_decls(items.take(k), f).0 is Err,
    ensures
        fold_decls(items, f) == fold_decls(items.take(k), f),
    decreases items.len(),
{
    if k == items.len() {
        assert(items.take(k) =~= items);
    } else {
        assert(items.drop_last().take(k) =~= items.take(k));
        lemma_fold_decls_err(items.drop_last(), f, k);
    }
}

pub open spec fn decl_result_view(r: Result<Option<IrFunction>, String>) -> Result<
    Option<IrFunctionV>,
    Seq<char>,
> {
    match r {
        Ok(Some(f)) => Ok(Some(f@)),
        Ok(None) => Ok(None),
        Err(e) => Err(e@),
    }
}

pub open spec fn decls_result_view(r: Result<Vec<IrFunction>, String>) -> Result<
    Seq<IrFunctionV>,
    Seq<char>,
> {
    match r {
        Ok(v) => Ok(function_views(v@)),
        Err(e) => Err(e@),
    }
}

fn skip(skipped: &mut Vec<SkippedDeclaration>, cpp_name: String, reason: String)
    ensures
        skipped_views(final(skipped)@) == skipped_views(old(skipped)@).push((cpp_name@, reason@)),
{
    let ghost before = skipped_views(skipped@);
    let d = SkippedDeclaration { cpp_name, reason };
    skipped.push(d);
    assert(skipped_views(skipped@) =~= before.push(d@));
}

// ---------------------------------------------------------------------------
// Constructors, methods and free functions
// ---------------------------------------------------------------------------

/// The qualified C++ name of a class.
pub open spec fn class_qualified(class: CppClass) -> Seq<char> {
    spec_cpp_qualified(text::views(class.namespace@), class.name@)
}

/// The `self` parameter of a wrapper around a member of a class.
pub open spec fn spec_self_param(qualified: Seq<char>, handle: Seq<char>, is_const: bool) -> IrParamV {
    IrParamV {
        name: "self"@,
        ty: IrTypeV {
            kind: IrTypeKind::Opaque,
            cpp_type: if is_const {
                "const "@ + qualified + "*"@
            } else {
                qualified + "*"@
            },
            c_type: if is_const {
                "const "@ + handle + "*"@
            } else {
                handle + "*"@
            },
            handle: Some(handle),
        },
    }
}

fn self_param(qualified: &str, handle_name: &str, is_const: bool) -> (r: IrParam)
    ensures
        r@ == spec_self_param(qualified@, handle_name@, is_const),
{
    IrParam {
        name: owned("self"),
        ty: IrType {
            kind: IrTypeKind::Opaque,
            cpp_type: if is_const {
                text::concat3("const ", qualified, "*")
            } else {
                concat2(qualified, "*")
            },
            c_type: if is_const {
                text::concat3("const ", handle_name, "*")
            } else {
                concat2(handle_name, "*")
            },
            handle: Some(owned(handle_name)),
        },
    }
}

/// The handle that a constructor returns.
pub open spec fn spec_handle_return(qualified: Seq<char>, handle: Seq<char>) -> IrTypeV {
    IrTypeV { kind: IrTypeKind::Opaque, cpp_type: qualified, c_type: handle + "*"@, handle: Some(handle) }
}

fn handle_return(qualified: &str, handle_name: &str) -> (r: IrType)
    ensures
        r@ == spec_handle_return(qualified@, handle_name@),
{
    IrType {
        kind: IrTypeKind::Opaque,
        cpp_type: owned(qualified),
        c_type: concat2(handle_name, "*"),
        handle: Some(owned(handle_name)),
    }
}

/// A constructor wrapper with the given parameters.
pub open spec fn spec_constructor_fn(
    config: Config,
    class: CppClass,
    handle: Seq<char>,
    params: Seq<IrParamV>,
) -> IrFunctionV {
    let q = class_qualified(class);
    IrFunctionV {
        name: spec_symbol_name(config, text::views(class.namespace@), class.name@, "new"@),
        kind: IrFunctionKind::Constructor,
        cpp_name: q,
        method_of: Some(handle),
        owner_cpp_type: Some(q),
        is_const: None,
        field_accessor: None,
        returns: spec_handle_return(q, handle),
        params,
    }
}

fn constructor_fn(config: &Config, class: &CppClass, handle_name: &str, params: Vec<IrParam>) -> (r:
    IrFunction)
    ensures
        r@ == spec_constructor_fn(*config, *class, handle_name@, param_views(params@)),
{
    let q = cpp_qualified(&class.namespace, class.name.as_str());
    IrFunction {
        name: symbol_name(config, &class.namespace, class.name.as_str(), "new"),
        kind: IrFunctionKind::Constructor,
        cpp_name: q.clone(),
        method_of: Some(owned(handle_name)),
        owner_cpp_type: Some(q.clone()),
        is_const: None,
        field_accessor: None,
        returns: handle_return(q.as_str(), handle_name),
        params,
    }
}

/// How one declared constructor is normalized: skipped where it takes a
/// raw function pointer.
#[verifier::opaque]
pub open spec fn spec_normalize_constructor(
    config: Config,
    class: CppClass,
    handle: Seq<char>,
    ctor: CppConstructor,
    callbacks: Seq<Seq<char>>,
) -> DeclStep {
    let q = class_qualified(class);
    match spec_function_pointer_reason(None, ctor.params@, callbacks) {
        Some(reason) => (Ok(None), seq![(q, reason)]),
        None => match spec_normalize_params(ctor.params@, callbacks) {
            Ok(ps) => (Ok(Some(spec_constructor_fn(config, class, handle, ps))), Seq::empty()),
            Err(e) => (Err(e), Seq::empty()),
        },
    }
}

pub open spec fn ctor_step(
    config: Config,
    class: CppClass,
    handle: Seq<char>,
    callbacks: Seq<Seq<char>>,
) -> spec_fn(CppConstructor) -> DeclStep {
    |c: CppConstructor| spec_normalize_constructor(config, class, handle, c, callbacks)
}

pub fn normalize_constructor(
    config: &Config,
    class: &CppClass,
    handle_name: &str,
    constructor: &CppConstructor,
    callback_names: &[String],
    skipped_declarations: &mut Vec<SkippedDeclaration>,
) -> (r: Result<Option<IrFunction>, String>)
    ensures
        decl_result_view(r) == spec_normalize_constructor(
            *config,
            *class,
            handle_name@,
            *constructor,
            text::views(callback_names@),
        ).0,
        skipped_views(final(skipped_declarations)@) == skipped_views(old(skipped_declarations)@)
            + spec_normalize_constructor(
            *config,
            *class,
            handle_name@,
            *constructor,
            text::views(callback_names@),
        ).1,
{
    reveal(spec_normalize_constructor);
    let ghost before = skipped_views(skipped_declarations@);
    let qualified = cpp_qualified(&class.namespace, class.name.as_str());
    if let Some(reason) = function_pointer_reason(None, &constructor.params, callback_names) {
        skip(skipped_declarations, qualified, reason);
        return Ok(None);
    }
    assert(skipped_views(skipped_declarations@) =~= before + Seq::<SkippedV>::empty());
    let params = normalize_params(config, &constructor.params, callback_names)?;
    Ok(Some(constructor_fn(config, class, handle_name, params)))
}

/// The message of a skipped operator.
pub open spec fn operator_skip_reason() -> Seq<char> {
    "operator declarations are unsupported in v1"@
}

/// How one method is normalized: operators, raw function pointers and
/// by-value class objects are skipped; otherwise the parameters, then the
/// return type, are normalized.
#[verifier::opaque]
pub open spec fn spec_normalize_method(
    config: Config,
    class: CppClass,
    handle: Seq<char>,
    method: CppMethod,
    abstract_types: Seq<Seq<char>>,
    callbacks: Seq<Seq<char>>,
) -> DeclStep {
    let q = class_qualified(class);
    let cpp_name = q + "::"@ + method.name@;
    let rt = method.return_type@;
    let rct = method.return_canonical_type@;
    if spec_is_operator_name(method.name@) {
        (Ok(None), seq![(cpp_name, operator_skip_reason())])
    } else {
        match spec_function_pointer_reason(
            Some((rt, rct, method.return_is_function_pointer)),
            method.params@,
            callbacks,
        ) {
            Some(reason) => (Ok(None), seq![(cpp_name, reason)]),
            None => match spec_raw_unsafe_by_value_reason(Some((rt, rct)), method.params@, callbacks) {
                Some(reason) => (Ok(None), seq![(cpp_name, reason)]),
                None => match spec_normalize_params(method.params@, callbacks) {
                    Err(e) => (Err(e), Seq::empty()),
                    Ok(ps) => match spec_normalize_return_type_with_canonical(
                        rt,
                        rct,
                        abstract_types,
                        callbacks,
                    ) {
                        Err(e) => (Err(e), Seq::empty()),
                        Ok(ret) => (
                            Ok(
                                Some(
                                    IrFunctionV {
                                        name: spec_symbol_name(
                                            config,
                                            text::views(class.namespace@),
                                            class.name@,
                                            method.name@,
                                        ),
                                        kind: IrFunctionKind::Method,
                                        cpp_name,
                                        method_of: Some(handle),
                                        owner_cpp_type: Some(q),
                                        is_const: Some(method.is_const),
                                        field_accessor: None,
                                        returns: ret,
                                        params: seq![spec_self_param(q, handle, method.is_const)]
                                            + ps,
                                    },
                                ),
                            ),
                            Seq::empty(),
                        ),
                    },
                },
            },
        }
    }
}

pub open spec fn method_step(
    config: Config,
    class: CppClass,
    handle: Seq<char>,
    abstract_types: Seq<Seq<char>>,
    callbacks: Seq<Seq<char>>,
) -> spec_fn(CppMethod) -> DeclStep {
    |m: CppMethod| spec_normalize_method(config, class, handle, m, abstract_types, callbacks)
}

pub fn normalize_method(
    config: &Config,
    class: &CppClass,
    handle_name: &str,
    method: &CppMethod,
    abstract_types: &[String],
    callback_names: &[String],
    skipped_declarations: &mut Vec<SkippedDeclaration>,
) -> (r: Result<Option<IrFunction>, String>)
    ensures
        decl_result_view(r) == spec_normalize_method(
            *config,
            *class,
            handle_name@,
            *method,
            text::views(abstract_types@),
            text::views(callback_names@),
        ).0,
        skipped_views(final(skipped_declarations)@) == skipped_views(old(skipped_declarations)@)
            + spec_normalize_method(
            *config,
            *class,
            handle_name@,
            *method,
            text::views(abstract_types@),
            text::views(callback_names@),
        ).1,
{
    reveal(spec_normalize_method);
    let ghost before = skipped_views(skipped_declarations@);
    let qualified = cpp_qualified(&class.namespace, class.name.as_str());
    let cpp_name = text::concat3(qualified.as_str(), "::", method.name.as_str());
    if is_operator_name(method.name.as_str()) {
        skip(skipped_declarations, cpp_name, owned("operator declarations are unsupported in v1"));
        return Ok(None);
    }
    if let Some(reason) = function_pointer_reason(
        Some(
            (
                method.return_type.as_str(),
                method.return_canonical_type.as_str(),
                method.return_is_function_pointer,
            ),
        ),
        &method.params,
        callback_names,
    ) {
        skip(skipped_declarations, cpp_name, reason);
        return Ok(None);
    }
    if let Some(reason) = raw_unsafe_by_value_reason(
        Some((method.return_type.as_str(), method.return_canonical_type.as_str())),
        &method.params,
        callback_names,
    ) {
        skip(skipped_declarations, cpp_name, reason);
        return Ok(None);
    }
    assert(skipped_views(skipped_declarations@) =~= before + Seq::<SkippedV>::empty());
    let mut params: Vec<IrParam> = Vec::new();
    params.push(self_param(qualified.as_str(), handle_name, method.is_const));
    assert(param_views(params@) =~= seq![spec_self_param(qualified@, handle_name@, method.is_const)]);
    let mut rest = normalize_params(config, &method.params, callback_names)?;
    let ghost head = param_views(params@);
    let ghost rv = param_views(rest@);
    params.append(&mut rest);
    assert(param_views(params@) =~= head + rv);
    let ret_ty = normalize_return_type_with_canonical(
        config,
        method.return_type.as_str(),
        method.return_canonical_type.as_str(),
        abstract_types,
        callback_names,
    )?;
    Ok(
        Some(
            IrFunction {
                name: symbol_name(
                    config,
                    &class.namespace,
                    class.name.as_str(),
                    method.name.as_str(),
                ),
                kind: IrFunctionKind::Method,
                cpp_name,
                method_of: Some(owned(handle_name)),
                owner_cpp_type: Some(qualified),
                is_const: Some(method.is_const),
                field_accessor: None,
                returns: ret_ty,
                params,
            },
        ),
    )
}


/// How one free function is normalized: operators, raw function pointers
/// and by-value class objects are skipped; otherwise the return type, then
/// the parameters, are normalized.
#[verifier::opaque]
pub open spec fn spec_normalize_function(
    config: Config,
    function: CppFunction,
    abstract_types: Seq<Seq<char>>,
    callbacks: Seq<Seq<char>>,
) -> DeclStep {
    let ns = text::views(function.namespace@);
    let cpp_name = spec_cpp_qualified(ns, function.name@);
    let rt = function.return_type@;
    let rct = function.return_canonical_type@;
    if spec_is_operator_name(function.name@) {
        (Ok(None), seq![(cpp_name, operator_skip_reason())])
    } else {
        match spec_function_pointer_reason(
            Some((rt, rct, function.return_is_function_pointer)),
            function.params@,
            callbacks,
        ) {
            Some(reason) => (Ok(None), seq![(cpp_name, reason)]),
            None => match spec_raw_unsafe_by_value_reason(
                Some((rt, rct)),
                function.params@,
                callbacks,
            ) {
                Some(reason) => (Ok(None), seq![(cpp_name, reason)]),
                None => match spec_normalize_return_type_with_canonical(
                    rt,
                    rct,
                    abstract_types,
                    callbacks,
                ) {
                    Err(e) => (Err(e), Seq::empty()),
                    Ok(ret) => match spec_normalize_params(function.params@, callbacks) {
                        Err(e) => (Err(e), Seq::empty()),
                        Ok(ps) => (
                            Ok(
                                Some(
                                    IrFunctionV {
                                        name: spec_symbol_name(config, ns, ""@, function.name@),
                                        kind: IrFunctionKind::Function,
                                        cpp_name,
                                        method_of: None,
                                        owner_cpp_type: None,
                                        is_const: None,
                                        field_accessor: None,
                                        returns: ret,
                                        params: ps,
                                    },
                                ),
                            ),
                            Seq::empty(),
                        ),
                    },
                },
            },
        }
    }
}

pub open spec fn function_step(
    config: Config,
    abstract_types: Seq<Seq<char>>,
    callbacks: Seq<Seq<char>>,
) -> spec_fn(CppFunction) -> DeclStep {
    |f: CppFunction| spec_normalize_function(config, f, abstract_types, callbacks)
}

pub fn normalize_function(
    config: &Config,
    function: &CppFunction,
    abstract_types: &[String],
    callback_names: &[String],
    skipped_declarations: &mut Vec<SkippedDeclaration>,
) -> (r: Result<Option<IrFunction>, String>)
    ensures
        decl_result_view(r) == spec_normalize_function(
            *config,
            *function,
            text::views(abstract_types@),
            text::views(callback_names@),
        ).0,
        skipped_views(final(skipped_declarations)@) == skipped_views(old(skipped_declarations)@)
            + spec_normalize_function(
            *config,
            *function,
            text::views(abstract_types@),
            text::views(callback_names@),
        ).1,
{
    reveal(spec_normalize_function);
    let ghost before = skipped_views(skipped_declarations@);
    let cpp_name = cpp_qualified(&function.namespace, function.name.as_str());
    if is_operator_name(function.name.as_str()) {
        skip(skipped_declarations, cpp_name, owned("operator declarations are unsupported in v1"));
        return Ok(None);
    }
    if let Some(reason) = function_pointer_reason(
        Some(
            (
                function.return_type.as_str(),
                function.return_canonical_type.as_str(),
                function.return_is_function_pointer,
            ),
        ),
        &function.params,
        callback_names,
    ) {
        skip(skipped_declarations, cpp_name, reason);
        return Ok(None);
    }
    if let Some(reason) = raw_unsafe_by_value_reason(
        Some((function.return_type.as_str(), function.return_canonical_type.as_str())),
        &function.params,
        callback_names,
    ) {
        skip(skipped_declarations, cpp_name, reason);
        return Ok(None);
    }
    assert(skipped_views(skipped_declarations@) =~= before + Seq::<SkippedV>::empty());
    let ret_ty = normalize_return_type_with_canonical(
        config,
        function.return_type.as_str(),
        function.return_canonical_type.as_str(),
        abstract_types,
        callback_names,
    )?;
    let params = normalize_params(config, &function.params, callback_names)?;
    Ok(
        Some(
            IrFunction {
                name: symbol_name(config, &function.namespace, "", function.name.as_str()),
                kind: IrFunctionKind::Function,
                cpp_name,
                method_of: None,
                owner_cpp_type: None,
                is_const: None,
                field_accessor: None,
                returns: ret_ty,
                params,
            },
        ),
    )
}

/// Normalizes the declared constructors of a class in order.
fn normalize_constructors(
    config: &Config,
    class: &CppClass,
    handle_name: &str,
    callback_names: &[String],
    skipped_declarations: &mut Vec<SkippedDeclaration>,
) -> (r: Result<Vec<IrFunction>, String>)
    ensures
        decls_result_view(r) == fold_decls(
            class.constructors@,
            ctor_step(*config, *class, handle_name@, text::views(callback_names@)),
        ).0,
        skipped_views(final(skipped_declarations)@) == skipped_views(old(skipped_declarations)@)
            + fold_decls(
            class.constructors@,
            ctor_step(*config, *class, handle_name@, text::views(callback_names@)),
        ).1,
{
    let ghost f = ctor_step(*config, *class, handle_name@, text::views(callback_names@));
    let ghost base = skipped_views(skipped_declarations@);
    let ghost items = class.constructors@;
    let mut out: Vec<IrFunction> = Vec::new();
    let mut i: usize = 0;
    assert(items.take(0) =~= Seq::<CppConstructor>::empty());
    assert(function_views(out@) =~= Seq::<IrFunctionV>::empty());
    assert(skipped_views(skipped_declarations@) =~= base + Seq::<SkippedV>::empty());
    while i < class.constructors.len()
        invariant
            i <= items.len(),
            items == class.constructors@,
            f == ctor_step(*config, *class, handle_name@, text::views(callback_names@)),
            fold_decls(items.take(i as int), f).0 == Ok::<Seq<IrFunctionV>, Seq<char>>(
                function_views(out@),
            ),
            skipped_views(skipped_declarations@) == base + fold_decls(items.take(i as int), f).1,
            base == skipped_views(old(skipped_declarations)@),
        decreases items.len() - i,
    {
        let ghost prev = fold_decls(items.take(i as int), f);
        let ghost sv = skipped_views(skipped_declarations@);
        let ghost step = f(items[i as int]);
        assert(items.take(i + 1).drop_last() =~= items.take(i as int));
        assert(items.take(i + 1).last() == items[i as int]);
        assert((base + prev.1) + step.1 =~= base + (prev.1 + step.1));
        match normalize_constructor(
            config,
            class,
            handle_name,
            &class.constructors[i],
            callback_names,
            skipped_declarations,
        ) {
            Ok(Some(g)) => {
                let ghost done = function_views(out@);
                out.push(g);
                assert(function_views(out@) =~= done.push(g@));
            },
            Ok(None) => {},
            Err(e) => {
                proof {
                    assert(fold_decls(items.take(i + 1), f).1 == prev.1 + step.1);
                    lemma_fold_decls_err(items, f, i + 1);
                }
                return Err(e);
            },
        }
        i += 1;
    }
    assert(items.take(items.len() as int) =~= items);
    Ok(out)
}

/// Normalizes the methods of a class in order.
fn normalize_methods(
    config: &Config,
    class: &CppClass,
    handle_name: &str,
    abstract_types: &[String],
    callback_names: &[String],
    skipped_declarations: &mut Vec<SkippedDeclaration>,
) -> (r: Result<Vec<IrFunction>, String>)
    ensures
        decls_result_view(r) == fold_decls(
            class.methods@,
            method_step(
                *config,
                *class,
                handle_name@,
                text::views(abstract_types@),
                text::views(callback_names@),
            ),
        ).0,
        skipped_views(final(skipped_declarations)@) == skipped_views(old(skipped_declarations)@)
            + fold_decls(
            class.methods@,
            method_step(
                *config,
                *class,
                handle_name@,
                text::views(abstract_types@),
                text::views(callback_names@),
            ),
        ).1,
{
    let ghost f = method_step(
        *config,
        *class,
        handle_name@,
        text::views(abstract_types@),
        text::views(callback_names@),
    );
    let ghost base = skipped_views(skipped_declarations@);
    let ghost items = class.methods@;
    let mut out: Vec<IrFunction> = Vec::new();
    let mut i: usize = 0;
    assert(items.take(0) =~= Seq::<CppMethod>::empty());
    assert(function_views(out@) =~= Seq::<IrFunctionV>::empty());
    assert(skipped_views(skipped_declarations@) =~= base + Seq::<SkippedV>::empty());
    while i < class.methods.len()
        invariant
            i <= items.len(),
            items == class.methods@,
            f == method_step(
                *config,
                *class,
                handle_name@,
                text::views(abstract_types@),
                text::views(callback_names@),
            ),
            fold_decls(items.take(i as int), f).0 == Ok::<Seq<IrFunctionV>, Seq<char>>(
                function_views(out@),
            ),
            skipped_views(skipped_declarations@) == base + fold_decls(items.take(i as int), f).1,
            base == skipped_views(old(skipped_declarations)@),
        decreases items.len() - i,
    {
        let ghost prev = fold_decls(items.take(i as int), f);
        let ghost step = f(items[i as int]);
        assert(items.take(i + 1).drop_last() =~= items.take(i as int));
        assert(items.take(i + 1).last() == items[i as int]);
        assert((base + prev.1) + step.1 =~= base + (prev.1 + step.1));
        match normalize_method(
            config,
            class,
            handle_name,
            &class.methods[i],
            abstract_types,
            callback_names,
            skipped_declarations,
        ) {
            Ok(Some(g)) => {
                let ghost done = function_views(out@);
                out.push(g);
                assert(function_views(out@) =~= done.push(g@));
            },
            Ok(None) => {},
            Err(e) => {
                proof {
                    assert(fold_decls(items.take(i + 1), f).1 == prev.1 + step.1);
                    lemma_fold_decls_err(items, f, i + 1);
                }
                return Err(e);
            },
        }
        i += 1;
    }
    assert(items.take(items.len() as int) =~= items);
    Ok(out)
}


// ---------------------------------------------------------------------------
// Struct field accessors
// ---------------------------------------------------------------------------

/// A part of a field name with its first character uppercased.
pub open spec fn spec_capitalize(p: Seq<char>) -> Seq<char> {
    text::upper_char_str(p[0]) + p.subrange(1, p.len() as int)
}

/// The non-empty parts, each capitalized, run together.
pub open spec fn spec_accessor_suffix_of(parts: Seq<Seq<char>>) -> Seq<char>
    decreases parts.len(),
{
    if parts.len() == 0 {
        Seq::empty()
    } else {
        spec_accessor_suffix_of(parts.drop_last()) + if parts.last().len() > 0 {
            spec_capitalize(parts.last())
        } else {
            Seq::empty()
        }
    }
}

/// `first_name` becomes `FirstName`: the `_`-separated parts of a field
/// name, capitalized and run together.
pub open spec fn spec_struct_field_accessor_suffix(field_name: Seq<char>) -> Seq<char> {
    spec_accessor_suffix_of(text::split_char(field_name, '_'))
}

pub fn struct_field_accessor_suffix(field_name: &str) -> (r: String)
    ensures
        r@ == spec_struct_field_accessor_suffix(field_name@),
{
    let parts = text::split_char_str(field_name, '_');
    let ghost pv = text::views(parts@);
    let mut out = String::new();
    let mut i: usize = 0;
    assert(pv.take(0) =~= Seq::<Seq<char>>::empty());
    while i < parts.len()
        invariant
            i <= parts.len(),
            pv == text::views(parts@),
            pv == text::split_char(field_name@, '_'),
            out@ == spec_accessor_suffix_of(pv.take(i as int)),
        decreases parts.len() - i,
    {
        assert(pv.take(i + 1).drop_last() =~= pv.take(i as int));
        let part = &parts[i];
        if !part.as_str().is_empty() {
            let cs = chars_of(part.as_str());
            let up = text::char_to_uppercase(cs[0]);
            let rest = string_of_range(&cs, 1, cs.len());
            out.append(up.as_str());
            out.append(rest.as_str());
        }
        i += 1;
    }
    assert(pv.take(parts.len() as int) =~= pv);
    out
}

/// A field whose declared or canonical type is `const` gets no setter.
pub open spec fn spec_field_is_read_only(field: CppField) -> bool {
    text::starts_with(text::trim(field.ty@), "const "@) || text::starts_with(
        text::trim(field.canonical_ty@),
        "const "@,
    )
}

pub fn field_is_read_only(field: &CppField) -> (r: bool)
    ensures
        r == spec_field_is_read_only(*field),
{
    let ty = trim_str(field.ty.as_str());
    let canonical = trim_str(field.canonical_ty.as_str());
    text::has_prefix(ty.as_str(), "const ") || text::has_prefix(canonical.as_str(), "const ")
}

/// The kinds of field that get accessors.
pub open spec fn is_field_accessor_kind(k: IrTypeKind) -> bool {
    k == IrTypeKind::Primitive || k == IrTypeKind::ModelValue || k == IrTypeKind::CString || k
        == IrTypeKind::FixedByteArray || k == IrTypeKind::FixedArray || k
        == IrTypeKind::FixedModelArray
}

/// The synthesized getter of a struct field.
pub open spec fn spec_field_getter(
    config: Config,
    namespace: Seq<Seq<char>>,
    owner_name: Seq<char>,
    qualified: Seq<char>,
    handle: Seq<char>,
    field: CppField,
    ret_ty: IrTypeV,
) -> IrFunctionV {
    let method_name = "Get"@ + spec_struct_field_accessor_suffix(field.name@);
    IrFunctionV {
        name: spec_symbol_name(config, namespace, owner_name, method_name),
        kind: IrFunctionKind::Method,
        cpp_name: qualified + "::"@ + method_name,
        method_of: Some(handle),
        owner_cpp_type: Some(qualified),
        is_const: Some(true),
        field_accessor: Some((field.name@, FieldAccessKind::Get)),
        returns: ret_ty,
        params: seq![spec_self_param(qualified, handle, true)],
    }
}

pub fn make_struct_field_getter(
    config: &Config,
    namespace: &[String],
    owner_name: &str,
    qualified: &str,
    handle_name: &str,
    field: &CppField,
    ret_ty: IrType,
) -> (r: IrFunction)
    ensures
        r@ == spec_field_getter(
            *config,
            text::views(namespace@),
            owner_name@,
            qualified@,
            handle_name@,
            *field,
            ret_ty@,
        ),
{
    let suffix = struct_field_accessor_suffix(field.name.as_str());
    let method_name = concat2("Get", suffix.as_str());
    let mut params: Vec<IrParam> = Vec::new();
    params.push(self_param(qualified, handle_name, true));
    assert(param_views(params@) =~= seq![spec_self_param(qualified@, handle_name@, true)]);
    IrFunction {
        name: symbol_name(config, namespace, owner_name, method_name.as_str()),
        kind: IrFunctionKind::Method,
        cpp_name: text::concat3(qualified, "::", method_name.as_str()),
        method_of: Some(owned(handle_name)),
        owner_cpp_type: Some(owned(qualified)),
        is_const: Some(true),
        field_accessor: Some(
            IrFieldAccessor { field_name: field.name.clone(), access: FieldAccessKind::Get },
        ),
        returns: ret_ty,
        params,
    }
}

/// The synthesized setter of a struct field.
pub open spec fn spec_field_setter(
    config: Config,
    namespace: Seq<Seq<char>>,
    owner_name: Seq<char>,
    qualified: Seq<char>,
    handle: Seq<char>,
    field: CppField,
    field_ty: IrTypeV,
) -> IrFunctionV {
    let method_name = "Set"@ + spec_struct_field_accessor_suffix(field.name@);
    IrFunctionV {
        name: spec_symbol_name(config, namespace, owner_name, method_name),
        kind: IrFunctionKind::Method,
        cpp_name: qualified + "::"@ + method_name,
        method_of: Some(handle),
        owner_cpp_type: Some(qualified),
        is_const: Some(false),
        field_accessor: Some((field.name@, FieldAccessKind::Assign)),
        returns: spec_primitive_type("void"@),
        params: seq![
            spec_self_param(qualified, handle, false),
            IrParamV { name: "value"@, ty: field_ty },
        ],
    }
}

pub fn make_struct_field_setter(
    config: &Config,
    namespace: &[String],
    owner_name: &str,
    qualified: &str,
    handle_name: &str,
    field: &CppField,
    field_ty: IrType,
) -> (r: IrFunction)
    ensures
        r@ == spec_field_setter(
            *config,
            text::views(namespace@),
            owner_name@,
            qualified@,
            handle_name@,
            *field,
            field_ty@,
        ),
{
    let suffix = struct_field_accessor_suffix(field.name.as_str());
    let method_name = concat2("Set", suffix.as_str());
    let ghost fv = field_ty@;
    let mut params: Vec<IrParam> = Vec::new();
    params.push(self_param(qualified, handle_name, false));
    params.push(IrParam { name: owned("value"), ty: field_ty });
    assert(param_views(params@) =~= seq![
        spec_self_param(qualified@, handle_name@, false),
        IrParamV { name: "value"@, ty: fv },
    ]);
    IrFunction {
        name: symbol_name(config, namespace, owner_name, method_name.as_str()),
        kind: IrFunctionKind::Method,
        cpp_name: text::concat3(qualified, "::", method_name.as_str()),
        method_of: Some(owned(handle_name)),
        owner_cpp_type: Some(owned(qualified)),
        is_const: Some(false),
        field_accessor: Some(
            IrFieldAccessor { field_name: field.name.clone(), access: FieldAccessKind::Assign },
        ),
        returns: primitive_type("void"),
        params,
    }
}

/// The names of a class's declared methods.
pub open spec fn method_names(class: CppClass) -> Seq<Seq<char>> {
    class.methods@.map_values(|m: CppMethod| m.name@)
}

/// The accessors synthesized for one field of a struct: none for function
/// pointers, for fields whose getter is already declared, and for types
/// that cannot be carried by value; a getter, and a setter unless one is
/// declared or the field is read-only.
pub open spec fn spec_field_accessors(
    config: Config,
    class: CppClass,
    handle: Seq<char>,
    field: CppField,
    callbacks: Seq<Seq<char>>,
) -> Seq<IrFunctionV> {
    let suffix = spec_struct_field_accessor_suffix(field.name@);
    let existing = method_names(class);
    let ns = text::views(class.namespace@);
    let q = class_qualified(class);
    if field.is_function_pointer || existing.contains("Get"@ + suffix) {
        Seq::empty()
    } else {
        match spec_normalize_type_with_canonical(field.ty@, field.canonical_ty@, callbacks) {
            Err(_) => Seq::empty(),
            Ok(t) => if !is_field_accessor_kind(t.kind) {
                Seq::empty()
            } else {
                let g = spec_field_getter(config, ns, class.name@, q, handle, field, t);
                if existing.contains("Set"@ + suffix) || spec_field_is_read_only(field) {
                    seq![g]
                } else {
                    seq![g, spec_field_setter(config, ns, class.name@, q, handle, field, t)]
                }
            },
        }
    }
}

/// The accessors of all the given fields, in order.
pub open spec fn spec_struct_field_accessors(
    config: Config,
    class: CppClass,
    handle: Seq<char>,
    fields: Seq<CppField>,
    callbacks: Seq<Seq<char>>,
) -> Seq<IrFunctionV>
    decreases fields.len(),
{
    if fields.len() == 0 {
        Seq::empty()
    } else {
        spec_struct_field_accessors(config, class, handle, fields.drop_last(), callbacks)
            + spec_field_accessors(config, class, handle, fields.last(), callbacks)
    }
}

fn class_method_names(class: &CppClass) -> (r: Vec<String>)
    ensures
        text::views(r@) == method_names(*class),
{
    let mut out: Vec<String> = Vec::new();
    let mut i: usize = 0;
    while i < class.methods.len()
        invariant
            i <= class.methods@.len(),
            text::views(out@) == method_names(*class).take(i as int),
        decreases class.methods@.len() - i,
    {
        let ghost before = text::views(out@);
        let name = class.methods[i].name.clone();
        out.push(name);
        assert(method_names(*class)[i as int] == class.methods@[i as int].name@);
        assert(text::views(out@) =~= before.push(name@));
        assert(method_names(*class).take(i + 1) =~= method_names(*class).take(i as int).push(
            class.methods@[i as int].name@,
        ));
        i += 1;
    }
    assert(method_names(*class).take(class.methods@.len() as int) =~= method_names(*class));
    out
}

pub fn normalize_struct_fields(
    config: &Config,
    class: &CppClass,
    handle_name: &str,
    callback_names: &[String],
) -> (r: Vec<IrFunction>)
    ensures
        function_views(r@) == spec_struct_field_accessors(
            *config,
            *class,
            handle_name@,
            class.fields@,
            text::views(callback_names@),
        ),
{
    let ghost cbs = text::views(callback_names@);
    let qualified = cpp_qualified(&class.namespace, class.name.as_str());
    let existing = class_method_names(class);
    let mut functions: Vec<IrFunction> = Vec::new();
    let mut i: usize = 0;
    assert(class.fields@.take(0) =~= Seq::<CppField>::empty());
    assert(function_views(functions@) =~= Seq::<IrFunctionV>::empty());
    while i < class.fields.len()
        invariant
            i <= class.fields@.len(),
            cbs == text::views(callback_names@),
            qualified@ == class_qualified(*class),
            text::views(existing@) == method_names(*class),
            function_views(functions@) == spec_struct_field_accessors(
                *config,
                *class,
                handle_name@,
                class.fields@.take(i as int),
                cbs,
            ),
        decreases class.fields@.len() - i,
    {
        let ghost done = function_views(functions@);
        let field = &class.fields[i];
        assert(class.fields@.take(i + 1).drop_last() =~= class.fields@.take(i as int));
        assert(class.fields@.take(i + 1).last() == class.fields@[i as int]);
        let ghost want = spec_field_accessors(*config, *class, handle_name@, *field, cbs);
        i += 1;
        if field.is_function_pointer {
            assert(done + want =~= done);
            continue;
        }
        let suffix = struct_field_accessor_suffix(field.name.as_str());
        let getter_name = concat2("Get", suffix.as_str());
        if contains_string(&existing, getter_name.as_str()) {
            assert(done + want =~= done);
            continue;
        }
        let field_ty = match normalize_type_with_canonical(
            config,
            field.ty.as_str(),
            field.canonical_ty.as_str(),
            callback_names,
        ) {
            Ok(t) => t,
            Err(_) => {
                assert(done + want =~= done);
                continue;
            },
        };
        let k = field_ty.kind;
        if k != IrTypeKind::Primitive && k != IrTypeKind::ModelValue && k != IrTypeKind::CString
            && k != IrTypeKind::FixedByteArray && k != IrTypeKind::FixedArray && k
            != IrTypeKind::FixedModelArray {
            assert(done + want =~= done);
            continue;
        }
        let getter = make_struct_field_getter(
            config,
            &class.namespace,
            class.name.as_str(),
            qualified.as_str(),
            handle_name,
            field,
            copy_type(&field_ty),
        );
        functions.push(getter);
        let setter_name = concat2("Set", suffix.as_str());
        if contains_string(&existing, setter_name.as_str()) || field_is_read_only(field) {
            assert(function_views(functions@) =~= done + want);
            continue;
        }
        let setter = make_struct_field_setter(
            config,
            &class.namespace,
            class.name.as_str(),
            qualified.as_str(),
            handle_name,
            field,
            field_ty,
        );
        functions.push(setter);
        assert(function_views(functions@) =~= done + want);
    }
    assert(class.fields@.take(class.fields@.len() as int) =~= class.fields@);
    functions
}


// ---------------------------------------------------------------------------
// Classes
// ---------------------------------------------------------------------------

/// The destructor wrapper of a class.
pub open spec fn spec_destructor_fn(config: Config, class: CppClass, handle: Seq<char>) -> IrFunctionV {
    let q = class_qualified(class);
    IrFunctionV {
        name: spec_symbol_name(config, text::views(class.namespace@), class.name@, "delete"@),
        kind: IrFunctionKind::Destructor,
        cpp_name: if class.has_destructor {
            "~"@ + q
        } else {
            q
        },
        method_of: Some(handle),
        owner_cpp_type: Some(q),
        is_const: None,
        field_accessor: None,
        returns: spec_primitive_type("void"@),
        params: seq![spec_self_param(q, handle, false)],
    }
}

fn destructor_fn(config: &Config, class: &CppClass, handle_name: &str) -> (r: IrFunction)
    ensures
        r@ == spec_destructor_fn(*config, *class, handle_name@),
{
    let q = cpp_qualified(&class.namespace, class.name.as_str());
    let mut params: Vec<IrParam> = Vec::new();
    params.push(self_param(q.as_str(), handle_name, false));
    assert(param_views(params@) =~= seq![spec_self_param(q@, handle_name@, false)]);
    IrFunction {
        name: symbol_name(config, &class.namespace, class.name.as_str(), "delete"),
        kind: IrFunctionKind::Destructor,
        cpp_name: if class.has_destructor {
            concat2("~", q.as_str())
        } else {
            q.clone()
        },
        method_of: Some(owned(handle_name)),
        owner_cpp_type: Some(q),
        is_const: None,
        field_accessor: None,
        returns: primitive_type("void"),
        params,
    }
}

/// The reason recorded for an abstract class.
pub open spec fn abstract_class_reason() -> Seq<char> {
    "abstract class: has pure virtual methods; constructor wrapper omitted"@
}

/// The error for a class whose declared constructors were all skipped.
pub open spec fn no_eligible_constructor_message(qualified: Seq<char>) -> Seq<char> {
    "class "@ + qualified
        + " declares constructors, but none were eligible for wrapper generation; refusing to synthesize a default constructor"@
}

/// The constructors of a class: none for an abstract class (which is
/// recorded as skipped), a default constructor where none is declared,
/// and otherwise the declared ones, of which at least one must survive
/// (an error where the parser kept none of those it saw declared).
pub open spec fn spec_class_constructors(
    config: Config,
    class: CppClass,
    handle: Seq<char>,
    callbacks: Seq<Seq<char>>,
) -> (Result<Seq<IrFunctionV>, Seq<char>>, Seq<SkippedV>) {
    let q = class_qualified(class);
    if class.is_abstract {
        (Ok(Seq::empty()), seq![(q, abstract_class_reason())])
    } else if class.constructors@.len() == 0 {
        if class.has_declared_constructor {
            (Err(no_eligible_constructor_message(q)), Seq::empty())
        } else {
            (Ok(seq![spec_constructor_fn(config, class, handle, Seq::empty())]), Seq::empty())
        }
    } else {
        let (r, sk) = fold_decls(class.constructors@, ctor_step(config, class, handle, callbacks));
        match r {
            Ok(fs) => if fs.len() == 0 {
                (Err(no_eligible_constructor_message(q)), sk)
            } else {
                (Ok(fs), sk)
            },
            Err(e) => (Err(e), sk),
        }
    }
}

/// Everything one class contributes: its constructors, its destructor,
/// its methods and, for a struct, its field accessors.
pub open spec fn spec_normalize_class(
    config: Config,
    class: CppClass,
    handle: Seq<char>,
    abstract_types: Seq<Seq<char>>,
    callbacks: Seq<Seq<char>>,
) -> (Result<Seq<IrFunctionV>, Seq<char>>, Seq<SkippedV>) {
    let (rc, sc) = spec_class_constructors(config, class, handle, callbacks);
    match rc {
        Err(e) => (Err(e), sc),
        Ok(ctors) => {
            let (rm, sm) = fold_decls(
                class.methods@,
                method_step(config, class, handle, abstract_types, callbacks),
            );
            match rm {
                Err(e) => (Err(e), sc + sm),
                Ok(ms) => (
                    Ok(
                        ctors.push(spec_destructor_fn(config, class, handle)) + ms + if class.is_struct {
                            spec_struct_field_accessors(
                                config,
                                class,
                                handle,
                                class.fields@,
                                callbacks,
                            )
                        } else {
                            Seq::empty()
                        },
                    ),
                    sc + sm,
                ),
            }
        },
    }
}

pub fn normalize_class(
    config: &Config,
    class: &CppClass,
    handle_name: &str,
    abstract_types: &[String],
    callback_names: &[String],
    skipped_declarations: &mut Vec<SkippedDeclaration>,
) -> (r: Result<Vec<IrFunction>, String>)
    ensures
        decls_result_view(r) == spec_normalize_class(
            *config,
            *class,
            handle_name@,
            text::views(abstract_types@),
            text::views(callback_names@),
        ).0,
        skipped_views(final(skipped_declarations)@) == skipped_views(old(skipped_declarations)@)
            + spec_normalize_class(
            *config,
            *class,
            handle_name@,
            text::views(abstract_types@),
            text::views(callback_names@),
        ).1,
{
    let ghost base = skipped_views(skipped_declarations@);
    let ghost spec_ctors = spec_class_constructors(
        *config,
        *class,
        handle_name@,
        text::views(callback_names@),
    );
    let qualified = cpp_qualified(&class.namespace, class.name.as_str());
    let mut functions: Vec<IrFunction>;
    if class.is_abstract {
        skip(
            skipped_declarations,
            qualified,
            owned("abstract class: has pure virtual methods; constructor wrapper omitted"),
        );
        functions = Vec::new();
        assert(function_views(functions@) =~= Seq::<IrFunctionV>::empty());
    } else if class.constructors.len() == 0 {
        if class.has_declared_constructor {
            return Err(
                text::concat3(
                    "class ",
                    qualified.as_str(),
                    " declares constructors, but none were eligible for wrapper generation; refusing to synthesize a default constructor",
                ),
            );
        }
        let no_params: Vec<IrParam> = Vec::new();
        assert(param_views(no_params@) =~= Seq::<IrParamV>::empty());
        let ctor = constructor_fn(config, class, handle_name, no_params);
        functions = Vec::new();
        functions.push(ctor);
        assert(function_views(functions@) =~= seq![ctor@]);
        assert(skipped_views(skipped_declarations@) =~= base + Seq::<SkippedV>::empty());
    } else {
        functions = normalize_constructors(
            config,
            class,
            handle_name,
            callback_names,
            skipped_declarations,
        )?;
        if functions.len() == 0 {
            return Err(
                text::concat3(
                    "class ",
                    qualified.as_str(),
                    " declares constructors, but none were eligible for wrapper generation; refusing to synthesize a default constructor",
                ),
            );
        }
    }
    assert(spec_ctors.0 == Ok::<Seq<IrFunctionV>, Seq<char>>(function_views(functions@)));
    assert(skipped_views(skipped_declarations@) == base + spec_ctors.1);
    let ghost with_ctors = function_views(functions@);
    let dtor = destructor_fn(config, class, handle_name);
    functions.push(dtor);
    assert(function_views(functions@) =~= with_ctors.push(dtor@));
    let ghost sv = skipped_views(skipped_declarations@);
    let mut methods = normalize_methods(
        config,
        class,
        handle_name,
        abstract_types,
        callback_names,
        skipped_declarations,
    )?;
    let ghost so_far = function_views(functions@);
    let ghost mv = function_views(methods@);
    functions.append(&mut methods);
    assert(function_views(functions@) =~= so_far + mv);
    if class.is_struct {
        let ghost so_far2 = function_views(functions@);
        let mut fields = normalize_struct_fields(config, class, handle_name, callback_names);
        let ghost fv = function_views(fields@);
        functions.append(&mut fields);
        assert(function_views(functions@) =~= so_far2 + fv);
    } else {
        assert(function_views(functions@) =~= function_views(functions@) + Seq::<IrFunctionV>::empty());
    }
    Ok(functions)
}


// ---------------------------------------------------------------------------
// Overload suffixes
// ---------------------------------------------------------------------------

/// ASCII letters and digits lowercased, each run of other characters
/// collapsed to one `_`.
pub open spec fn spec_symbol_token_raw(s: Seq<char>) -> Seq<char>
    decreases s.len(),
{
    if s.len() == 0 {
        Seq::empty()
    } else {
        let o = spec_symbol_token_raw(s.drop_last());
        let c = s.last();
        if text::is_ascii_alnum(c) {
            o.push(text::ascii_lower(c))
        } else if o.len() > 0 && o.last() == '_' {
            o
        } else {
            o.push('_')
        }
    }
}

/// A type spelling as a symbol token, without leading or trailing `_`.
pub open spec fn spec_sanitize_symbol_token(s: Seq<char>) -> Seq<char> {
    text::trim_char(spec_symbol_token_raw(s), '_')
}

pub fn sanitize_symbol_token(value: &str) -> (r: String)
    ensures
        r@ == spec_sanitize_symbol_token(value@),
{
    let v = chars_of(value);
    let mut out: Vec<char> = Vec::new();
    let mut last_was_underscore = false;
    let mut i: usize = 0;
    assert(v@.take(0) =~= Seq::<char>::empty());
    while i < v.len()
        invariant
            i <= v.len(),
            out@ == spec_symbol_token_raw(v@.take(i as int)),
            last_was_underscore == (out@.len() > 0 && out@.last() == '_'),
        decreases v.len() - i,
    {
        assert(v@.take(i + 1).drop_last() =~= v@.take(i as int));
        let ch = v[i];
        if text::char_is_ascii_alnum(ch) {
            let lower = text::char_ascii_lower(ch);
            out.push(lower);
            assert(lower != '_');
            last_was_underscore = false;
        } else if !last_was_underscore {
            out.push('_');
            last_was_underscore = true;
        }
        i += 1;
    }
    assert(v@.take(v.len() as int) =~= v@);
    let raw = text::string_of(&out);
    text::trim_char_str(raw.as_str(), '_')
}

/// The token that stands for one parameter type in an overload suffix.
pub open spec fn spec_type_signature_token(t: IrTypeV) -> Seq<char> {
    match t.kind {
        IrTypeKind::Primitive | IrTypeKind::Void => spec_sanitize_symbol_token(t.cpp_type),
        IrTypeKind::CString => if text::contains_str(t.cpp_type, "const"@) || t.cpp_type
            == "NPCSTR"@ || t.cpp_type == "NPSTRC"@ || t.cpp_type == "NPCSTRC"@ {
            "c_str"@
        } else {
            "mut_c_str"@
        },
        IrTypeKind::FixedByteArray => "byte_array_"@ + text::decimal(
            match spec_byte_array_length(t.cpp_type) {
                Some(n) => n as nat,
                None => 0,
            },
        ),
        IrTypeKind::String => "string"@,
        IrTypeKind::Pointer => "ptr_"@ + spec_sanitize_symbol_token(
            text::trim_end_char(t.cpp_type, '*'),
        ),
        IrTypeKind::Reference => "ref_"@ + spec_sanitize_symbol_token(
            text::trim_end_char(t.cpp_type, '&'),
        ),
        IrTypeKind::ExternStructPointer => "extern_ptr_"@ + spec_sanitize_symbol_token(
            spec_base_model_cpp_type(t.c_type),
        ),
        IrTypeKind::ExternStructReference => "extern_ref_"@ + spec_sanitize_symbol_token(
            spec_base_model_cpp_type(t.c_type),
        ),
        IrTypeKind::Opaque => "opaque_"@ + spec_sanitize_symbol_token(
            spec_base_model_cpp_type(t.cpp_type),
        ),
        IrTypeKind::ModelReference => "model_ref_"@ + spec_sanitize_symbol_token(
            spec_base_model_cpp_type(t.cpp_type),
        ),
        IrTypeKind::ModelPointer => "model_ptr_"@ + spec_sanitize_symbol_token(
            spec_base_model_cpp_type(t.cpp_type),
        ),
        IrTypeKind::ModelView => "model_view_"@ + spec_sanitize_symbol_token(
            spec_base_model_cpp_type(t.cpp_type),
        ),
        IrTypeKind::ModelValue => "model_value_"@ + spec_sanitize_symbol_token(
            spec_base_model_cpp_type(t.cpp_type),
        ),
        IrTypeKind::Callback => "callback_"@ + spec_sanitize_symbol_token(t.cpp_type),
        IrTypeKind::FixedArray => "array_"@ + text::decimal(
            match spec_parse_array_type(t.cpp_type) {
                Some((_, n)) => n as nat,
                None => 0,
            },
        ) + "_"@ + spec_sanitize_symbol_token(
            match spec_parse_array_type(t.cpp_type) {
                Some((e, _)) => e,
                None => "unknown"@,
            },
        ),
        IrTypeKind::FixedModelArray => "model_array_"@ + text::decimal(
            match spec_parse_array_type(t.cpp_type) {
                Some((_, n)) => n as nat,
                None => 0,
            },
        ) + "_"@ + spec_sanitize_symbol_token(
            match t.handle {
                Some(h) => h,
                None => "unknown"@,
            },
        ),
    }
}

pub fn type_signature_token(ty: &IrType) -> (r: String)
    ensures
        r@ == spec_type_signature_token(ty@),
{
    match ty.kind {
        IrTypeKind::Primitive | IrTypeKind::Void => sanitize_symbol_token(ty.cpp_type.as_str()),
        IrTypeKind::CString => {
            let c = ty.cpp_type.as_str();
            if text::contains_substring(c, "const") || str_eq(c, "NPCSTR") || str_eq(c, "NPSTRC")
                || str_eq(c, "NPCSTRC") {
                owned("c_str")
            } else {
                owned("mut_c_str")
            }
        },
        IrTypeKind::FixedByteArray => {
            let n = match byte_array_length(ty.cpp_type.as_str()) {
                Some(n) => n,
                None => 0,
            };
            let d = text::usize_to_string(n);
            concat2("byte_array_", d.as_str())
        },
        IrTypeKind::String => owned("string"),
        IrTypeKind::Pointer => {
            let base = text::trim_end_char_str(ty.cpp_type.as_str(), '*');
            let tok = sanitize_symbol_token(base.as_str());
            concat2("ptr_", tok.as_str())
        },
        IrTypeKind::Reference => {
            let base = text::trim_end_char_str(ty.cpp_type.as_str(), '&');
            let tok = sanitize_symbol_token(base.as_str());
            concat2("ref_", tok.as_str())
        },
        IrTypeKind::ExternStructPointer => {
            let base = base_model_cpp_type(ty.c_type.as_str());
            let tok = sanitize_symbol_token(base.as_str());
            concat2("extern_ptr_", tok.as_str())
        },
        IrTypeKind::ExternStructReference => {
            let base = base_model_cpp_type(ty.c_type.as_str());
            let tok = sanitize_symbol_token(base.as_str());
            concat2("extern_ref_", tok.as_str())
        },
        IrTypeKind::Opaque => {
            let base = base_model_cpp_type(ty.cpp_type.as_str());
            let tok = sanitize_symbol_token(base.as_str());
            concat2("opaque_", tok.as_str())
        },
        IrTypeKind::ModelReference => {
            let base = base_model_cpp_type(ty.cpp_type.as_str());
            let tok = sanitize_symbol_token(base.as_str());
            concat2("model_ref_", tok.as_str())
        },
        IrTypeKind::ModelPointer => {
            let base = base_model_cpp_type(ty.cpp_type.as_str());
            let tok = sanitize_symbol_token(base.as_str());
            concat2("model_ptr_", tok.as_str())
        },
        IrTypeKind::ModelView => {
            let base = base_model_cpp_type(ty.cpp_type.as_str());
            let tok = sanitize_symbol_token(base.as_str());
            concat2("model_view_", tok.as_str())
        },
        IrTypeKind::ModelValue => {
            let base = base_model_cpp_type(ty.cpp_type.as_str());
            let tok = sanitize_symbol_token(base.as_str());
            concat2("model_value_", tok.as_str())
        },
        IrTypeKind::Callback => {
            let tok = sanitize_symbol_token(ty.cpp_type.as_str());
            concat2("callback_", tok.as_str())
        },
        IrTypeKind::FixedArray => {
            let n = match fixed_array_length(ty.cpp_type.as_str()) {
                Some(n) => n,
                None => 0,
            };
            let elem = match fixed_array_elem_type(ty.cpp_type.as_str()) {
                Some(e) => e,
                None => owned("unknown"),
            };
            let d = text::usize_to_string(n);
            let tok = sanitize_symbol_token(elem.as_str());
            text::concat4("array_", d.as_str(), "_", tok.as_str())
        },
        IrTypeKind::FixedModelArray => {
            let n = match fixed_array_length(ty.cpp_type.as_str()) {
                Some(n) => n,
                None => 0,
            };
            let handle = match &ty.handle {
                Some(h) => h.clone(),
                None => owned("unknown"),
            };
            let d = text::usize_to_string(n);
            let tok = sanitize_symbol_token(handle.as_str());
            text::concat4("model_array_", d.as_str(), "_", tok.as_str())
        },
    }
}

/// Whether the first parameter of a wrapper is its `self` handle: true of
/// methods and destructors that belong to a class.
pub open spec fn has_self_param(f: IrFunctionV) -> bool {
    f.method_of is Some && (f.kind == IrFunctionKind::Method || f.kind == IrFunctionKind::Destructor)
}

/// A wrapper that has a `self` handle has at least one parameter.
pub open spec fn well_formed_function(f: IrFunctionV) -> bool {
    has_self_param(f) ==> f.params.len() >= 1
}

/// The parameter types that tell overloads apart (`self` left out), the
/// word `void` for none, and for methods `const` or `mut`.
pub open spec fn spec_overload_parts(f: IrFunctionV) -> Seq<Seq<char>> {
    let params = if has_self_param(f) {
        f.params.drop_first()
    } else {
        f.params
    };
    let parts = if params.len() == 0 {
        seq!["void"@]
    } else {
        params.map_values(|p: IrParamV| spec_type_signature_token(p.ty))
    };
    if f.kind == IrFunctionKind::Method {
        parts.push(
            if f.is_const == Some(true) {
                "const"@
            } else {
                "mut"@
            },
        )
    } else {
        parts
    }
}

pub open spec fn spec_overload_suffix(f: IrFunctionV) -> Seq<char> {
    text::join(spec_overload_parts(f), "_"@)
}

pub fn overload_suffix(function: &IrFunction) -> (r: String)
    requires
        well_formed_function(function@),
    ensures
        r@ == spec_overload_suffix(function@),
{
    let ghost fv = function@;
    let skip_self = function.method_of.is_some() && (function.kind == IrFunctionKind::Method
        || function.kind == IrFunctionKind::Destructor);
    let start: usize = if skip_self {
        1
    } else {
        0
    };
    let ghost params = if skip_self {
        fv.params.drop_first()
    } else {
        fv.params
    };
    assert(params =~= fv.params.skip(start as int));
    let mut parts: Vec<String> = Vec::new();
    if start == function.params.len() {
        parts.push(owned("void"));
        assert(text::views(parts@) =~= seq!["void"@]);
    } else {
        let mut i: usize = start;
        while i < function.params.len()
            invariant
                start <= i <= function.params@.len(),
                fv == function@,
                params == fv.params.skip(start as int),
                text::views(parts@) == params.take(i - start).map_values(
                    |p: IrParamV| spec_type_signature_token(p.ty),
                ),
            decreases function.params@.len() - i,
        {
            let tok = type_signature_token(&function.params[i].ty);
            let ghost before = text::views(parts@);
            parts.push(tok);
            proof {
                assert(text::views(parts@) =~= before.push(tok@));
                assert(params[i - start] == fv.params[i as int]);
                assert(params.take(i + 1 - start) =~= params.take(i - start).push(params[i - start]));
                assert(params.take(i + 1 - start).map_values(
                    |p: IrParamV| spec_type_signature_token(p.ty),
                ) =~= params.take(i - start).map_values(
                    |p: IrParamV| spec_type_signature_token(p.ty),
                ).push(spec_type_signature_token(params[i - start].ty)));
            }
            i += 1;
        }
        assert(params.take(function.params@.len() - start) =~= params);
    }
    if function.kind == IrFunctionKind::Method {
        let word = if function.is_const == Some(true) {
            owned("const")
        } else {
            owned("mut")
        };
        let ghost before = text::views(parts@);
        parts.push(word);
        assert(text::views(parts@) =~= before.push(word@));
    }
    text::join_strings(&parts, "_")
}


// ---------------------------------------------------------------------------
// Unique wrapper symbols
// ---------------------------------------------------------------------------

/// How many of the first `k` wrappers are named `name`.
pub open spec fn count_named(fs: Seq<IrFunctionV>, name: Seq<char>, k: int) -> nat
    decreases k,
{
    if k <= 0 {
        0
    } else {
        count_named(fs, name, k - 1) + if fs[k - 1].name == name {
            1nat
        } else {
            0nat
        }
    }
}

/// The overloaded name of a wrapper: its symbol, `__` and its suffix.
pub open spec fn overload_candidate(f: IrFunctionV) -> Seq<char> {
    f.name + "__"@ + spec_overload_suffix(f)
}

/// How many of the first `k` wrappers are named `name` and get the
/// overloaded name `candidate`.
pub open spec fn count_candidate(fs: Seq<IrFunctionV>, name: Seq<char>, candidate: Seq<char>, k: int) -> nat
    decreases k,
{
    if k <= 0 {
        0
    } else {
        count_candidate(fs, name, candidate, k - 1) + if fs[k - 1].name == name
            && overload_candidate(fs[k - 1]) == candidate {
            1nat
        } else {
            0nat
        }
    }
}

/// The symbol that the wrapper at `i` ends up with: unchanged where no
/// other wrapper shares it; otherwise the overloaded name, numbered from
/// its second occurrence on.
pub open spec fn spec_unique_name(fs: Seq<IrFunctionV>, i: int) -> Seq<char> {
    let f = fs[i];
    if count_named(fs, f.name, fs.len() as int) < 2 {
        f.name
    } else {
        let c = overload_candidate(f);
        let occ = count_candidate(fs, f.name, c, i + 1);
        if occ == 1 {
            c
        } else {
            c + "_"@ + text::decimal(occ)
        }
    }
}

/// The wrappers with their symbols made unique where they were shared.
pub open spec fn spec_assign_unique(fs: Seq<IrFunctionV>) -> Seq<IrFunctionV> {
    Seq::new(fs.len(), |i: int| IrFunctionV { name: spec_unique_name(fs, i), ..fs[i] })
}

/// Where no two wrappers share a symbol, making the symbols unique
/// changes nothing.
pub proof fn law_assign_unique_keeps_unique_symbols(fs: Seq<IrFunctionV>)
    requires
        names_unique(fs),
    ensures
        spec_assign_unique(fs) == fs,
{
    assert forall|i: int| 0 <= i < fs.len() implies #[trigger] spec_assign_unique(fs)[i] == fs[i] by {
        assert(count_named(fs, fs[i].name, fs.len() as int) <= 1);
    }
    assert(spec_assign_unique(fs) =~= fs);
}

pub open spec fn all_well_formed(fs: Seq<IrFunctionV>) -> bool {
    forall|i: int| 0 <= i < fs.len() ==> #[trigger] well_formed_function(fs[i])
}

/// Whether every wrapper whose symbol is shared has its `self` handle
/// where its kind says it takes one (what its signature suffix needs).
pub open spec fn shared_well_formed(fs: Seq<IrFunctionV>) -> bool {
    forall|i: int|
        0 <= i < fs.len() && count_named(fs, fs[i].name, fs.len() as int) >= 2
            ==> #[trigger] well_formed_function(fs[i])
}

pub fn assign_unique_function_symbols(functions: &mut Vec<IrFunction>)
    requires
        shared_well_formed(function_views(old(functions)@)),
    ensures
        function_views(final(functions)@) == spec_assign_unique(function_views(old(functions)@)),
{
    let ghost fs = function_views(functions@);
    let n = functions.len();
    let mut candidates: Vec<String> = Vec::new();
    let mut i: usize = 0;
    while i < n
        invariant
            n == functions@.len(),
            fs == function_views(functions@),
            shared_well_formed(fs),
            i <= n,
            candidates@.len() == i,
            forall|j: int|
                0 <= j < i && count_named(fs, fs[j].name, n as int) >= 2 ==> #[trigger] candidates@[j]@
                    == overload_candidate(fs[j]),
        decreases n - i,
    {
        assert(fs[i as int] == functions@[i as int]@);
        let shared = count_named_exec(functions.as_slice(), functions[i].name.as_str()) >= 2;
        if shared {
            assert(well_formed_function(fs[i as int]));
            let suffix = overload_suffix(&functions[i]);
            let c = text::concat3(functions[i].name.as_str(), "__", suffix.as_str());
            candidates.push(c);
        } else {
            candidates.push(String::new());
        }
        i += 1;
    }
    let mut names: Vec<String> = Vec::new();
    i = 0;
    while i < n
        invariant
            n == functions@.len(),
            fs == function_views(functions@),
            i <= n,
            candidates@.len() == n,
            forall|j: int|
                0 <= j < n && count_named(fs, fs[j].name, n as int) >= 2 ==> #[trigger] candidates@[j]@
                    == overload_candidate(fs[j]),
            names@.len() == i,
            forall|j: int| 0 <= j < i ==> #[trigger] names@[j]@ == spec_unique_name(fs, j),
        decreases n - i,
    {
        let name = functions[i].name.as_str();
        let mut total: usize = 0;
        let mut j: usize = 0;
        while j < n
            invariant
                n == functions@.len(),
                fs == function_views(functions@),
                i < n,
                name@ == fs[i as int].name,
                j <= n,
                total == count_named(fs, name@, j as int),
                total <= j,
            decreases n - j,
        {
            if str_eq(functions[j].name.as_str(), name) {
                total += 1;
            }
            j += 1;
        }
        if total < 2 {
            names.push(functions[i].name.clone());
        } else {
            let cand = candidates[i].as_str();
            let mut occ: usize = 0;
            j = 0;
            while j <= i
                invariant
                    n == functions@.len(),
                    fs == function_views(functions@),
                    i < n,
                    name@ == fs[i as int].name,
                    cand@ == overload_candidate(fs[i as int]),
                    candidates@.len() == n,
                    forall|k: int|
                        0 <= k < n && count_named(fs, fs[k].name, n as int) >= 2 ==> #[trigger] candidates@[k]@
                            == overload_candidate(fs[k]),
                    count_named(fs, name@, n as int) >= 2,
                    j <= i + 1,
                    occ == count_candidate(fs, name@, cand@, j as int),
                    occ <= j,
                decreases i + 1 - j,
            {
                if str_eq(functions[j].name.as_str(), name) && str_eq(candidates[j].as_str(), cand) {
                    occ += 1;
                }
                j += 1;
            }
            if occ == 1 {
                names.push(candidates[i].clone());
            } else {
                let d = text::usize_to_string(occ);
                names.push(text::concat3(cand, "_", d.as_str()));
            }
        }
        i += 1;
    }
    i = 0;
    while i < n
        invariant
            n == functions@.len(),
            n == fs.len(),
            i <= n,
            names@.len() == n,
            forall|j: int| 0 <= j < n ==> #[trigger] names@[j]@ == spec_unique_name(fs, j),
            forall|j: int| 0 <= j < i ==> #[trigger] function_views(functions@)[j] == spec_assign_unique(fs)[j],
            forall|j: int| i <= j < n ==> #[trigger] function_views(functions@)[j] == fs[j],
        decreases n - i,
    {
        let new_name = names[i].clone();
        let ghost before = functions@;
        let ghost nv = new_name@;
        functions[i].name = new_name;
        proof {
            assert(functions@.len() == before.len());
            assert(functions@[i as int].name@ == nv);
            assert(forall|j: int| 0 <= j < n && j != i ==> functions@[j] == before[j]);
            assert forall|j: int| 0 <= j < n && j != i implies #[trigger] function_views(functions@)[j]
                == function_views(before)[j] by {
                assert(functions@[j] == before[j]);
            }
            assert(function_views(before)[i as int] == fs[i as int]);
            assert(functions@[i as int].kind == before[i as int].kind);
            assert(functions@[i as int].params == before[i as int].params);
            assert(functions@[i as int].returns == before[i as int].returns);
            assert(function_views(functions@)[i as int] == spec_assign_unique(fs)[i as int]);
        }
        i += 1;
    }
    assert(function_views(functions@) =~= spec_assign_unique(fs));
}

/// No symbol names two wrappers.
pub open spec fn names_unique(fs: Seq<IrFunctionV>) -> bool {
    forall|i: int| 0 <= i < fs.len() ==> count_named(fs, #[trigger] fs[i].name, fs.len() as int) <= 1
}

/// The C++ names of the first `k` wrappers that are named `name`, in
/// order.
pub open spec fn origins(fs: Seq<IrFunctionV>, name: Seq<char>, k: int) -> Seq<Seq<char>>
    decreases k,
{
    if k <= 0 {
        Seq::empty()
    } else {
        origins(fs, name, k - 1) + if fs[k - 1].name == name {
            seq![fs[k - 1].cpp_name]
        } else {
            Seq::empty()
        }
    }
}

/// The symbols that name two wrappers or more, among the first `k`.
pub open spec fn duplicated_names_upto(fs: Seq<IrFunctionV>, k: int) -> Set<Seq<char>> {
    Set::new(
        |x: Seq<char>|
            exists|j: int|
                0 <= j < k && #[trigger] fs[j].name == x && count_named(fs, x, fs.len() as int) > 1,
    )
}

/// The symbols that name two wrappers or more.
pub open spec fn duplicated_names(fs: Seq<IrFunctionV>) -> Set<Seq<char>> {
    duplicated_names_upto(fs, fs.len() as int)
}

/// What the collision error says of one symbol.
pub open spec fn collision_entry(fs: Seq<IrFunctionV>, sym: Seq<char>) -> Seq<char> {
    "wrapper symbol `"@ + sym + "` collides for C++ declarations: "@ + text::join(
        origins(fs, sym, fs.len() as int),
        ", "@,
    )
}

/// The collision error for the given symbols, in the given order.
pub open spec fn collision_message(fs: Seq<IrFunctionV>, syms: Seq<Seq<char>>) -> Seq<char> {
    "overload collision detected after suffix assignment: "@ + text::join(
        syms.map_values(|x: Seq<char>| collision_entry(fs, x)),
        "; "@,
    )
}

fn count_named_exec(functions: &[IrFunction], name: &str) -> (r: usize)
    ensures
        r == count_named(function_views(functions@), name@, functions@.len() as int),
{
    let ghost fs = function_views(functions@);
    let mut total: usize = 0;
    let mut j: usize = 0;
    while j < functions.len()
        invariant
            fs == function_views(functions@),
            j <= functions@.len(),
            total == count_named(fs, name@, j as int),
            total <= j,
        decreases functions@.len() - j,
    {
        if str_eq(functions[j].name.as_str(), name) {
            total += 1;
        }
        j += 1;
    }
    total
}

fn collect_origins(functions: &[IrFunction], name: &str) -> (r: Vec<String>)
    ensures
        text::views(r@) == origins(function_views(functions@), name@, functions@.len() as int),
{
    let ghost fs = function_views(functions@);
    let mut out: Vec<String> = Vec::new();
    let mut j: usize = 0;
    while j < functions.len()
        invariant
            fs == function_views(functions@),
            j <= functions@.len(),
            text::views(out@) == origins(fs, name@, j as int),
        decreases functions@.len() - j,
    {
        let ghost before = text::views(out@);
        if str_eq(functions[j].name.as_str(), name) {
            let c = functions[j].cpp_name.clone();
            out.push(c);
            assert(text::views(out@) =~= before + seq![c@]);
        } else {
            assert(text::views(out@) =~= before + Seq::<Seq<char>>::empty());
        }
        j += 1;
    }
    out
}

pub fn ensure_unique_function_symbols(functions: &[IrFunction]) -> (r: Result<(), String>)
    ensures
        r is Ok <==> names_unique(function_views(functions@)),
        r matches Err(e) ==> exists|syms: Seq<Seq<char>>|
            sorted_strictly(syms) && syms.to_set() == duplicated_names(function_views(functions@))
                && e@ == collision_message(function_views(functions@), syms),
{
    let ghost fs = function_views(functions@);
    let n = functions.len();
    let mut dups: Vec<String> = Vec::new();
    let mut i: usize = 0;
    assert(text::views(dups@).to_set() =~= duplicated_names_upto(fs, 0));
    while i < n
        invariant
            n == functions@.len(),
            fs == function_views(functions@),
            i <= n,
            sorted_strictly(text::views(dups@)),
            text::views(dups@).to_set() == duplicated_names_upto(fs, i as int),
        decreases n - i,
    {
        let name = functions[i].name.as_str();
        let total = count_named_exec(functions, name);
        let ghost before = text::views(dups@).to_set();
        if total > 1 && !contains_string(&dups, name) {
            insert_sorted(&mut dups, functions[i].name.clone());
        }
        proof {
            let now = text::views(dups@).to_set();
            assert forall|x: Seq<char>| #[trigger] now.contains(x) == duplicated_names_upto(
                fs,
                i + 1,
            ).contains(x) by {
                if duplicated_names_upto(fs, i + 1).contains(x) {
                    let j = choose|j: int|
                        0 <= j < i + 1 && #[trigger] fs[j].name == x && count_named(
                            fs,
                            x,
                            fs.len() as int,
                        ) > 1;
                    if j < i {
                        assert(duplicated_names_upto(fs, i as int).contains(x));
                    }
                }
                if duplicated_names_upto(fs, i as int).contains(x) {
                    let j = choose|j: int|
                        0 <= j < i && #[trigger] fs[j].name == x && count_named(
                            fs,
                            x,
                            fs.len() as int,
                        ) > 1;
                    assert(duplicated_names_upto(fs, i + 1).contains(x));
                }
                if total > 1 && x == name@ {
                    assert(fs[i as int].name == x);
                    assert(duplicated_names_upto(fs, i + 1).contains(x));
                }
            }
            assert(now =~= duplicated_names_upto(fs, i + 1));
        }
        i += 1;
    }
    if dups.len() == 0 {
        proof {
            assert forall|k: int| 0 <= k < fs.len() implies count_named(
                fs,
                #[trigger] fs[k].name,
                fs.len() as int,
            ) <= 1 by {
                if count_named(fs, fs[k].name, fs.len() as int) > 1 {
                    assert(duplicated_names(fs).contains(fs[k].name));
                    assert(text::views(dups@).to_set().contains(fs[k].name));
                }
            }
        }
        return Ok(());
    }
    proof {
        let x = text::views(dups@)[0];
        assert(text::views(dups@).to_set().contains(x));
        let j = choose|j: int|
            0 <= j < n && #[trigger] fs[j].name == x && count_named(fs, x, fs.len() as int) > 1;
        assert(!names_unique(fs));
    }
    let ghost syms = text::views(dups@);
    let mut entries: Vec<String> = Vec::new();
    let mut k: usize = 0;
    while k < dups.len()
        invariant
            fs == function_views(functions@),
            syms == text::views(dups@),
            k <= dups@.len(),
            text::views(entries@) == syms.take(k as int).map_values(
                |x: Seq<char>| collision_entry(fs, x),
            ),
        decreases dups@.len() - k,
    {
        let sym = dups[k].as_str();
        let from = collect_origins(functions, sym);
        let joined = text::join_strings(&from, ", ");
        let entry = text::concat4(
            "wrapper symbol `",
            sym,
            "` collides for C++ declarations: ",
            joined.as_str(),
        );
        let ghost before = text::views(entries@);
        entries.push(entry);
        proof {
            assert(text::views(entries@) =~= before.push(entry@));
            assert(syms.take(k + 1).map_values(|x: Seq<char>| collision_entry(fs, x))
                =~= syms.take(k as int).map_values(|x: Seq<char>| collision_entry(fs, x)).push(
                collision_entry(fs, syms[k as int]),
            ));
        }
        k += 1;
    }
    assert(syms.take(dups@.len() as int) =~= syms);
    let message = text::join_strings(&entries, "; ");
    Err(concat2("overload collision detected after suffix assignment: ", message.as_str()))
}


// ---------------------------------------------------------------------------
// Name sets of a parsed API
// ---------------------------------------------------------------------------

/// The names by which callback typedefs are known: each typedef's own name
/// and its qualified name.
pub open spec fn spec_callback_names(callbacks: Seq<CppCallbackTypedef>) -> Seq<Seq<char>>
    decreases callbacks.len(),
{
    if callbacks.len() == 0 {
        Seq::empty()
    } else {
        let c = callbacks.last();
        spec_callback_names(callbacks.drop_last()) + seq![
            c.name@,
            spec_cpp_qualified(text::views(c.namespace@), c.name@),
        ]
    }
}

pub fn callback_name_set(api: &ParsedApi) -> (r: Vec<String>)
    ensures
        text::views(r@) == spec_callback_names(api.callbacks@),
{
    let ghost items = api.callbacks@;
    let mut out: Vec<String> = Vec::new();
    let mut i: usize = 0;
    assert(items.take(0) =~= Seq::<CppCallbackTypedef>::empty());
    while i < api.callbacks.len()
        invariant
            items == api.callbacks@,
            i <= items.len(),
            text::views(out@) == spec_callback_names(items.take(i as int)),
        decreases items.len() - i,
    {
        assert(items.take(i + 1).drop_last() =~= items.take(i as int));
        assert(items.take(i + 1).last() == items[i as int]);
        let c = &api.callbacks[i];
        let name = c.name.clone();
        let qualified = cpp_qualified(&c.namespace, c.name.as_str());
        let ghost before = text::views(out@);
        out.push(name);
        out.push(qualified);
        assert(text::views(out@) =~= before + seq![name@, qualified@]);
        i += 1;
    }
    assert(items.take(items.len() as int) =~= items);
    out
}

/// The qualified names of the abstract classes, in order.
pub open spec fn spec_abstract_names(classes: Seq<CppClass>) -> Seq<Seq<char>>
    decreases classes.len(),
{
    if classes.len() == 0 {
        Seq::empty()
    } else {
        spec_abstract_names(classes.drop_last()) + if classes.last().is_abstract {
            seq![class_qualified(classes.last())]
        } else {
            Seq::empty()
        }
    }
}

pub fn abstract_type_names(api: &ParsedApi) -> (r: Vec<String>)
    ensures
        text::views(r@) == spec_abstract_names(api.classes@),
{
    let ghost items = api.classes@;
    let mut out: Vec<String> = Vec::new();
    let mut i: usize = 0;
    assert(items.take(0) =~= Seq::<CppClass>::empty());
    while i < api.classes.len()
        invariant
            items == api.classes@,
            i <= items.len(),
            text::views(out@) == spec_abstract_names(items.take(i as int)),
        decreases items.len() - i,
    {
        assert(items.take(i + 1).drop_last() =~= items.take(i as int));
        assert(items.take(i + 1).last() == items[i as int]);
        let c = &api.classes[i];
        let ghost before = text::views(out@);
        if c.is_abstract {
            let q = cpp_qualified(&c.namespace, c.name.as_str());
            out.push(q);
            assert(text::views(out@) =~= before + seq![q@]);
        } else {
            assert(text::views(out@) =~= before + Seq::<Seq<char>>::empty());
        }
        i += 1;
    }
    assert(items.take(items.len() as int) =~= items);
    out
}

// ---------------------------------------------------------------------------
// Opaque handle types
// ---------------------------------------------------------------------------

/// The return type and the parameter types of each wrapper, in order.
pub open spec fn spec_all_types(fs: Seq<IrFunctionV>) -> Seq<IrTypeV>
    decreases fs.len(),
{
    if fs.len() == 0 {
        Seq::empty()
    } else {
        spec_all_types(fs.drop_last()) + seq![fs.last().returns] + fs.last().params.map_values(
            |p: IrParamV| p.ty,
        )
    }
}

/// The handle types, extended by each model handle that a type refers to
/// and that is not yet known.
pub open spec fn spec_collect_opaque(
    init: Seq<(Seq<char>, Seq<char>)>,
    types: Seq<IrTypeV>,
) -> Seq<(Seq<char>, Seq<char>)>
    decreases types.len(),
{
    if types.len() == 0 {
        init
    } else {
        let out = spec_collect_opaque(init, types.drop_last());
        let t = types.last();
        match t.handle {
            Some(h) => if !out.map_values(|o: (Seq<char>, Seq<char>)| o.0).contains(h)
                && is_model_kind(t.kind) {
                out.push((h, spec_base_model_cpp_type(t.cpp_type)))
            } else {
                out
            },
            None => out,
        }
    }
}

pub fn flat_types_of(functions: &[IrFunction]) -> (r: Vec<IrType>)
    ensures
        r@.map_values(|t: IrType| t@) == spec_all_types(function_views(functions@)),
{
    let ghost fs = function_views(functions@);
    let mut out: Vec<IrType> = Vec::new();
    let mut i: usize = 0;
    assert(fs.take(0) =~= Seq::<IrFunctionV>::empty());
    while i < functions.len()
        invariant
            fs == function_views(functions@),
            i <= functions@.len(),
            out@.map_values(|t: IrType| t@) == spec_all_types(fs.take(i as int)),
        decreases functions@.len() - i,
    {
        assert(fs.take(i + 1).drop_last() =~= fs.take(i as int));
        assert(fs.take(i + 1).last() == fs[i as int]);
        let f = &functions[i];
        let ghost start = out@.map_values(|t: IrType| t@);
        let r = copy_type(&f.returns);
        out.push(r);
        assert(out@.map_values(|t: IrType| t@) =~= start + seq![f.returns@]);
        let ghost mid = out@.map_values(|t: IrType| t@);
        let ghost pv = fs[i as int].params.map_values(|p: IrParamV| p.ty);
        let mut j: usize = 0;
        while j < f.params.len()
            invariant
                fs == function_views(functions@),
                i < functions@.len(),
                *f == functions@[i as int],
                pv == fs[i as int].params.map_values(|p: IrParamV| p.ty),
                j <= f.params@.len(),
                out@.map_values(|t: IrType| t@) == mid + pv.take(j as int),
            decreases f.params@.len() - j,
        {
            let t = copy_type(&f.params[j].ty);
            let ghost before = out@.map_values(|t: IrType| t@);
            out.push(t);
            proof {
                assert(out@.map_values(|t: IrType| t@) =~= before.push(t@));
                assert(fs[i as int].params[j as int] == f.params@[j as int]@);
                assert(pv.take(j + 1) =~= pv.take(j as int).push(pv[j as int]));
            }
            j += 1;
        }
        assert(pv.take(f.params@.len() as int) =~= pv);
        i += 1;
    }
    assert(fs.take(functions@.len() as int) =~= fs);
    out
}

pub fn collect_referenced_opaque_types(opaque_types: &mut Vec<OpaqueType>, functions: &[IrFunction])
    ensures
        opaque_views(final(opaque_types)@) == spec_collect_opaque(
            opaque_views(old(opaque_types)@),
            spec_all_types(function_views(functions@)),
        ),
{
    let ghost init = opaque_views(opaque_types@);
    let types = flat_types_of(functions);
    let ghost tv = types@.map_values(|t: IrType| t@);
    let mut known: Vec<String> = Vec::new();
    let mut k: usize = 0;
    while k < opaque_types.len()
        invariant
            init == opaque_views(opaque_types@),
            k <= opaque_types@.len(),
            text::views(known@) == init.take(k as int).map_values(
                |o: (Seq<char>, Seq<char>)| o.0,
            ),
        decreases opaque_types@.len() - k,
    {
        let n = opaque_types[k].name.clone();
        let ghost before = text::views(known@);
        known.push(n);
        assert(text::views(known@) =~= before.push(n@));
        assert(init.take(k + 1).map_values(|o: (Seq<char>, Seq<char>)| o.0) =~= init.take(
            k as int,
        ).map_values(|o: (Seq<char>, Seq<char>)| o.0).push(init[k as int].0));
        k += 1;
    }
    assert(init.take(opaque_types@.len() as int) =~= init);
    let mut i: usize = 0;
    assert(tv.take(0) =~= Seq::<IrTypeV>::empty());
    while i < types.len()
        invariant
            tv == types@.map_values(|t: IrType| t@),
            i <= types@.len(),
            opaque_views(opaque_types@) == spec_collect_opaque(init, tv.take(i as int)),
            text::views(known@) == opaque_views(opaque_types@).map_values(
                |o: (Seq<char>, Seq<char>)| o.0,
            ),
        decreases types@.len() - i,
    {
        assert(tv.take(i + 1).drop_last() =~= tv.take(i as int));
        assert(tv.take(i + 1).last() == tv[i as int]);
        let t = &types[i];
        if let Some(h) = &t.handle {
            let k = t.kind;
            if !contains_string(&known, h.as_str()) && (k == IrTypeKind::ModelReference || k
                == IrTypeKind::ModelPointer || k == IrTypeKind::ModelValue) {
                let ghost before = opaque_views(opaque_types@);
                let o = OpaqueType { name: h.clone(), cpp_type: base_model_cpp_type(t.cpp_type.as_str()) };
                opaque_types.push(o);
                let ghost kb = text::views(known@);
                known.push(h.clone());
                proof {
                    assert(opaque_views(opaque_types@) =~= before.push(o@));
                    assert(text::views(known@) =~= kb.push(h@));
                    assert(opaque_views(opaque_types@).map_values(|o: (Seq<char>, Seq<char>)| o.0)
                        =~= before.map_values(|o: (Seq<char>, Seq<char>)| o.0).push(o@.0));
                }
            }
        }
        i += 1;
    }
    assert(tv.take(types@.len() as int) =~= tv);
}


// ---------------------------------------------------------------------------
// Every member wrapper takes its `self` handle first
// ---------------------------------------------------------------------------

proof fn lemma_all_well_formed_concat(a: Seq<IrFunctionV>, b: Seq<IrFunctionV>)
    requires
        all_well_formed(a),
        all_well_formed(b),
    ensures
        all_well_formed(a + b),
{
    assert forall|i: int| 0 <= i < (a + b).len() implies #[trigger] well_formed_function((a + b)[i]) by {
        if i < a.len() {
            assert((a + b)[i] == a[i]);
        } else {
            assert((a + b)[i] == b[i - a.len()]);
        }
    }
}

proof fn lemma_fold_decls_well_formed<A>(items: Seq<A>, f: spec_fn(A) -> DeclStep)
    requires
        forall|x: A| (#[trigger] f(x)).0 matches Ok(Some(g)) ==> well_formed_function(g),
    ensures
        fold_decls(items, f).0 matches Ok(fs) ==> all_well_formed(fs),
    decreases items.len(),
{
    if items.len() > 0 {
        lemma_fold_decls_well_formed(items.drop_last(), f);
        let step = f(items.last());
        if fold_decls(items.drop_last(), f).0 is Ok {
            let done = fold_decls(items.drop_last(), f).0->Ok_0;
            if step.0 is Ok && step.0->Ok_0 is Some {
                let g = step.0->Ok_0->Some_0;
                assert(well_formed_function(g));
                assert forall|i: int| 0 <= i < done.push(g).len() implies #[trigger] well_formed_function(
                    done.push(g)[i],
                ) by {
                    if i < done.len() {
                        assert(done.push(g)[i] == done[i]);
                    }
                }
            }
        }
    }
}

proof fn lemma_ctor_step_well_formed(config: Config, class: CppClass, handle: Seq<char>, callbacks: Seq<Seq<char>>)
    ensures
        forall|x: CppConstructor|
            (#[trigger] ctor_step(config, class, handle, callbacks)(x)).0 matches Ok(Some(g))
                ==> well_formed_function(g),
{
    reveal(spec_normalize_constructor);
}

proof fn lemma_method_step_well_formed(
    config: Config,
    class: CppClass,
    handle: Seq<char>,
    abstract_types: Seq<Seq<char>>,
    callbacks: Seq<Seq<char>>,
)
    ensures
        forall|x: CppMethod|
            (#[trigger] method_step(config, class, handle, abstract_types, callbacks)(x)).0 matches Ok(
                Some(g),
            ) ==> well_formed_function(g),
{
    reveal(spec_normalize_method);
}

proof fn lemma_function_step_well_formed(
    config: Config,
    abstract_types: Seq<Seq<char>>,
    callbacks: Seq<Seq<char>>,
)
    ensures
        forall|x: CppFunction|
            (#[trigger] function_step(config, abstract_types, callbacks)(x)).0 matches Ok(Some(g))
                ==> well_formed_function(g),
{
    reveal(spec_normalize_function);
}

proof fn lemma_field_accessors_well_formed(
    config: Config,
    class: CppClass,
    handle: Seq<char>,
    fields: Seq<CppField>,
    callbacks: Seq<Seq<char>>,
)
    ensures
        all_well_formed(spec_struct_field_accessors(config, class, handle, fields, callbacks)),
    decreases fields.len(),
{
    if fields.len() > 0 {
        lemma_field_accessors_well_formed(config, class, handle, fields.drop_last(), callbacks);
        let last = spec_field_accessors(config, class, handle, fields.last(), callbacks);
        assert(all_well_formed(last));
        lemma_all_well_formed_concat(
            spec_struct_field_accessors(config, class, handle, fields.drop_last(), callbacks),
            last,
        );
    }
}

proof fn lemma_class_well_formed(
    config: Config,
    class: CppClass,
    handle: Seq<char>,
    abstract_types: Seq<Seq<char>>,
    callbacks: Seq<Seq<char>>,
)
    ensures
        spec_normalize_class(config, class, handle, abstract_types, callbacks).0 matches Ok(fs)
            ==> all_well_formed(fs),
{
    lemma_ctor_step_well_formed(config, class, handle, callbacks);
    lemma_fold_decls_well_formed(class.constructors@, ctor_step(config, class, handle, callbacks));
    lemma_method_step_well_formed(config, class, handle, abstract_types, callbacks);
    lemma_fold_decls_well_formed(
        class.methods@,
        method_step(config, class, handle, abstract_types, callbacks),
    );
    lemma_field_accessors_well_formed(config, class, handle, class.fields@, callbacks);
    let (rc, sc) = spec_class_constructors(config, class, handle, callbacks);
    let (rm, sm) = fold_decls(class.methods@, method_step(config, class, handle, abstract_types, callbacks));
    if rc is Ok && rm is Ok {
        let ctors = rc->Ok_0;
        let ms = rm->Ok_0;
        assert(all_well_formed(ctors)) by {
            if !class.is_abstract && class.constructors@.len() == 0 {
                assert(all_well_formed(seq![spec_constructor_fn(config, class, handle, Seq::empty())]));
            }
        }
        let d = spec_destructor_fn(config, class, handle);
        assert(all_well_formed(seq![d]));
        lemma_all_well_formed_concat(ctors, seq![d]);
        assert(ctors.push(d) =~= ctors + seq![d]);
        lemma_all_well_formed_concat(ctors.push(d), ms);
        let extra = if class.is_struct {
            spec_struct_field_accessors(config, class, handle, class.fields@, callbacks)
        } else {
            Seq::empty()
        };
        assert(all_well_formed(extra));
        lemma_all_well_formed_concat(ctors.push(d) + ms, extra);
    }
}

// ---------------------------------------------------------------------------
// Every wrapper symbol starts with the configured prefix
// ---------------------------------------------------------------------------

/// Whether a symbol starts with the configured prefix and `_`.
pub open spec fn prefixed(config: Config, name: Seq<char>) -> bool {
    text::starts_with(name, config.naming.prefix@ + "_"@)
}

/// Whether every wrapper's symbol starts with the configured prefix.
pub open spec fn all_prefixed(config: Config, fs: Seq<IrFunctionV>) -> bool {
    forall|i: int| 0 <= i < fs.len() ==> prefixed(config, #[trigger] fs[i].name)
}

proof fn lemma_starts_with_extend(a: Seq<char>, b: Seq<char>, p: Seq<char>)
    requires
        text::starts_with(a, p),
    ensures
        text::starts_with(a + b, p),
{
    assert((a + b).take(p.len() as int) =~= a.take(p.len() as int));
}

proof fn lemma_join_starts(parts: Seq<Seq<char>>, sep: Seq<char>)
    requires
        parts.len() >= 2,
    ensures
        text::starts_with(text::join(parts, sep), parts[0] + sep),
    decreases parts.len(),
{
    let d = parts.drop_last();
    if parts.len() == 2 {
        assert(text::join(d, sep) == d[0]);
        let j = text::join(parts, sep);
        assert(j == d[0] + sep + parts.last());
        assert(j.take((parts[0] + sep).len() as int) =~= parts[0] + sep);
    } else {
        lemma_join_starts(d, sep);
        assert(d[0] == parts[0]);
        lemma_starts_with_extend(text::join(d, sep), sep, parts[0] + sep);
        lemma_starts_with_extend(text::join(d, sep) + sep, parts.last(), parts[0] + sep);
    }
}

proof fn lemma_symbols_prefixed(config: Config)
    ensures
        forall|ns: Seq<Seq<char>>, owner: Seq<char>, tail: Seq<char>|
            prefixed(config, #[trigger] spec_symbol_name(config, ns, owner, tail)),
{
    assert forall|ns: Seq<Seq<char>>, owner: Seq<char>, tail: Seq<char>|
        prefixed(config, #[trigger] spec_symbol_name(config, ns, owner, tail)) by {
        let parts = spec_symbol_parts(config, ns, owner, tail);
        assert(parts[0] == config.naming.prefix@);
        lemma_join_starts(parts, "_"@);
    }
}

proof fn lemma_all_prefixed_concat(config: Config, a: Seq<IrFunctionV>, b: Seq<IrFunctionV>)
    requires
        all_prefixed(config, a),
        all_prefixed(config, b),
    ensures
        all_prefixed(config, a + b),
{
    assert forall|i: int| 0 <= i < (a + b).len() implies prefixed(config, #[trigger] (a + b)[i].name) by {
        if i < a.len() {
            assert((a + b)[i] == a[i]);
        } else {
            assert((a + b)[i] == b[i - a.len()]);
        }
    }
}

proof fn lemma_fold_decls_prefixed<A>(config: Config, items: Seq<A>, f: spec_fn(A) -> DeclStep)
    requires
        forall|x: A| (#[trigger] f(x)).0 matches Ok(Some(g)) ==> prefixed(config, g.name),
    ensures
        fold_decls(items, f).0 matches Ok(fs) ==> all_prefixed(config, fs),
    decreases items.len(),
{
    if items.len() > 0 {
        lemma_fold_decls_prefixed(config, items.drop_last(), f);
        let step = f(items.last());
        if fold_decls(items.drop_last(), f).0 is Ok {
            let done = fold_decls(items.drop_last(), f).0->Ok_0;
            if step.0 is Ok && step.0->Ok_0 is Some {
                let g = step.0->Ok_0->Some_0;
                assert(prefixed(config, g.name));
                assert forall|i: int| 0 <= i < done.push(g).len() implies prefixed(
                    config,
                    #[trigger] done.push(g)[i].name,
                ) by {
                    if i < done.len() {
                        assert(done.push(g)[i] == done[i]);
                    }
                }
            }
        }
    }
}

proof fn lemma_field_accessors_prefixed(
    config: Config,
    class: CppClass,
    handle: Seq<char>,
    fields: Seq<CppField>,
    callbacks: Seq<Seq<char>>,
)
    ensures
        all_prefixed(config, spec_struct_field_accessors(config, class, handle, fields, callbacks)),
    decreases fields.len(),
{
    lemma_symbols_prefixed(config);
    if fields.len() > 0 {
        lemma_field_accessors_prefixed(config, class, handle, fields.drop_last(), callbacks);
        let last = spec_field_accessors(config, class, handle, fields.last(), callbacks);
        assert(all_prefixed(config, last));
        lemma_all_prefixed_concat(
            config,
            spec_struct_field_accessors(config, class, handle, fields.drop_last(), callbacks),
            last,
        );
    }
}

proof fn lemma_class_prefixed(
    config: Config,
    class: CppClass,
    handle: Seq<char>,
    abstract_types: Seq<Seq<char>>,
    callbacks: Seq<Seq<char>>,
)
    ensures
        spec_normalize_class(config, class, handle, abstract_types, callbacks).0 matches Ok(fs)
            ==> all_prefixed(config, fs),
{
    lemma_symbols_prefixed(config);
    reveal(spec_normalize_constructor);
    reveal(spec_normalize_method);
    lemma_fold_decls_prefixed(config, class.constructors@, ctor_step(config, class, handle, callbacks));
    lemma_fold_decls_prefixed(
        config,
        class.methods@,
        method_step(config, class, handle, abstract_types, callbacks),
    );
    lemma_field_accessors_prefixed(config, class, handle, class.fields@, callbacks);
    let (rc, sc) = spec_class_constructors(config, class, handle, callbacks);
    let (rm, sm) = fold_decls(class.methods@, method_step(config, class, handle, abstract_types, callbacks));
    if rc is Ok && rm is Ok {
        let ctors = rc->Ok_0;
        let ms = rm->Ok_0;
        assert(all_prefixed(config, ctors)) by {
            if !class.is_abstract && class.constructors@.len() == 0 {
                assert(all_prefixed(config, seq![spec_constructor_fn(config, class, handle, Seq::empty())]));
            }
        }
        let d = spec_destructor_fn(config, class, handle);
        assert(all_prefixed(config, seq![d]));
        lemma_all_prefixed_concat(config, ctors, seq![d]);
        assert(ctors.push(d) =~= ctors + seq![d]);
        lemma_all_prefixed_concat(config, ctors.push(d), ms);
        let extra = if class.is_struct {
            spec_struct_field_accessors(config, class, handle, class.fields@, callbacks)
        } else {
            Seq::empty()
        };
        assert(all_prefixed(config, extra));
        lemma_all_prefixed_concat(config, ctors.push(d) + ms, extra);
    }
}

proof fn lemma_fold_classes_prefixed(
    config: Config,
    classes: Seq<CppClass>,
    abstract_types: Seq<Seq<char>>,
    callbacks: Seq<Seq<char>>,
)
    ensures
        fold_classes(config, classes, abstract_types, callbacks).0 matches Ok(fs) ==> all_prefixed(
            config,
            fs,
        ),
    decreases classes.len(),
{
    if classes.len() > 0 {
        lemma_fold_classes_prefixed(config, classes.drop_last(), abstract_types, callbacks);
        let c = classes.last();
        lemma_class_prefixed(config, c, class_handle_name(c), abstract_types, callbacks);
        let r0 = fold_classes(config, classes.drop_last(), abstract_types, callbacks).0;
        let r1 = spec_normalize_class(config, c, class_handle_name(c), abstract_types, callbacks).0;
        if r0 is Ok && r1 is Ok {
            lemma_all_prefixed_concat(config, r0->Ok_0, r1->Ok_0);
        }
    }
}

proof fn lemma_assign_unique_prefixed(config: Config, fs: Seq<IrFunctionV>)
    requires
        all_prefixed(config, fs),
    ensures
        all_prefixed(config, spec_assign_unique(fs)),
{
    let p = config.naming.prefix@ + "_"@;
    assert forall|i: int| 0 <= i < spec_assign_unique(fs).len() implies prefixed(
        config,
        #[trigger] spec_assign_unique(fs)[i].name,
    ) by {
        let f = fs[i];
        assert(prefixed(config, f.name));
        let c = overload_candidate(f);
        lemma_starts_with_extend(f.name, "__"@, p);
        lemma_starts_with_extend(f.name + "__"@, spec_overload_suffix(f), p);
        if count_named(fs, f.name, fs.len() as int) >= 2 {
            let occ = count_candidate(fs, f.name, c, i + 1);
            if occ != 1 {
                lemma_starts_with_extend(c, "_"@, p);
                lemma_starts_with_extend(c + "_"@, text::decimal(occ), p);
            }
        }
    }
}

/// Every wrapper symbol that normalization produces starts with the
/// configured prefix and `_`.
pub proof fn law_normalized_symbols_prefixed(config: Config, api: ParsedApi)
    requires
        spec_normalize_pre(config, api) is Ok,
    ensures
        all_prefixed(config, spec_assign_unique(spec_normalize_pre(config, api)->Ok_0.0)),
{
    let abs = spec_abstract_names(api.classes@);
    let cbs = spec_callback_names(api.callbacks@);
    lemma_fold_classes_prefixed(config, api.classes@, abs, cbs);
    lemma_symbols_prefixed(config);
    reveal(spec_normalize_function);
    lemma_fold_decls_prefixed(config, api.functions@, function_step(config, abs, cbs));
    let cf = fold_classes(config, api.classes@, abs, cbs).0->Ok_0;
    let ff = fold_decls(api.functions@, function_step(config, abs, cbs)).0->Ok_0;
    lemma_all_prefixed_concat(config, cf, ff);
    lemma_assign_unique_prefixed(config, cf + ff);
}

// ---------------------------------------------------------------------------
// Every declaration is wrapped or recorded as skipped
// ---------------------------------------------------------------------------

/// Whether a C++ declaration has a wrapper or is recorded as skipped.
pub open spec fn accounted(fs: Seq<IrFunctionV>, skipped: Seq<SkippedV>, cpp_name: Seq<char>) -> bool {
    (exists|i: int| 0 <= i < fs.len() && #[trigger] fs[i].cpp_name == cpp_name) || (exists|j: int|
        0 <= j < skipped.len() && #[trigger] skipped[j].0 == cpp_name)
}

/// Whether one step wraps its declaration under `key`, or skips it and
/// records that name.
pub open spec fn step_accounts<A>(f: spec_fn(A) -> DeclStep, key: spec_fn(A) -> Seq<char>, a: A) -> bool {
    match f(a).0 {
        Ok(Some(g)) => g.cpp_name == key(a),
        Ok(None) => exists|j: int| 0 <= j < f(a).1.len() && #[trigger] f(a).1[j].0 == key(a),
        Err(_) => true,
    }
}

proof fn lemma_accounted_embed(
    pre: Seq<IrFunctionV>,
    fs: Seq<IrFunctionV>,
    post: Seq<IrFunctionV>,
    spre: Seq<SkippedV>,
    ss: Seq<SkippedV>,
    spost: Seq<SkippedV>,
    name: Seq<char>,
)
    requires
        accounted(fs, ss, name),
    ensures
        accounted(pre + fs + post, spre + ss + spost, name),
{
    let big = pre + fs + post;
    let sbig = spre + ss + spost;
    if exists|i: int| 0 <= i < fs.len() && #[trigger] fs[i].cpp_name == name {
        let i = choose|i: int| 0 <= i < fs.len() && #[trigger] fs[i].cpp_name == name;
        assert(big[pre.len() + i] == fs[i]);
        assert(big[pre.len() + i].cpp_name == name);
    } else {
        let j = choose|j: int| 0 <= j < ss.len() && #[trigger] ss[j].0 == name;
        assert(sbig[spre.len() + j] == ss[j]);
        assert(sbig[spre.len() + j].0 == name);
    }
}

proof fn lemma_fold_decls_accounts<A>(items: Seq<A>, f: spec_fn(A) -> DeclStep, key: spec_fn(A) -> Seq<char>)
    requires
        forall|a: A| #[trigger] step_accounts(f, key, a),
    ensures
        fold_decls(items, f).0 is Ok ==> forall|k: int|
            0 <= k < items.len() ==> accounted(
                fold_decls(items, f).0->Ok_0,
                fold_decls(items, f).1,
                #[trigger] key(items[k]),
            ),
    decreases items.len(),
{
    if items.len() > 0 && fold_decls(items, f).0 is Ok {
        let pre = items.drop_last();
        lemma_fold_decls_accounts(pre, f, key);
        let (r0, s0) = fold_decls(pre, f);
        let done = r0->Ok_0;
        let a = items.last();
        let (r1, s1) = f(a);
        assert(step_accounts(f, key, a));
        let fs = fold_decls(items, f).0->Ok_0;
        let ss = fold_decls(items, f).1;
        let added: Seq<IrFunctionV> = match r1 {
            Ok(Some(g)) => seq![g],
            _ => Seq::empty(),
        };
        assert(fs =~= done + added + Seq::<IrFunctionV>::empty());
        assert(ss =~= s0 + s1 + Seq::<SkippedV>::empty());
        assert forall|k: int| 0 <= k < items.len() implies accounted(fs, ss, #[trigger] key(items[k])) by {
            if k < pre.len() {
                assert(pre[k] == items[k]);
                lemma_accounted_embed(
                    Seq::empty(),
                    done,
                    added,
                    Seq::empty(),
                    s0,
                    s1,
                    key(items[k]),
                );
                assert(Seq::<IrFunctionV>::empty() + done + added =~= fs);
                assert(Seq::<SkippedV>::empty() + s0 + s1 =~= ss);
            } else {
                assert(items[k] == a);
                match r1 {
                    Ok(Some(g)) => {
                        assert(fs[done.len() as int] == g);
                    },
                    _ => {
                        let j = choose|j: int| 0 <= j < s1.len() && #[trigger] s1[j].0 == key(a);
                        assert(ss[s0.len() + j] == s1[j]);
                    },
                }
            }
        }
    }
}

/// The qualified C++ name of a method.
pub open spec fn method_qualified(class: CppClass, m: CppMethod) -> Seq<char> {
    class_qualified(class) + "::"@ + m.name@
}

/// The qualified C++ name of a free function.
pub open spec fn function_qualified(f: CppFunction) -> Seq<char> {
    spec_cpp_qualified(text::views(f.namespace@), f.name@)
}

/// The qualified name of each method of a class.
pub open spec fn method_key(class: CppClass) -> spec_fn(CppMethod) -> Seq<char> {
    |m: CppMethod| method_qualified(class, m)
}

/// The qualified name of each free function.
pub open spec fn function_key() -> spec_fn(CppFunction) -> Seq<char> {
    |f: CppFunction| function_qualified(f)
}

proof fn lemma_method_step_accounts(
    config: Config,
    class: CppClass,
    handle: Seq<char>,
    abstract_types: Seq<Seq<char>>,
    callbacks: Seq<Seq<char>>,
    m: CppMethod,
)
    ensures
        step_accounts(method_step(config, class, handle, abstract_types, callbacks), method_key(class), m),
{
    reveal(spec_normalize_method);
    let r = spec_normalize_method(config, class, handle, m, abstract_types, callbacks);
    if r.0 matches Ok(None) {
        assert(r.1[0].0 == method_qualified(class, m));
    }
}

proof fn lemma_function_step_accounts(
    config: Config,
    abstract_types: Seq<Seq<char>>,
    callbacks: Seq<Seq<char>>,
    f: CppFunction,
)
    ensures
        step_accounts(function_step(config, abstract_types, callbacks), function_key(), f),
{
    reveal(spec_normalize_function);
    let r = spec_normalize_function(config, f, abstract_types, callbacks);
    if r.0 matches Ok(None) {
        assert(r.1[0].0 == function_qualified(f));
    }
}

proof fn lemma_class_methods_accounted(
    config: Config,
    class: CppClass,
    handle: Seq<char>,
    abstract_types: Seq<Seq<char>>,
    callbacks: Seq<Seq<char>>,
)
    ensures
        spec_normalize_class(config, class, handle, abstract_types, callbacks).0 is Ok ==> forall|k: int|
            0 <= k < class.methods@.len() ==> accounted(
                spec_normalize_class(config, class, handle, abstract_types, callbacks).0->Ok_0,
                spec_normalize_class(config, class, handle, abstract_types, callbacks).1,
                #[trigger] method_qualified(class, class.methods@[k]),
            ),
{
    let f = method_step(config, class, handle, abstract_types, callbacks);
    let key = method_key(class);
    assert forall|m: CppMethod| #[trigger] step_accounts(f, key, m) by {
        lemma_method_step_accounts(config, class, handle, abstract_types, callbacks, m);
    }
    lemma_fold_decls_accounts(class.methods@, f, key);
    let (rc, sc) = spec_class_constructors(config, class, handle, callbacks);
    let (rm, sm) = fold_decls(class.methods@, f);
    let r = spec_normalize_class(config, class, handle, abstract_types, callbacks);
    if r.0 is Ok {
        let ctors = rc->Ok_0;
        let ms = rm->Ok_0;
        let d = spec_destructor_fn(config, class, handle);
        let extra = if class.is_struct {
            spec_struct_field_accessors(config, class, handle, class.fields@, callbacks)
        } else {
            Seq::empty()
        };
        assert(r.0->Ok_0 == ctors.push(d) + ms + extra);
        assert(r.1 == sc + sm);
        assert forall|k: int| 0 <= k < class.methods@.len() implies accounted(
            r.0->Ok_0,
            r.1,
            #[trigger] method_qualified(class, class.methods@[k]),
        ) by {
            assert(key(class.methods@[k]) == method_qualified(class, class.methods@[k]));
            lemma_accounted_embed(
                ctors.push(d),
                ms,
                extra,
                sc,
                sm,
                Seq::empty(),
                method_qualified(class, class.methods@[k]),
            );
            assert(sc + sm + Seq::<SkippedV>::empty() =~= sc + sm);
        }
    }
}

proof fn lemma_fold_classes_accounted(
    config: Config,
    classes: Seq<CppClass>,
    abstract_types: Seq<Seq<char>>,
    callbacks: Seq<Seq<char>>,
)
    ensures
        fold_classes(config, classes, abstract_types, callbacks).0 is Ok ==> forall|c: int, k: int|
            0 <= c < classes.len() && 0 <= k < classes[c].methods@.len() ==> accounted(
                fold_classes(config, classes, abstract_types, callbacks).0->Ok_0,
                fold_classes(config, classes, abstract_types, callbacks).1,
                #[trigger] method_qualified(classes[c], classes[c].methods@[k]),
            ),
    decreases classes.len(),
{
    if classes.len() > 0 && fold_classes(config, classes, abstract_types, callbacks).0 is Ok {
        let pre = classes.drop_last();
        lemma_fold_classes_accounted(config, pre, abstract_types, callbacks);
        let last = classes.last();
        lemma_class_methods_accounted(config, last, class_handle_name(last), abstract_types, callbacks);
        let (r0, s0) = fold_classes(config, pre, abstract_types, callbacks);
        let (r1, s1) = spec_normalize_class(config, last, class_handle_name(last), abstract_types, callbacks);
        let done = r0->Ok_0;
        let fs1 = r1->Ok_0;
        let all = fold_classes(config, classes, abstract_types, callbacks);
        assert(all.0->Ok_0 == done + fs1);
        assert(all.1 == s0 + s1);
        assert forall|c: int, k: int|
            0 <= c < classes.len() && 0 <= k < classes[c].methods@.len() implies accounted(
            all.0->Ok_0,
            all.1,
            #[trigger] method_qualified(classes[c], classes[c].methods@[k]),
        ) by {
            let n = method_qualified(classes[c], classes[c].methods@[k]);
            if c < pre.len() {
                assert(pre[c] == classes[c]);
                lemma_accounted_embed(Seq::empty(), done, fs1, Seq::empty(), s0, s1, n);
                assert(Seq::<IrFunctionV>::empty() + done + fs1 =~= done + fs1);
                assert(Seq::<SkippedV>::empty() + s0 + s1 =~= s0 + s1);
            } else {
                assert(classes[c] == last);
                lemma_accounted_embed(done, fs1, Seq::empty(), s0, s1, Seq::empty(), n);
                assert(done + fs1 + Seq::<IrFunctionV>::empty() =~= done + fs1);
                assert(s0 + s1 + Seq::<SkippedV>::empty() =~= s0 + s1);
            }
        }
    }
}

proof fn lemma_assign_unique_accounted(fs: Seq<IrFunctionV>, skipped: Seq<SkippedV>, name: Seq<char>)
    requires
        accounted(fs, skipped, name),
    ensures
        accounted(spec_assign_unique(fs), skipped, name),
{
    if exists|i: int| 0 <= i < fs.len() && #[trigger] fs[i].cpp_name == name {
        let i = choose|i: int| 0 <= i < fs.len() && #[trigger] fs[i].cpp_name == name;
        assert(spec_assign_unique(fs)[i].cpp_name == name);
    }
}

proof fn lemma_functions_accounted(config: Config, api: ParsedApi)
    requires
        spec_normalize_pre(config, api) is Ok,
    ensures
        forall|k: int|
            0 <= k < api.functions@.len() ==> accounted(
                spec_normalize_pre(config, api)->Ok_0.0,
                spec_normalize_pre(config, api)->Ok_0.1,
                #[trigger] function_qualified(api.functions@[k]),
            ),
{
    let abs = spec_abstract_names(api.classes@);
    let cbs = spec_callback_names(api.callbacks@);
    let ff_step = function_step(config, abs, cbs);
    let key = function_key();
    assert forall|f: CppFunction| #[trigger] step_accounts(ff_step, key, f) by {
        lemma_function_step_accounts(config, abs, cbs, f);
    }
    lemma_fold_decls_accounts(api.functions@, ff_step, key);
    let (rc, sc) = fold_classes(config, api.classes@, abs, cbs);
    let (rf, sf) = fold_decls(api.functions@, ff_step);
    let cf = rc->Ok_0;
    let ff = rf->Ok_0;
    let pre = spec_normalize_pre(config, api)->Ok_0;
    assert(pre.0 == cf + ff);
    assert(pre.1 == sc + sf);
    assert forall|k: int| 0 <= k < api.functions@.len() implies accounted(
        pre.0,
        pre.1,
        #[trigger] function_qualified(api.functions@[k]),
    ) by {
        let n = function_qualified(api.functions@[k]);
        assert(key(api.functions@[k]) == n);
        lemma_accounted_embed(cf, ff, Seq::empty(), sc, sf, Seq::empty(), n);
        assert(cf + ff + Seq::<IrFunctionV>::empty() =~= cf + ff);
        assert(sc + sf + Seq::<SkippedV>::empty() =~= sc + sf);
    }
}

proof fn lemma_methods_accounted(config: Config, api: ParsedApi)
    requires
        spec_normalize_pre(config, api) is Ok,
    ensures
        forall|c: int, k: int|
            0 <= c < api.classes@.len() && 0 <= k < api.classes@[c].methods@.len() ==> accounted(
                spec_normalize_pre(config, api)->Ok_0.0,
                spec_normalize_pre(config, api)->Ok_0.1,
                #[trigger] method_qualified(api.classes@[c], api.classes@[c].methods@[k]),
            ),
{
    let abs = spec_abstract_names(api.classes@);
    let cbs = spec_callback_names(api.callbacks@);
    lemma_fold_classes_accounted(config, api.classes@, abs, cbs);
    let (rc, sc) = fold_classes(config, api.classes@, abs, cbs);
    let (rf, sf) = fold_decls(api.functions@, function_step(config, abs, cbs));
    let cf = rc->Ok_0;
    let ff = rf->Ok_0;
    let pre = spec_normalize_pre(config, api)->Ok_0;
    assert(pre.0 == cf + ff);
    assert(pre.1 == sc + sf);
    assert forall|c: int, k: int|
        0 <= c < api.classes@.len() && 0 <= k < api.classes@[c].methods@.len() implies accounted(
        pre.0,
        pre.1,
        #[trigger] method_qualified(api.classes@[c], api.classes@[c].methods@[k]),
    ) by {
        let n = method_qualified(api.classes@[c], api.classes@[c].methods@[k]);
        lemma_accounted_embed(Seq::empty(), cf, ff, Seq::empty(), sc, sf, n);
        assert(Seq::<IrFunctionV>::empty() + cf + ff =~= cf + ff);
        assert(Seq::<SkippedV>::empty() + sc + sf =~= sc + sf);
    }
}

/// Every free function and every class method of the parsed API ends up
/// either as a wrapper under its qualified C++ name or in the skipped
/// declarations under that name.
pub proof fn law_declarations_wrapped_or_skipped(config: Config, api: ParsedApi)
    requires
        spec_normalize_pre(config, api) is Ok,
    ensures
        forall|k: int|
            0 <= k < api.functions@.len() ==> accounted(
                spec_assign_unique(spec_normalize_pre(config, api)->Ok_0.0),
                spec_normalize_pre(config, api)->Ok_0.1,
                #[trigger] function_qualified(api.functions@[k]),
            ),
        forall|c: int, k: int|
            0 <= c < api.classes@.len() && 0 <= k < api.classes@[c].methods@.len() ==> accounted(
                spec_assign_unique(spec_normalize_pre(config, api)->Ok_0.0),
                spec_normalize_pre(config, api)->Ok_0.1,
                #[trigger] method_qualified(api.classes@[c], api.classes@[c].methods@[k]),
            ),
{
    let pre = spec_normalize_pre(config, api)->Ok_0;
    lemma_functions_accounted(config, api);
    lemma_methods_accounted(config, api);
    assert forall|k: int| 0 <= k < api.functions@.len() implies accounted(
        spec_assign_unique(pre.0),
        pre.1,
        #[trigger] function_qualified(api.functions@[k]),
    ) by {
        lemma_assign_unique_accounted(pre.0, pre.1, function_qualified(api.functions@[k]));
    }
    assert forall|c: int, k: int|
        0 <= c < api.classes@.len() && 0 <= k < api.classes@[c].methods@.len() implies accounted(
        spec_assign_unique(pre.0),
        pre.1,
        #[trigger] method_qualified(api.classes@[c], api.classes@[c].methods@[k]),
    ) by {
        lemma_assign_unique_accounted(
            pre.0,
            pre.1,
            method_qualified(api.classes@[c], api.classes@[c].methods@[k]),
        );
    }
}

// ---------------------------------------------------------------------------
// Laws of the referenced opaque types and of symbol assignment
// ---------------------------------------------------------------------------

/// The names of opaque types.
pub open spec fn opaque_names(s: Seq<(Seq<char>, Seq<char>)>) -> Seq<Seq<char>> {
    s.map_values(|o: (Seq<char>, Seq<char>)| o.0)
}

/// Whether no two opaque types share a name.
pub open spec fn opaque_names_distinct(s: Seq<(Seq<char>, Seq<char>)>) -> bool {
    forall|i: int, j: int| 0 <= i < j < s.len() ==> s[i].0 != s[j].0
}

/// Whether an opaque type stands for the handle of a model type among
/// `types`, named by the handle, for the class that type spells.
pub open spec fn appended_from(types: Seq<IrTypeV>, o: (Seq<char>, Seq<char>)) -> bool {
    exists|k: int|
        0 <= k < types.len() && #[trigger] types[k].handle == Some(o.0) && is_model_kind(types[k].kind)
            && o.1 == spec_base_model_cpp_type(types[k].cpp_type)
}

/// Collecting the referenced opaque types keeps the given ones first,
/// names every handle of a model type that the wrappers mention, and adds
/// no name twice.
#[verifier::spinoff_prover]
pub proof fn law_collect_opaque(init: Seq<(Seq<char>, Seq<char>)>, types: Seq<IrTypeV>)
    ensures
        init.len() <= spec_collect_opaque(init, types).len(),
        spec_collect_opaque(init, types).take(init.len() as int) == init,
        forall|k: int|
            0 <= k < types.len() && (#[trigger] types[k]).handle is Some && is_model_kind(types[k].kind)
                ==> opaque_names(spec_collect_opaque(init, types)).contains(types[k].handle->0),
        opaque_names_distinct(init) ==> opaque_names_distinct(spec_collect_opaque(init, types)),
        forall|j: int|
            init.len() <= j < spec_collect_opaque(init, types).len() ==> appended_from(
                types,
                #[trigger] spec_collect_opaque(init, types)[j],
            ),
    decreases types.len(),
{
    if types.len() == 0 {
        assert(init.take(init.len() as int) =~= init);
    } else {
        let pre = types.drop_last();
        law_collect_opaque(init, pre);
        let out = spec_collect_opaque(init, pre);
        let r = spec_collect_opaque(init, types);
        let t = types.last();
        assert(opaque_names(out).len() == out.len());
        if r != out {
            let h = t.handle->0;
            let x = (h, spec_base_model_cpp_type(t.cpp_type));
            assert(r == out.push(x));
            assert(r.take(init.len() as int) =~= out.take(init.len() as int));
            assert(opaque_names(r) =~= opaque_names(out).push(h));
            assert(!opaque_names(out).contains(h));
            assert forall|k: int|
                0 <= k < types.len() && (#[trigger] types[k]).handle is Some && is_model_kind(
                    types[k].kind,
                ) implies opaque_names(r).contains(types[k].handle->0) by {
                if k < pre.len() {
                    assert(pre[k] == types[k]);
                    let j = choose|j: int| 0 <= j < opaque_names(out).len() && opaque_names(out)[j] == types[k].handle->0;
                    assert(opaque_names(r)[j] == opaque_names(out)[j]);
                } else {
                    assert(opaque_names(r)[out.len() as int] == h);
                }
            }
            assert forall|j: int| init.len() <= j < r.len() implies appended_from(types, #[trigger] r[j]) by {
                if j < out.len() {
                    assert(r[j] == out[j]);
                    let k = choose|k: int|
                        0 <= k < pre.len() && #[trigger] pre[k].handle == Some(out[j].0) && is_model_kind(
                            pre[k].kind,
                        ) && out[j].1 == spec_base_model_cpp_type(pre[k].cpp_type);
                    assert(types[k] == pre[k]);
                } else {
                    assert(r[j] == x);
                    assert(types[types.len() - 1] == t);
                }
            }
            if opaque_names_distinct(init) {
                assert forall|i: int, j: int| 0 <= i < j < r.len() implies r[i].0 != r[j].0 by {
                    if j == out.len() {
                        assert(opaque_names(out)[i] == out[i].0);
                    }
                }
            }
        } else {
            assert forall|j: int| init.len() <= j < r.len() implies appended_from(types, #[trigger] r[j]) by {
                let k = choose|k: int|
                    0 <= k < pre.len() && #[trigger] pre[k].handle == Some(out[j].0) && is_model_kind(
                        pre[k].kind,
                    ) && out[j].1 == spec_base_model_cpp_type(pre[k].cpp_type);
                assert(types[k] == pre[k]);
            }
            assert forall|k: int|
                0 <= k < types.len() && (#[trigger] types[k]).handle is Some && is_model_kind(
                    types[k].kind,
                ) implies opaque_names(r).contains(types[k].handle->0) by {
                if k < pre.len() {
                    assert(pre[k] == types[k]);
                } else {
                    assert(t.handle is Some && is_model_kind(t.kind));
                    assert(opaque_names(out).contains(t.handle->0));
                }
            }
        }
    }
}

/// A symbol that names one wrapper only is kept; a shared one becomes the
/// symbol, `__` and the wrapper's signature suffix (numbered from its
/// second occurrence on). Nothing but the symbols changes.
pub proof fn law_assign_unique_rule(fs: Seq<IrFunctionV>, i: int)
    requires
        0 <= i < fs.len(),
    ensures
        spec_assign_unique(fs).len() == fs.len(),
        spec_assign_unique(fs)[i] == (IrFunctionV { name: spec_assign_unique(fs)[i].name, ..fs[i] }),
        count_named(fs, fs[i].name, fs.len() as int) < 2 ==> spec_assign_unique(fs)[i].name == fs[i].name,
        count_named(fs, fs[i].name, fs.len() as int) >= 2 ==> text::starts_with(
            spec_assign_unique(fs)[i].name,
            fs[i].name + "__"@ + spec_overload_suffix(fs[i]),
        ),
{
    let f = fs[i];
    let c = overload_candidate(f);
    if count_named(fs, f.name, fs.len() as int) >= 2 {
        let occ = count_candidate(fs, f.name, c, i + 1);
        if occ == 1 {
            assert(c.take(c.len() as int) =~= c);
        } else {
            assert(c.take(c.len() as int) =~= c);
            lemma_starts_with_extend(c, "_"@, c);
            lemma_starts_with_extend(c + "_"@, text::decimal(occ), c);
        }
    }
}

/// The wrappers of a class that normalizes: its constructors first (none
/// for an abstract class, the default one where none is declared, else
/// between one and as many as declared), then its destructor.
#[verifier::spinoff_prover]
pub proof fn law_class_structure(
    config: Config,
    class: CppClass,
    handle: Seq<char>,
    abstract_types: Seq<Seq<char>>,
    callbacks: Seq<Seq<char>>,
)
    requires
        spec_normalize_class(config, class, handle, abstract_types, callbacks).0 is Ok,
    ensures
        ({
            let fs = spec_normalize_class(config, class, handle, abstract_types, callbacks).0->Ok_0;
            let ctors = spec_class_constructors(config, class, handle, callbacks).0->Ok_0;
            &&& ctors.len() < fs.len()
            &&& fs.take(ctors.len() as int) == ctors
            &&& fs[ctors.len() as int] == spec_destructor_fn(config, class, handle)
            &&& forall|j: int| 0 <= j < ctors.len() ==> (#[trigger] ctors[j]).kind == IrFunctionKind::Constructor
            &&& class.is_abstract ==> ctors.len() == 0
            &&& !class.is_abstract && class.constructors@.len() == 0 ==> ctors == seq![
                spec_constructor_fn(config, class, handle, Seq::empty()),
            ]
            &&& !class.is_abstract && class.constructors@.len() > 0 ==> 1 <= ctors.len()
                <= class.constructors@.len()
            &&& fs[ctors.len() as int].kind == IrFunctionKind::Destructor
            &&& fs[ctors.len() as int].name == spec_symbol_name(
                config,
                text::views(class.namespace@),
                class.name@,
                "delete"@,
            )
            &&& fs[ctors.len() as int].params == seq![spec_self_param(class_qualified(class), handle, false)]
            &&& forall|j: int|
                0 <= j < fs.len() && j != ctors.len() ==> (#[trigger] fs[j]).kind != IrFunctionKind::Destructor
            &&& class.is_abstract ==> spec_normalize_class(config, class, handle, abstract_types, callbacks).1[0]
                == (class_qualified(class), abstract_class_reason())
        }),
{
    let (rc, sc) = spec_class_constructors(config, class, handle, callbacks);
    let f = ctor_step(config, class, handle, callbacks);
    assert forall|x: CppConstructor| (#[trigger] f(x)).0 matches Ok(Some(g)) ==> g.kind == IrFunctionKind::Constructor by {
        reveal(spec_normalize_constructor);
    }
    lemma_fold_decls_kind(class.constructors@, f, IrFunctionKind::Constructor);
    let ctors = rc->Ok_0;
    let fs = spec_normalize_class(config, class, handle, abstract_types, callbacks).0->Ok_0;
    let ms = fold_decls(class.methods@, method_step(config, class, handle, abstract_types, callbacks)).0->Ok_0;
    let extra = if class.is_struct {
        spec_struct_field_accessors(config, class, handle, class.fields@, callbacks)
    } else {
        Seq::empty()
    };
    let d = spec_destructor_fn(config, class, handle);
    assert(fs == ctors.push(d) + ms + extra);
    assert(fs[ctors.len() as int] == d);
    assert(fs.take(ctors.len() as int) =~= ctors);
    let mf = method_step(config, class, handle, abstract_types, callbacks);
    assert forall|x: CppMethod| (#[trigger] mf(x)).0 matches Ok(Some(g)) ==> g.kind == IrFunctionKind::Method by {
        reveal(spec_normalize_method);
    }
    lemma_fold_decls_kind(class.methods@, mf, IrFunctionKind::Method);
    lemma_field_accessors_methods(config, class, handle, class.fields@, callbacks);
    assert forall|j: int| 0 <= j < fs.len() && j != ctors.len() implies (#[trigger] fs[j]).kind
        != IrFunctionKind::Destructor by {
        if j < ctors.len() {
            assert(fs[j] == ctors[j]);
        } else if j < ctors.len() + 1 + ms.len() {
            assert(fs[j] == ms[j - ctors.len() - 1]);
        } else {
            assert(fs[j] == extra[j - ctors.len() - 1 - ms.len()]);
        }
    }
    if class.is_abstract {
        let r = spec_normalize_class(config, class, handle, abstract_types, callbacks);
        let sm = fold_decls(class.methods@, mf).1;
        assert(r.1 == sc + sm);
        assert((sc + sm)[0] == sc[0]);
    }
}

proof fn lemma_fold_decls_kind<A>(items: Seq<A>, f: spec_fn(A) -> DeclStep, kind: IrFunctionKind)
    requires
        forall|x: A| (#[trigger] f(x)).0 matches Ok(Some(g)) ==> g.kind == kind,
    ensures
        fold_decls(items, f).0 matches Ok(fs) ==> fs.len() <= items.len() && forall|j: int|
            0 <= j < fs.len() ==> (#[trigger] fs[j]).kind == kind,
    decreases items.len(),
{
    if items.len() > 0 {
        lemma_fold_decls_kind(items.drop_last(), f, kind);
        let r0 = fold_decls(items.drop_last(), f).0;
        let step = f(items.last());
        if r0 is Ok && step.0 is Ok && step.0->Ok_0 is Some {
            let done = r0->Ok_0;
            let g = step.0->Ok_0->Some_0;
            assert forall|j: int| 0 <= j < done.push(g).len() implies (#[trigger] done.push(g)[j]).kind
                == kind by {
                if j < done.len() {
                    assert(done.push(g)[j] == done[j]);
                }
            }
        }
    }
}

proof fn lemma_field_accessors_methods(
    config: Config,
    class: CppClass,
    handle: Seq<char>,
    fields: Seq<CppField>,
    callbacks: Seq<Seq<char>>,
)
    ensures
        forall|j: int|
            0 <= j < spec_struct_field_accessors(config, class, handle, fields, callbacks).len()
                ==> (#[trigger] spec_struct_field_accessors(config, class, handle, fields, callbacks)[j]).kind
                == IrFunctionKind::Method,
    decreases fields.len(),
{
    if fields.len() > 0 {
        lemma_field_accessors_methods(config, class, handle, fields.drop_last(), callbacks);
        let a = spec_struct_field_accessors(config, class, handle, fields.drop_last(), callbacks);
        let b = spec_field_accessors(config, class, handle, fields.last(), callbacks);
        let all = spec_struct_field_accessors(config, class, handle, fields, callbacks);
        assert(all == a + b);
        assert forall|j: int| 0 <= j < all.len() implies (#[trigger] all[j]).kind == IrFunctionKind::Method by {
            if j < a.len() {
                assert(all[j] == a[j]);
            } else {
                assert(all[j] == b[j - a.len()]);
            }
        }
    }
}

// ---------------------------------------------------------------------------
// Fixed array spellings
// ---------------------------------------------------------------------------

proof fn lemma_decimal_digits(n: nat)
    ensures
        text::decimal(n).len() > 0,
        text::all_digits(text::decimal(n)),
        text::digits_value(text::decimal(n)) == n,
    decreases n,
{
    if n >= 10 {
        lemma_decimal_digits(n / 10);
        let d = text::decimal(n / 10);
        let r = text::decimal(n);
        assert(r == d.push(text::digit_char(n % 10)));
        assert(r.drop_last() =~= d);
        assert((text::digit_char(n % 10) as u32) == (n % 10) + 48);
        assert(r.last() == text::digit_char(n % 10));
        assert(text::digits_value(r) == text::digits_value(d) * 10 + (n % 10));
        assert((n / 10) * 10 + n % 10 == n) by (nonlinear_arith);
        assert forall|i: int| 0 <= i < r.len() implies text::is_ascii_digit(#[trigger] r[i]) by {
            if i < d.len() {
                assert(r[i] == d[i]);
            }
        }
    } else {
        assert((text::digit_char(n) as u32) == n + 48);
        let r = text::decimal(n);
        assert(r.drop_last() =~= Seq::<char>::empty());
        assert(text::digits_value(r) == text::digits_value(r.drop_last()) * 10 + n);
    }
}

proof fn lemma_rfind_last_bracket(a: Seq<char>, b: Seq<char>)
    requires
        forall|i: int| 0 <= i < b.len() ==> b[i] != '[',
    ensures
        spec_rfind(a + seq!['['] + b, '[') == Some(a.len() as int),
    decreases b.len(),
{
    let s = a + seq!['['] + b;
    if b.len() > 0 {
        assert(s.last() == b.last());
        assert(s.drop_last() =~= a + seq!['['] + b.drop_last());
        lemma_rfind_last_bracket(a, b.drop_last());
    } else {
        assert(s =~= a.push('['));
    }
}

proof fn lemma_trim_keeps(s: Seq<char>)
    requires
        s.len() > 0,
        !text::is_ws(s[0]),
        !text::is_ws(s.last()),
    ensures
        text::trim(s) == s,
{
}

#[verifier::spinoff_prover]
proof fn lemma_const_prefix_parses_alike(s: Seq<char>)
    requires
        s.len() > 0,
        !text::is_ws(s[0]),
        !text::is_ws(s.last()),
    ensures
        spec_parse_array_type("const "@ + s) == spec_parse_array_type(s),
{
    reveal_strlit("const ");
    let cs = "const "@ + s;
    assert(cs[0] == 'c');
    assert(cs.last() == s.last());
    lemma_trim_keeps(cs);
    lemma_trim_keeps(s);
    assert(cs.take(6) =~= "const "@);
    assert(cs.skip(6) =~= s);
    assert(text::trim_start_matches(cs, "const "@) == text::trim_start_matches(s, "const "@));
}

/// A spelling `T[N]`, for an element type `T` without surrounding blanks
/// that does not start with `const `, reads back as `T` and `N`, also after
/// a leading `const `; with `N = 0` it is no fixed array.
#[verifier::spinoff_prover]
pub proof fn law_array_type_round_trip(t: Seq<char>, n: usize)
    requires
        t.len() > 0,
        !text::is_ws(t[0]),
        !text::is_ws(t.last()),
        !text::starts_with(t, "const "@),
    ensures
        spec_parse_array_type(t + seq!['['] + text::decimal(n as nat) + seq![']']) == if n == 0 {
            None::<(Seq<char>, usize)>
        } else {
            Some((t, n))
        },
        spec_parse_array_type("const "@ + (t + seq!['['] + text::decimal(n as nat) + seq![']'])) == if n
            == 0 {
            None::<(Seq<char>, usize)>
        } else {
            Some((t, n))
        },
{
    let d = text::decimal(n as nat);
    lemma_decimal_digits(n as nat);
    let s = t + seq!['['] + d + seq![']'];
    assert(s[0] == t[0]);
    assert(s.last() == ']');
    lemma_trim_keeps(s);
    reveal_strlit("const ");
    assert(!text::starts_with(s, "const "@)) by {
        if s.len() >= 6 && s.take(6) == "const "@ {
            if t.len() >= 6 {
                assert(t.take(6) =~= s.take(6));
            } else {
                assert(s[t.len() as int] == '[');
                assert(s.take(6)[t.len() as int] == '[');
            }
        }
    }
    assert(text::trim_start_matches(s, "const "@) == s);
    lemma_const_prefix_parses_alike(s);
    assert forall|i: int| 0 <= i < d.len() + 1 implies (d + seq![']'])[i] != '[' by {
        if i < d.len() {
            assert(text::is_ascii_digit(d[i]));
        }
    }
    assert(s =~= t + seq!['['] + (d + seq![']']));
    lemma_rfind_last_bracket(t, d + seq![']']);
    assert(s.take(t.len() as int) =~= t);
    lemma_trim_keeps(t);
    let after = s.skip(t.len() as int + 1);
    assert(after =~= d + seq![']']);
    reveal_strlit("]");
    assert(after.skip(after.len() - 1) =~= "]"@);
    assert(after.take(after.len() - 1) =~= d);
    assert(text::is_ascii_digit(d[0]));
    assert(text::is_ascii_digit(d.last()));
    lemma_trim_keeps(d);
}

proof fn lemma_origins_hold(fs: Seq<IrFunctionV>, sym: Seq<char>, k: int, i: int)
    requires
        0 <= i < k <= fs.len(),
        fs[i].name == sym,
    ensures
        exists|j: int| 0 <= j < origins(fs, sym, k).len() && #[trigger] origins(fs, sym, k)[j] == fs[i].cpp_name,
    decreases k,
{
    let o = origins(fs, sym, k);
    let pre = origins(fs, sym, k - 1);
    if i == k - 1 {
        assert(o == pre + seq![fs[i].cpp_name]);
        assert(o[pre.len() as int] == fs[i].cpp_name);
    } else {
        lemma_origins_hold(fs, sym, k - 1, i);
        let j = choose|j: int| 0 <= j < pre.len() && #[trigger] pre[j] == fs[i].cpp_name;
        assert(o == pre + if fs[k - 1].name == sym {
            seq![fs[k - 1].cpp_name]
        } else {
            Seq::<Seq<char>>::empty()
        });
        assert(o[j] == pre[j]);
    }
}

/// The collision error starts by saying so, and names every symbol that
/// two wrappers or more share, in backquotes, with the C++ name of every
/// wrapper that carries it, whatever order the symbols come in.
#[verifier::spinoff_prover]
pub proof fn law_collision_message_names_duplicates(
    fs: Seq<IrFunctionV>,
    syms: Seq<Seq<char>>,
    sym: Seq<char>,
    i: int,
)
    requires
        syms.to_set() == duplicated_names(fs),
        duplicated_names(fs).contains(sym),
        0 <= i < fs.len(),
        fs[i].name == sym,
    ensures
        text::starts_with(collision_message(fs, syms), "overload collision detected after suffix assignment: "@),
        text::contains_str(collision_message(fs, syms), collision_entry(fs, sym)),
        text::contains_str(collision_message(fs, syms), "wrapper symbol `"@ + sym + "`"@),
        text::contains_str(collision_message(fs, syms), fs[i].cpp_name),
{
    assert(syms.to_set().contains(sym));
    let k = choose|k: int| 0 <= k < syms.len() && syms[k] == sym;
    let entries = syms.map_values(|x: Seq<char>| collision_entry(fs, x));
    assert(entries[k] == collision_entry(fs, sym));
    text::lemma_join_contains(entries, "; "@, k);
    let head = "overload collision detected after suffix assignment: "@;
    let msg = collision_message(fs, syms);
    text::lemma_contains_in_middle(head, text::join(entries, "; "@), Seq::empty(), collision_entry(fs, sym));
    assert(head + text::join(entries, "; "@) + Seq::<char>::empty() =~= msg);
    assert(msg.take(head.len() as int) =~= head);
    let e = collision_entry(fs, sym);
    let tag = "wrapper symbol `"@ + sym + "`"@;
    let mid = " collides for C++ declarations: "@;
    let origin_text = text::join(origins(fs, sym, fs.len() as int), ", "@);
    reveal_strlit("` collides for C++ declarations: ");
    reveal_strlit("`");
    reveal_strlit(" collides for C++ declarations: ");
    assert("`"@ + mid =~= "` collides for C++ declarations: "@);
    assert(e =~= tag + (mid + origin_text));
    assert(tag.take(tag.len() as int) =~= tag);
    assert(text::starts_with(e.skip(0), tag)) by {
        assert(e.skip(0) =~= e);
        assert(e.take(tag.len() as int) =~= tag);
    }
    text::lemma_contains_trans(msg, e, tag);
    lemma_origins_hold(fs, sym, fs.len() as int, i);
    let j = choose|j: int|
        0 <= j < origins(fs, sym, fs.len() as int).len() && #[trigger] origins(fs, sym, fs.len() as int)[j]
            == fs[i].cpp_name;
    text::lemma_join_contains(origins(fs, sym, fs.len() as int), ", "@, j);
    text::lemma_contains_in_middle(tag + mid, origin_text, Seq::empty(), fs[i].cpp_name);
    assert(tag + mid + origin_text + Seq::<char>::empty() =~= e);
    text::lemma_contains_trans(msg, e, fs[i].cpp_name);
}

/// The accessors of one struct field: none for a function pointer, or
/// where the class has a method named `Get<Suffix>`, or where the field's
/// type cannot cross the C ABI as a value; otherwise a const getter
/// `Get<Suffix>` returning the field's type, then a setter `Set<Suffix>`
/// taking it, unless the class has a method of that name or the field is
/// read-only.
#[verifier::spinoff_prover]
pub proof fn law_field_accessors(
    config: Config,
    class: CppClass,
    handle: Seq<char>,
    field: CppField,
    callbacks: Seq<Seq<char>>,
)
    ensures
        ({
            let r = spec_field_accessors(config, class, handle, field, callbacks);
            let sfx = spec_struct_field_accessor_suffix(field.name@);
            let ns = text::views(class.namespace@);
            let t = spec_normalize_type_with_canonical(field.ty@, field.canonical_ty@, callbacks);
            &&& r.len() <= 2
            &&& field.is_function_pointer || method_names(class).contains("Get"@ + sfx) ==> r.len() == 0
            &&& r.len() >= 1 ==> {
                &&& t is Ok && r[0].returns == t->Ok_0 && is_field_accessor_kind(t->Ok_0.kind)
                &&& r[0].name == spec_symbol_name(config, ns, class.name@, "Get"@ + sfx)
                &&& r[0].kind == IrFunctionKind::Method && r[0].is_const == Some(true)
                &&& r[0].field_accessor == Some((field.name@, FieldAccessKind::Get))
            }
            &&& r.len() == 2 ==> {
                &&& r[1].name == spec_symbol_name(config, ns, class.name@, "Set"@ + sfx)
                &&& r[1].kind == IrFunctionKind::Method && r[1].is_const == Some(false)
                &&& r[1].field_accessor == Some((field.name@, FieldAccessKind::Assign))
                &&& r[1].params.len() == 2 && r[1].params[1].ty == r[0].returns
            }
            &&& r.len() == 1 ==> method_names(class).contains("Set"@ + sfx) || spec_field_is_read_only(field)
            &&& !field.is_function_pointer && !method_names(class).contains("Get"@ + sfx) && t is Ok
                && is_field_accessor_kind(t->Ok_0.kind) ==> r.len() >= 1 && (r.len() == 2 <==> !(
            method_names(class).contains("Set"@ + sfx) || spec_field_is_read_only(field)))
        }),
{
}

// ---------------------------------------------------------------------------
// Unsupported declarations are skipped and recorded
// ---------------------------------------------------------------------------

/// Whether a skipped entry is among the skipped declarations.
pub open spec fn skip_recorded(skipped: Seq<SkippedV>, entry: SkippedV) -> bool {
    exists|j: int| 0 <= j < skipped.len() && #[trigger] skipped[j] == entry
}

proof fn lemma_fold_decls_skips<A>(items: Seq<A>, f: spec_fn(A) -> DeclStep, k: int, entry: SkippedV)
    requires
        0 <= k < items.len(),
        fold_decls(items, f).0 is Ok,
        skip_recorded(f(items[k]).1, entry),
    ensures
        skip_recorded(fold_decls(items, f).1, entry),
    decreases items.len(),
{
    let pre = items.drop_last();
    let (r0, s0) = fold_decls(pre, f);
    let (r1, s1) = f(items.last());
    let all = fold_decls(items, f).1;
    assert(all == s0 + s1);
    if k < items.len() - 1 {
        assert(pre[k] == items[k]);
        lemma_fold_decls_skips(pre, f, k, entry);
        let j = choose|j: int| 0 <= j < s0.len() && #[trigger] s0[j] == entry;
        assert(all[j] == s0[j]);
    } else {
        let j = choose|j: int| 0 <= j < s1.len() && #[trigger] s1[j] == entry;
        assert(all[s0.len() + j] == s1[j]);
    }
}

/// How a free function that the C ABI cannot carry is skipped: operators
/// with the operator reason, others that take or return a raw function
/// pointer with that reason.
pub open spec fn function_skip_entry(f: CppFunction, callbacks: Seq<Seq<char>>) -> Option<SkippedV> {
    let q = function_qualified(f);
    if spec_is_operator_name(f.name@) {
        Some((q, operator_skip_reason()))
    } else {
        match spec_function_pointer_reason(
            Some((f.return_type@, f.return_canonical_type@, f.return_is_function_pointer)),
            f.params@,
            callbacks,
        ) {
            Some(reason) => Some((q, reason)),
            None => None,
        }
    }
}

/// How a method that the C ABI cannot carry is skipped.
pub open spec fn method_skip_entry(class: CppClass, m: CppMethod, callbacks: Seq<Seq<char>>) -> Option<SkippedV> {
    let q = method_qualified(class, m);
    if spec_is_operator_name(m.name@) {
        Some((q, operator_skip_reason()))
    } else {
        match spec_function_pointer_reason(
            Some((m.return_type@, m.return_canonical_type@, m.return_is_function_pointer)),
            m.params@,
            callbacks,
        ) {
            Some(reason) => Some((q, reason)),
            None => None,
        }
    }
}

proof fn lemma_function_skip_step(config: Config, f: CppFunction, abs: Seq<Seq<char>>, cbs: Seq<Seq<char>>)
    requires
        function_skip_entry(f, cbs) is Some,
    ensures
        spec_normalize_function(config, f, abs, cbs).0 == Ok::<Option<IrFunctionV>, Seq<char>>(None),
        skip_recorded(spec_normalize_function(config, f, abs, cbs).1, function_skip_entry(f, cbs)->0),
{
    reveal(spec_normalize_function);
    assert(spec_normalize_function(config, f, abs, cbs).1[0] == function_skip_entry(f, cbs)->0);
}

proof fn lemma_method_skip_step(
    config: Config,
    class: CppClass,
    handle: Seq<char>,
    m: CppMethod,
    abs: Seq<Seq<char>>,
    cbs: Seq<Seq<char>>,
)
    requires
        method_skip_entry(class, m, cbs) is Some,
    ensures
        spec_normalize_method(config, class, handle, m, abs, cbs).0 == Ok::<Option<IrFunctionV>, Seq<char>>(None),
        skip_recorded(spec_normalize_method(config, class, handle, m, abs, cbs).1, method_skip_entry(class, m, cbs)->0),
{
    reveal(spec_normalize_method);
    assert(spec_normalize_method(config, class, handle, m, abs, cbs).1[0] == method_skip_entry(class, m, cbs)->0);
}

proof fn lemma_fold_classes_skips(
    config: Config,
    classes: Seq<CppClass>,
    abs: Seq<Seq<char>>,
    cbs: Seq<Seq<char>>,
    c: int,
    k: int,
)
    requires
        0 <= c < classes.len(),
        0 <= k < classes[c].methods@.len(),
        fold_classes(config, classes, abs, cbs).0 is Ok,
        method_skip_entry(classes[c], classes[c].methods@[k], cbs) is Some,
    ensures
        skip_recorded(
            fold_classes(config, classes, abs, cbs).1,
            method_skip_entry(classes[c], classes[c].methods@[k], cbs)->0,
        ),
    decreases classes.len(),
{
    let pre = classes.drop_last();
    let (r0, s0) = fold_classes(config, pre, abs, cbs);
    let last = classes.last();
    let (r1, s1) = spec_normalize_class(config, last, class_handle_name(last), abs, cbs);
    let all = fold_classes(config, classes, abs, cbs).1;
    assert(all == s0 + s1);
    let entry = method_skip_entry(classes[c], classes[c].methods@[k], cbs)->0;
    if c < classes.len() - 1 {
        assert(pre[c] == classes[c]);
        lemma_fold_classes_skips(config, pre, abs, cbs, c, k);
        let j = choose|j: int| 0 <= j < s0.len() && #[trigger] s0[j] == entry;
        assert(all[j] == s0[j]);
    } else {
        let h = class_handle_name(last);
        let mf = method_step(config, last, h, abs, cbs);
        lemma_method_skip_step(config, last, h, last.methods@[k], abs, cbs);
        let (rc, sc) = spec_class_constructors(config, last, h, cbs);
        let (rm, sm) = fold_decls(last.methods@, mf);
        assert(s1 == sc + sm);
        lemma_fold_decls_skips(last.methods@, mf, k, entry);
        let j = choose|j: int| 0 <= j < sm.len() && #[trigger] sm[j] == entry;
        assert(s1[sc.len() + j] == sm[j]);
        assert(all[s0.len() + sc.len() + j] == s1[sc.len() + j]);
    }
}

/// An operator, or a declaration that takes or returns a raw function
/// pointer, is not wrapped: where normalization succeeds, it is recorded
/// among the skipped declarations under its qualified name with its
/// reason, which also adds the note about skipped declarations.
#[verifier::spinoff_prover]
pub proof fn law_unsupported_declarations_skipped(config: Config, api: ParsedApi)
    requires
        spec_normalize_pre(config, api) is Ok,
    ensures
        forall|k: int|
            0 <= k < api.functions@.len() && (#[trigger] function_skip_entry(
                api.functions@[k],
                spec_callback_names(api.callbacks@),
            )) is Some ==> spec_normalize_function(
                config,
                api.functions@[k],
                spec_abstract_names(api.classes@),
                spec_callback_names(api.callbacks@),
            ).0 == Ok::<Option<IrFunctionV>, Seq<char>>(None) && skip_recorded(
                spec_normalize_pre(config, api)->Ok_0.1,
                function_skip_entry(api.functions@[k], spec_callback_names(api.callbacks@))->0,
            ) && spec_support_notes(spec_normalize_pre(config, api)->Ok_0.1.len() > 0).len() == 3,
        forall|c: int, k: int|
            0 <= c < api.classes@.len() && 0 <= k < api.classes@[c].methods@.len() && (
            #[trigger] method_skip_entry(
                api.classes@[c],
                api.classes@[c].methods@[k],
                spec_callback_names(api.callbacks@),
            )) is Some ==> skip_recorded(
                spec_normalize_pre(config, api)->Ok_0.1,
                method_skip_entry(api.classes@[c], api.classes@[c].methods@[k], spec_callback_names(api.callbacks@))->0,
            ) && spec_support_notes(spec_normalize_pre(config, api)->Ok_0.1.len() > 0).len() == 3,
{
    let abs = spec_abstract_names(api.classes@);
    let cbs = spec_callback_names(api.callbacks@);
    let ff = function_step(config, abs, cbs);
    let (rc, sc) = fold_classes(config, api.classes@, abs, cbs);
    let (rf, sf) = fold_decls(api.functions@, ff);
    let pre = spec_normalize_pre(config, api)->Ok_0;
    assert(pre.1 == sc + sf);
    assert forall|k: int|
        0 <= k < api.functions@.len() && (#[trigger] function_skip_entry(api.functions@[k], cbs)) is Some
            implies spec_normalize_function(config, api.functions@[k], abs, cbs).0 == Ok::<
            Option<IrFunctionV>,
            Seq<char>,
        >(None) && skip_recorded(pre.1, function_skip_entry(api.functions@[k], cbs)->0)
            && spec_support_notes(pre.1.len() > 0).len() == 3 by {
        let entry = function_skip_entry(api.functions@[k], cbs)->0;
        lemma_function_skip_step(config, api.functions@[k], abs, cbs);
        lemma_fold_decls_skips(api.functions@, ff, k, entry);
        let j = choose|j: int| 0 <= j < sf.len() && #[trigger] sf[j] == entry;
        assert(pre.1[sc.len() + j] == sf[j]);
    }
    assert forall|c: int, k: int|
        0 <= c < api.classes@.len() && 0 <= k < api.classes@[c].methods@.len() && (
        #[trigger] method_skip_entry(api.classes@[c], api.classes@[c].methods@[k], cbs)) is Some implies skip_recorded(
        pre.1,
        method_skip_entry(api.classes@[c], api.classes@[c].methods@[k], cbs)->0,
    ) && spec_support_notes(pre.1.len() > 0).len() == 3 by {
        let entry = method_skip_entry(api.classes@[c], api.classes@[c].methods@[k], cbs)->0;
        lemma_fold_classes_skips(config, api.classes@, abs, cbs, c, k);
        let j = choose|j: int| 0 <= j < sc.len() && #[trigger] sc[j] == entry;
        assert(pre.1[j] == sc[j]);
    }
}

proof fn lemma_rfind_absent(s: Seq<char>, c: char)
    requires
        forall|i: int| 0 <= i < s.len() ==> s[i] != c,
    ensures
        spec_rfind(s, c) is None,
{
    lemma_rfind_bounds(s, c);
}

/// A spelling without blanks at its ends, without `[` and not starting
/// with `const `, `char[` or `unsigned char[` is no array type.
proof fn lemma_not_array_spelling(t: Seq<char>)
    requires
        t.len() > 0,
        !text::is_ws(t[0]),
        !text::is_ws(t.last()),
        forall|i: int| 0 <= i < t.len() ==> t[i] != '[',
        !text::starts_with(t, "const "@),
        !text::starts_with(t, "char["@),
        !text::starts_with(t, "unsigned char["@),
    ensures
        spec_normalize_array_type(t) is None,
        text::trim(t) == t,
{
    lemma_trim_keeps(t);
    assert(text::trim_start_matches(t, "const "@) == t);
    lemma_rfind_absent(t, '[');
}

/// The project's fixed-width aliases (`int8` to `int64`, `uint8` to
/// `uint64`) are primitives whose C type is the C type of the same width
/// and signedness: the alias with `_t`; pointers and references to them
/// are spelled in C with that type too.
#[verifier::spinoff_prover]
#[verifier::rlimit(100)]
pub proof fn law_fixed_width_aliases(s: Seq<char>, callbacks: Seq<Seq<char>>)
    requires
        crate::facade::is_fixed_width_name(s),
        !callbacks.contains(s),
    ensures
        spec_normalize_type(s, callbacks) == Some(mk_type(IrTypeKind::Primitive, s, s + "_t"@, None)),
        spec_canonical_primitive_c_type(s) == s + "_t"@,
{
    reveal_strlit("_t");
    assert("_t"@[0] == '_');
    assert("_t"@[1] == 't');
    reveal_strlit("bool");
    assert("bool"@[0] == 'b');
    assert("bool"@[1] == 'o');
    assert("bool"@[2] == 'o');
    assert("bool"@[3] == 'l');
    reveal_strlit("char");
    assert("char"@[0] == 'c');
    assert("char"@[1] == 'h');
    assert("char"@[2] == 'a');
    assert("char"@[3] == 'r');
    reveal_strlit("char[");
    assert("char["@[0] == 'c');
    assert("char["@[1] == 'h');
    assert("char["@[2] == 'a');
    assert("char["@[3] == 'r');
    assert("char["@[4] == '[');
    reveal_strlit("const ");
    assert("const "@[0] == 'c');
    assert("const "@[1] == 'o');
    assert("const "@[2] == 'n');
    assert("const "@[3] == 's');
    assert("const "@[4] == 't');
    assert("const "@[5] == ' ');
    reveal_strlit("const char");
    assert("const char"@[0] == 'c');
    assert("const char"@[1] == 'o');
    assert("const char"@[2] == 'n');
    assert("const char"@[3] == 's');
    assert("const char"@[4] == 't');
    assert("const char"@[5] == ' ');
    assert("const char"@[6] == 'c');
    assert("const char"@[7] == 'h');
    assert("const char"@[8] == 'a');
    assert("const char"@[9] == 'r');
    reveal_strlit("double");
    assert("double"@[0] == 'd');
    assert("double"@[1] == 'o');
    assert("double"@[2] == 'u');
    assert("double"@[3] == 'b');
    assert("double"@[4] == 'l');
    assert("double"@[5] == 'e');
    reveal_strlit("float");
    assert("float"@[0] == 'f');
    assert("float"@[1] == 'l');
    assert("float"@[2] == 'o');
    assert("float"@[3] == 'a');
    assert("float"@[4] == 't');
    reveal_strlit("int");
    assert("int"@[0] == 'i');
    assert("int"@[1] == 'n');
    assert("int"@[2] == 't');
    reveal_strlit("int16");
    assert("int16"@[0] == 'i');
    assert("int16"@[1] == 'n');
    assert("int16"@[2] == 't');
    assert("int16"@[3] == '1');
    assert("int16"@[4] == '6');
    reveal_strlit("int16_t");
    assert("int16_t"@[0] == 'i');
    assert("int16_t"@[1] == 'n');
    assert("int16_t"@[2] == 't');
    assert("int16_t"@[3] == '1');
    assert("int16_t"@[4] == '6');
    assert("int16_t"@[5] == '_');
    assert("int16_t"@[6] == 't');
    reveal_strlit("int32");
    assert("int32"@[0] == 'i');
    assert("int32"@[1] == 'n');
    assert("int32"@[2] == 't');
    assert("int32"@[3] == '3');
    assert("int32"@[4] == '2');
    reveal_strlit("int32_t");
    assert("int32_t"@[0] == 'i');
    assert("int32_t"@[1] == 'n');
    assert("int32_t"@[2] == 't');
    assert("int32_t"@[3] == '3');
    assert("int32_t"@[4] == '2');
    assert("int32_t"@[5] == '_');
    assert("int32_t"@[6] == 't');
    reveal_strlit("int64");
    assert("int64"@[0] == 'i');
    assert("int64"@[1] == 'n');
    assert("int64"@[2] == 't');
    assert("int64"@[3] == '6');
    assert("int64"@[4] == '4');
    reveal_strlit("int64_t");
    assert("int64_t"@[0] == 'i');
    assert("int64_t"@[1] == 'n');
    assert("int64_t"@[2] == 't');
    assert("int64_t"@[3] == '6');
    assert("int64_t"@[4] == '4');
    assert("int64_t"@[5] == '_');
    assert("int64_t"@[6] == 't');
    reveal_strlit("int8");
    assert("int8"@[0] == 'i');
    assert("int8"@[1] == 'n');
    assert("int8"@[2] == 't');
    assert("int8"@[3] == '8');
    reveal_strlit("int8_t");
    assert("int8_t"@[0] == 'i');
    assert("int8_t"@[1] == 'n');
    assert("int8_t"@[2] == 't');
    assert("int8_t"@[3] == '8');
    assert("int8_t"@[4] == '_');
    assert("int8_t"@[5] == 't');
    reveal_strlit("long");
    assert("long"@[0] == 'l');
    assert("long"@[1] == 'o');
    assert("long"@[2] == 'n');
    assert("long"@[3] == 'g');
    reveal_strlit("long long");
    assert("long long"@[0] == 'l');
    assert("long long"@[1] == 'o');
    assert("long long"@[2] == 'n');
    assert("long long"@[3] == 'g');
    assert("long long"@[4] == ' ');
    assert("long long"@[5] == 'l');
    assert("long long"@[6] == 'o');
    assert("long long"@[7] == 'n');
    assert("long long"@[8] == 'g');
    reveal_strlit("short");
    assert("short"@[0] == 's');
    assert("short"@[1] == 'h');
    assert("short"@[2] == 'o');
    assert("short"@[3] == 'r');
    assert("short"@[4] == 't');
    reveal_strlit("signed char");
    assert("signed char"@[0] == 's');
    assert("signed char"@[1] == 'i');
    assert("signed char"@[2] == 'g');
    assert("signed char"@[3] == 'n');
    assert("signed char"@[4] == 'e');
    assert("signed char"@[5] == 'd');
    assert("signed char"@[6] == ' ');
    assert("signed char"@[7] == 'c');
    assert("signed char"@[8] == 'h');
    assert("signed char"@[9] == 'a');
    assert("signed char"@[10] == 'r');
    reveal_strlit("size_t");
    assert("size_t"@[0] == 's');
    assert("size_t"@[1] == 'i');
    assert("size_t"@[2] == 'z');
    assert("size_t"@[3] == 'e');
    assert("size_t"@[4] == '_');
    assert("size_t"@[5] == 't');
    reveal_strlit("uint16");
    assert("uint16"@[0] == 'u');
    assert("uint16"@[1] == 'i');
    assert("uint16"@[2] == 'n');
    assert("uint16"@[3] == 't');
    assert("uint16"@[4] == '1');
    assert("uint16"@[5] == '6');
    reveal_strlit("uint16_t");
    assert("uint16_t"@[0] == 'u');
    assert("uint16_t"@[1] == 'i');
    assert("uint16_t"@[2] == 'n');
    assert("uint16_t"@[3] == 't');
    assert("uint16_t"@[4] == '1');
    assert("uint16_t"@[5] == '6');
    assert("uint16_t"@[6] == '_');
    assert("uint16_t"@[7] == 't');
    reveal_strlit("uint32");
    assert("uint32"@[0] == 'u');
    assert("uint32"@[1] == 'i');
    assert("uint32"@[2] == 'n');
    assert("uint32"@[3] == 't');
    assert("uint32"@[4] == '3');
    assert("uint32"@[5] == '2');
    reveal_strlit("uint32_t");
    assert("uint32_t"@[0] == 'u');
    assert("uint32_t"@[1] == 'i');
    assert("uint32_t"@[2] == 'n');
    assert("uint32_t"@[3] == 't');
    assert("uint32_t"@[4] == '3');
    assert("uint32_t"@[5] == '2');
    assert("uint32_t"@[6] == '_');
    assert("uint32_t"@[7] == 't');
    reveal_strlit("uint64");
    assert("uint64"@[0] == 'u');
    assert("uint64"@[1] == 'i');
    assert("uint64"@[2] == 'n');
    assert("uint64"@[3] == 't');
    assert("uint64"@[4] == '6');
    assert("uint64"@[5] == '4');
    reveal_strlit("uint64_t");
    assert("uint64_t"@[0] == 'u');
    assert("uint64_t"@[1] == 'i');
    assert("uint64_t"@[2] == 'n');
    assert("uint64_t"@[3] == 't');
    assert("uint64_t"@[4] == '6');
    assert("uint64_t"@[5] == '4');
    assert("uint64_t"@[6] == '_');
    assert("uint64_t"@[7] == 't');
    reveal_strlit("uint8");
    assert("uint8"@[0] == 'u');
    assert("uint8"@[1] == 'i');
    assert("uint8"@[2] == 'n');
    assert("uint8"@[3] == 't');
    assert("uint8"@[4] == '8');
    reveal_strlit("uint8_t");
    assert("uint8_t"@[0] == 'u');
    assert("uint8_t"@[1] == 'i');
    assert("uint8_t"@[2] == 'n');
    assert("uint8_t"@[3] == 't');
    assert("uint8_t"@[4] == '8');
    assert("uint8_t"@[5] == '_');
    assert("uint8_t"@[6] == 't');
    reveal_strlit("unsigned");
    assert("unsigned"@[0] == 'u');
    assert("unsigned"@[1] == 'n');
    assert("unsigned"@[2] == 's');
    assert("unsigned"@[3] == 'i');
    assert("unsigned"@[4] == 'g');
    assert("unsigned"@[5] == 'n');
    assert("unsigned"@[6] == 'e');
    assert("unsigned"@[7] == 'd');
    reveal_strlit("unsigned char");
    assert("unsigned char"@[0] == 'u');
    assert("unsigned char"@[1] == 'n');
    assert("unsigned char"@[2] == 's');
    assert("unsigned char"@[3] == 'i');
    assert("unsigned char"@[4] == 'g');
    assert("unsigned char"@[5] == 'n');
    assert("unsigned char"@[6] == 'e');
    assert("unsigned char"@[7] == 'd');
    assert("unsigned char"@[8] == ' ');
    assert("unsigned char"@[9] == 'c');
    assert("unsigned char"@[10] == 'h');
    assert("unsigned char"@[11] == 'a');
    assert("unsigned char"@[12] == 'r');
    reveal_strlit("unsigned char[");
    assert("unsigned char["@[0] == 'u');
    assert("unsigned char["@[1] == 'n');
    assert("unsigned char["@[2] == 's');
    assert("unsigned char["@[3] == 'i');
    assert("unsigned char["@[4] == 'g');
    assert("unsigned char["@[5] == 'n');
    assert("unsigned char["@[6] == 'e');
    assert("unsigned char["@[7] == 'd');
    assert("unsigned char["@[8] == ' ');
    assert("unsigned char["@[9] == 'c');
    assert("unsigned char["@[10] == 'h');
    assert("unsigned char["@[11] == 'a');
    assert("unsigned char["@[12] == 'r');
    assert("unsigned char["@[13] == '[');
    reveal_strlit("unsigned int");
    assert("unsigned int"@[0] == 'u');
    assert("unsigned int"@[1] == 'n');
    assert("unsigned int"@[2] == 's');
    assert("unsigned int"@[3] == 'i');
    assert("unsigned int"@[4] == 'g');
    assert("unsigned int"@[5] == 'n');
    assert("unsigned int"@[6] == 'e');
    assert("unsigned int"@[7] == 'd');
    assert("unsigned int"@[8] == ' ');
    assert("unsigned int"@[9] == 'i');
    assert("unsigned int"@[10] == 'n');
    assert("unsigned int"@[11] == 't');
    reveal_strlit("unsigned long");
    assert("unsigned long"@[0] == 'u');
    assert("unsigned long"@[1] == 'n');
    assert("unsigned long"@[2] == 's');
    assert("unsigned long"@[3] == 'i');
    assert("unsigned long"@[4] == 'g');
    assert("unsigned long"@[5] == 'n');
    assert("unsigned long"@[6] == 'e');
    assert("unsigned long"@[7] == 'd');
    assert("unsigned long"@[8] == ' ');
    assert("unsigned long"@[9] == 'l');
    assert("unsigned long"@[10] == 'o');
    assert("unsigned long"@[11] == 'n');
    assert("unsigned long"@[12] == 'g');
    reveal_strlit("unsigned long long");
    assert("unsigned long long"@[0] == 'u');
    assert("unsigned long long"@[1] == 'n');
    assert("unsigned long long"@[2] == 's');
    assert("unsigned long long"@[3] == 'i');
    assert("unsigned long long"@[4] == 'g');
    assert("unsigned long long"@[5] == 'n');
    assert("unsigned long long"@[6] == 'e');
    assert("unsigned long long"@[7] == 'd');
    assert("unsigned long long"@[8] == ' ');
    assert("unsigned long long"@[9] == 'l');
    assert("unsigned long long"@[10] == 'o');
    assert("unsigned long long"@[11] == 'n');
    assert("unsigned long long"@[12] == 'g');
    assert("unsigned long long"@[13] == ' ');
    assert("unsigned long long"@[14] == 'l');
    assert("unsigned long long"@[15] == 'o');
    assert("unsigned long long"@[16] == 'n');
    assert("unsigned long long"@[17] == 'g');
    reveal_strlit("unsigned short");
    assert("unsigned short"@[0] == 'u');
    assert("unsigned short"@[1] == 'n');
    assert("unsigned short"@[2] == 's');
    assert("unsigned short"@[3] == 'i');
    assert("unsigned short"@[4] == 'g');
    assert("unsigned short"@[5] == 'n');
    assert("unsigned short"@[6] == 'e');
    assert("unsigned short"@[7] == 'd');
    assert("unsigned short"@[8] == ' ');
    assert("unsigned short"@[9] == 's');
    assert("unsigned short"@[10] == 'h');
    assert("unsigned short"@[11] == 'o');
    assert("unsigned short"@[12] == 'r');
    assert("unsigned short"@[13] == 't');
    reveal_strlit("void");
    assert("void"@[0] == 'v');
    assert("void"@[1] == 'o');
    assert("void"@[2] == 'i');
    assert("void"@[3] == 'd');
    assert(s.len() >= 4 && s.len() <= 6);
    assert(!text::is_ws(s[0]) && !text::is_ws(s.last()));
    assert forall|i: int| 0 <= i < s.len() implies s[i] != '[' by {
    }
    assert(!text::starts_with(s, "const "@)) by {
        if s.len() >= 6 {
            assert(s.take(6)[0] == s[0]);
        }
    }
    assert(!text::starts_with(s, "char["@)) by {
        if s.len() >= 5 {
            assert(s.take(5)[0] == s[0]);
        }
    }
    assert(!text::starts_with(s, "unsigned char["@));
    lemma_not_array_spelling(s);
    assert(text::strip_prefix(s, "const "@) is None);
    assert(!spec_is_builtin_scalar(s));
    assert(s != "void"@);
    if s == "int8"@ {
        assert(s + "_t"@ =~= "int8_t"@);
        assert(spec_alias_c_name(s) == Some("int8_t"@));
        assert(spec_canonical_primitive_c_type(s) == "int8_t"@);
    } else if s == "int16"@ {
        assert(s + "_t"@ =~= "int16_t"@);
        assert(spec_alias_c_name(s) == Some("int16_t"@));
        assert(spec_canonical_primitive_c_type(s) == "int16_t"@);
    } else if s == "int32"@ {
        assert(s + "_t"@ =~= "int32_t"@);
        assert(spec_alias_c_name(s) == Some("int32_t"@));
        assert(spec_canonical_primitive_c_type(s) == "int32_t"@);
    } else if s == "int64"@ {
        assert(s + "_t"@ =~= "int64_t"@);
        assert(spec_alias_c_name(s) == Some("int64_t"@));
        assert(spec_canonical_primitive_c_type(s) == "int64_t"@);
    } else if s == "uint8"@ {
        assert(s + "_t"@ =~= "uint8_t"@);
        assert(spec_alias_c_name(s) == Some("uint8_t"@));
        assert(spec_canonical_primitive_c_type(s) == "uint8_t"@);
    } else if s == "uint16"@ {
        assert(s + "_t"@ =~= "uint16_t"@);
        assert(spec_alias_c_name(s) == Some("uint16_t"@));
        assert(spec_canonical_primitive_c_type(s) == "uint16_t"@);
    } else if s == "uint32"@ {
        assert(s + "_t"@ =~= "uint32_t"@);
        assert(spec_alias_c_name(s) == Some("uint32_t"@));
        assert(spec_canonical_primitive_c_type(s) == "uint32_t"@);
    } else if s == "uint64"@ {
        assert(s + "_t"@ =~= "uint64_t"@);
        assert(spec_alias_c_name(s) == Some("uint64_t"@));
        assert(spec_canonical_primitive_c_type(s) == "uint64_t"@);
    }
}

// ---------------------------------------------------------------------------
// The whole module
// ---------------------------------------------------------------------------

/// The handle type of a class: its flattened name and `Handle`.
pub open spec fn class_handle_name(class: CppClass) -> Seq<char> {
    spec_flatten_cpp_name(text::views(class.namespace@), class.name@) + "Handle"@
}

/// The handle type that each class contributes.
pub open spec fn class_opaques(classes: Seq<CppClass>) -> Seq<(Seq<char>, Seq<char>)> {
    classes.map_values(|c: CppClass| (class_handle_name(c), class_qualified(c)))
}

/// Normalizes the classes in order, collecting their wrappers and skips,
/// and stops at the first error.
pub open spec fn fold_classes(
    config: Config,
    classes: Seq<CppClass>,
    abstract_types: Seq<Seq<char>>,
    callbacks: Seq<Seq<char>>,
) -> (Result<Seq<IrFunctionV>, Seq<char>>, Seq<SkippedV>)
    decreases classes.len(),
{
    if classes.len() == 0 {
        (Ok(Seq::empty()), Seq::empty())
    } else {
        let (r0, s0) = fold_classes(config, classes.drop_last(), abstract_types, callbacks);
        match r0 {
            Err(e) => (Err(e), s0),
            Ok(done) => {
                let c = classes.last();
                let (r1, s1) = spec_normalize_class(
                    config,
                    c,
                    class_handle_name(c),
                    abstract_types,
                    callbacks,
                );
                match r1 {
                    Err(e) => (Err(e), s0 + s1),
                    Ok(fs) => (Ok(done + fs), s0 + s1),
                }
            },
        }
    }
}

proof fn lemma_fold_classes_err(
    config: Config,
    classes: Seq<CppClass>,
    abstract_types: Seq<Seq<char>>,
    callbacks: Seq<Seq<char>>,
    k: int,
)
    requires
        0 <= k <= classes.len(),
        fold_classes(config, classes.take(k), abstract_types, callbacks).0 is Err,
    ensures
        fold_classes(config, classes, abstract_types, callbacks) == fold_classes(
            config,
            classes.take(k),
            abstract_types,
            callbacks,
        ),
    decreases classes.len(),
{
    if k == classes.len() {
        assert(classes.take(k) =~= classes);
    } else {
        assert(classes.drop_last().take(k) =~= classes.take(k));
        lemma_fold_classes_err(config, classes.drop_last(), abstract_types, callbacks, k);
    }
}

proof fn lemma_fold_classes_well_formed(
    config: Config,
    classes: Seq<CppClass>,
    abstract_types: Seq<Seq<char>>,
    callbacks: Seq<Seq<char>>,
)
    ensures
        fold_classes(config, classes, abstract_types, callbacks).0 matches Ok(fs) ==> all_well_formed(
            fs,
        ),
    decreases classes.len(),
{
    if classes.len() > 0 {
        lemma_fold_classes_well_formed(config, classes.drop_last(), abstract_types, callbacks);
        let c = classes.last();
        lemma_class_well_formed(config, c, class_handle_name(c), abstract_types, callbacks);
        let r0 = fold_classes(config, classes.drop_last(), abstract_types, callbacks).0;
        let r1 = spec_normalize_class(config, c, class_handle_name(c), abstract_types, callbacks).0;
        if r0 is Ok && r1 is Ok {
            lemma_all_well_formed_concat(r0->Ok_0, r1->Ok_0);
        }
    }
}

pub open spec fn callback_step(callbacks: Seq<Seq<char>>) -> spec_fn(CppCallbackTypedef) -> Result<
    (Seq<char>, Seq<char>, IrTypeV, Seq<IrParamV>),
    Seq<char>,
> {
    |c: CppCallbackTypedef| spec_normalize_callback(c, callbacks)
}

pub open spec fn callback_views(s: Seq<IrCallback>) -> Seq<(Seq<char>, Seq<char>, IrTypeV, Seq<IrParamV>)> {
    s.map_values(|c: IrCallback| callback_view(c))
}

fn normalize_callbacks(config: &Config, api: &ParsedApi, callback_names: &[String]) -> (r: Result<
    Vec<IrCallback>,
    String,
>)
    ensures
        match r {
            Ok(v) => fold_results(api.callbacks@, callback_step(text::views(callback_names@)))
                == Ok::<Seq<(Seq<char>, Seq<char>, IrTypeV, Seq<IrParamV>)>, Seq<char>>(
                callback_views(v@),
            ),
            Err(e) => fold_results(api.callbacks@, callback_step(text::views(callback_names@)))
                == Err::<Seq<(Seq<char>, Seq<char>, IrTypeV, Seq<IrParamV>)>, Seq<char>>(e@),
        },
{
    let ghost f = callback_step(text::views(callback_names@));
    let ghost items = api.callbacks@;
    let mut out: Vec<IrCallback> = Vec::new();
    let mut i: usize = 0;
    assert(items.take(0) =~= Seq::<CppCallbackTypedef>::empty());
    assert(callback_views(out@) =~= Seq::<(Seq<char>, Seq<char>, IrTypeV, Seq<IrParamV>)>::empty());
    while i < api.callbacks.len()
        invariant
            items == api.callbacks@,
            i <= items.len(),
            f == callback_step(text::views(callback_names@)),
            fold_results(items.take(i as int), f) == Ok::<
                Seq<(Seq<char>, Seq<char>, IrTypeV, Seq<IrParamV>)>,
                Seq<char>,
            >(callback_views(out@)),
        decreases items.len() - i,
    {
        assert(items.take(i + 1).drop_last() =~= items.take(i as int));
        assert(items.take(i + 1).last() == items[i as int]);
        match normalize_callback(config, &api.callbacks[i], callback_names) {
            Ok(c) => {
                let ghost before = callback_views(out@);
                out.push(c);
                assert(callback_views(out@) =~= before.push(callback_view(c)));
            },
            Err(e) => {
                proof {
                    lemma_fold_results_err(items, f, i + 1);
                }
                return Err(e);
            },
        }
        i += 1;
    }
    assert(items.take(items.len() as int) =~= items);
    Ok(out)
}


/// What normalization produces before symbols are made unique: the
/// wrappers of the classes and then of the free functions, the skipped
/// declarations, and the callbacks; or the first error, found in that
/// order.
pub open spec fn spec_normalize_pre(config: Config, api: ParsedApi) -> Result<
    (Seq<IrFunctionV>, Seq<SkippedV>, Seq<(Seq<char>, Seq<char>, IrTypeV, Seq<IrParamV>)>),
    Seq<char>,
> {
    let abs = spec_abstract_names(api.classes@);
    let cbs = spec_callback_names(api.callbacks@);
    let (rc, sc) = fold_classes(config, api.classes@, abs, cbs);
    match rc {
        Err(e) => Err(e),
        Ok(cf) => {
            let (rf, sf) = fold_decls(api.functions@, function_step(config, abs, cbs));
            match rf {
                Err(e) => Err(e),
                Ok(ff) => match fold_results(api.callbacks@, callback_step(cbs)) {
                    Err(e) => Err(e),
                    Ok(cv) => Ok((cf + ff, sc + sf, cv)),
                },
            }
        },
    }
}

/// The notes that the IR records about how it was produced.
pub open spec fn spec_support_notes(has_skipped: bool) -> Seq<Seq<char>> {
    seq![
        "Parsed with clang AST and normalized into a conservative C ABI IR."@,
        "v1 intentionally rejects unsupported C++ constructs during type normalization."@,
    ] + if has_skipped {
        seq![
            "Skipped declarations are recorded in support.skipped_declarations when v1 cannot safely express them in raw output."@,
        ]
    } else {
        Seq::empty()
    }
}

/// The module that normalization builds from what `spec_normalize_pre`
/// produced.
pub open spec fn module_matches(
    m: IrModule,
    config: Config,
    api: ParsedApi,
    pre: (Seq<IrFunctionV>, Seq<SkippedV>, Seq<(Seq<char>, Seq<char>, IrTypeV, Seq<IrParamV>)>),
) -> bool {
    &&& m.version == match config.version {
        Some(v) => v,
        None => 1u32,
    }
    &&& m.module@ == config.naming.prefix@
    &&& text::views(m.source_headers@) == text::views(api.headers@)
    &&& opaque_views(m.opaque_types@) == spec_collect_opaque(
        class_opaques(api.classes@),
        spec_all_types(pre.0),
    )
    &&& function_views(m.functions@) == spec_assign_unique(pre.0)
    &&& m.enums@.len() == api.enums@.len()
    &&& forall|i: int| 0 <= i < m.enums@.len() ==> enum_matches(#[trigger] m.enums@[i], api.enums@[i])
    &&& callback_views(m.callbacks@) == pre.2
    &&& m.support.parser_backend@ == "libclang"@
    &&& text::views(m.support.notes@) == spec_support_notes(pre.1.len() > 0)
    &&& skipped_views(m.support.skipped_declarations@) == pre.1
}

fn support_notes(has_skipped: bool) -> (r: Vec<String>)
    ensures
        text::views(r@) == spec_support_notes(has_skipped),
{
    let mut notes: Vec<String> = Vec::new();
    notes.push(owned("Parsed with clang AST and normalized into a conservative C ABI IR."));
    notes.push(
        owned("v1 intentionally rejects unsupported C++ constructs during type normalization."),
    );
    if has_skipped {
        notes.push(
            owned(
                "Skipped declarations are recorded in support.skipped_declarations when v1 cannot safely express them in raw output.",
            ),
        );
    }
    assert(text::views(notes@) =~= spec_support_notes(has_skipped));
    notes
}

/// Normalizes a parsed API into the C ABI IR: a handle type and wrappers
/// per class, wrappers for the free functions, the enums and callbacks,
/// the model handles that the wrappers refer to, and symbols that are
/// unique, with the overloads told apart by signature suffixes.
pub fn normalize(config: &Config, api: &ParsedApi) -> (r: Result<IrModule, String>)
    ensures
        match spec_normalize_pre(*config, *api) {
            Err(e0) => r matches Err(e) && e@ == e0,
            Ok(pre) => if names_unique(spec_assign_unique(pre.0)) {
                r matches Ok(m) && module_matches(m, *config, *api, pre)
            } else {
                r matches Err(e) && exists|syms: Seq<Seq<char>>|
                    sorted_strictly(syms) && syms.to_set() == duplicated_names(
                        spec_assign_unique(pre.0),
                    ) && e@ == collision_message(spec_assign_unique(pre.0), syms)
            },
        },
        r matches Ok(m) ==> names_unique(function_views(m.functions@)),
        r matches Ok(m) ==> all_prefixed(*config, function_views(m.functions@)),
        r matches Ok(m) ==> forall|k: int|
            0 <= k < api.functions@.len() ==> accounted(
                function_views(m.functions@),
                skipped_views(m.support.skipped_declarations@),
                #[trigger] function_qualified(api.functions@[k]),
            ),
        r matches Ok(m) ==> forall|c: int, k: int|
            0 <= c < api.classes@.len() && 0 <= k < api.classes@[c].methods@.len() ==> accounted(
                function_views(m.functions@),
                skipped_views(m.support.skipped_declarations@),
                #[trigger] method_qualified(api.classes@[c], api.classes@[c].methods@[k]),
            ),
{
    let callback_names = callback_name_set(api);
    let abstract_types = abstract_type_names(api);
    let ghost cbs = spec_callback_names(api.callbacks@);
    let ghost abs = spec_abstract_names(api.classes@);
    let mut opaque_types: Vec<OpaqueType> = Vec::new();
    let mut functions: Vec<IrFunction> = Vec::new();
    let mut skipped: Vec<SkippedDeclaration> = Vec::new();
    let ghost classes = api.classes@;
    let mut i: usize = 0;
    assert(classes.take(0) =~= Seq::<CppClass>::empty());
    assert(function_views(functions@) =~= Seq::<IrFunctionV>::empty());
    assert(skipped_views(skipped@) =~= Seq::<SkippedV>::empty());
    assert(opaque_views(opaque_types@) =~= class_opaques(classes.take(0)));
    while i < api.classes.len()
        invariant
            classes == api.classes@,
            i <= classes.len(),
            cbs == spec_callback_names(api.callbacks@),
            abs == spec_abstract_names(api.classes@),
            text::views(callback_names@) == cbs,
            text::views(abstract_types@) == abs,
            fold_classes(*config, classes.take(i as int), abs, cbs) == (
                Ok::<Seq<IrFunctionV>, Seq<char>>(function_views(functions@)),
                skipped_views(skipped@),
            ),
            opaque_views(opaque_types@) == class_opaques(classes.take(i as int)),
        decreases classes.len() - i,
    {
        assert(classes.take(i + 1).drop_last() =~= classes.take(i as int));
        assert(classes.take(i + 1).last() == classes[i as int]);
        let class = &api.classes[i];
        let flat = flatten_cpp_name(&class.namespace, class.name.as_str());
        let handle_name = concat2(flat.as_str(), "Handle");
        let o = OpaqueType {
            name: handle_name.clone(),
            cpp_type: cpp_qualified(&class.namespace, class.name.as_str()),
        };
        let ghost ob = opaque_views(opaque_types@);
        opaque_types.push(o);
        assert(opaque_views(opaque_types@) =~= ob.push(o@));
        assert(class_opaques(classes.take(i + 1)) =~= class_opaques(classes.take(i as int)).push(
            (class_handle_name(classes[i as int]), class_qualified(classes[i as int])),
        ));
        let ghost fb = function_views(functions@);
        let ghost sb = skipped_views(skipped@);
        match normalize_class(
            config,
            class,
            handle_name.as_str(),
            &abstract_types,
            &callback_names,
            &mut skipped,
        ) {
            Ok(fs) => {
                let mut fs = fs;
                let ghost fv = function_views(fs@);
                functions.append(&mut fs);
                assert(function_views(functions@) =~= fb + fv);
            },
            Err(e) => {
                proof {
                    lemma_fold_classes_err(*config, classes, abs, cbs, i + 1);
                }
                return Err(e);
            },
        }
        i += 1;
    }
    assert(classes.take(classes.len() as int) =~= classes);
    let ghost cf = function_views(functions@);
    let ghost sc = skipped_views(skipped@);
    let ghost ff_step = function_step(*config, abs, cbs);
    let ghost items = api.functions@;
    let mut j: usize = 0;
    assert(items.take(0) =~= Seq::<CppFunction>::empty());
    assert(function_views(functions@) =~= cf + Seq::<IrFunctionV>::empty());
    assert(skipped_views(skipped@) =~= sc + Seq::<SkippedV>::empty());
    while j < api.functions.len()
        invariant
            items == api.functions@,
            j <= items.len(),
            cbs == spec_callback_names(api.callbacks@),
            abs == spec_abstract_names(api.classes@),
            classes == api.classes@,
            fold_classes(*config, classes, abs, cbs) == (
                Ok::<Seq<IrFunctionV>, Seq<char>>(cf),
                sc,
            ),
            text::views(callback_names@) == cbs,
            text::views(abstract_types@) == abs,
            ff_step == function_step(*config, abs, cbs),
            fold_decls(items.take(j as int), ff_step).0 is Ok,
            function_views(functions@) == cf + fold_decls(items.take(j as int), ff_step).0->Ok_0,
            skipped_views(skipped@) == sc + fold_decls(items.take(j as int), ff_step).1,
        decreases items.len() - j,
    {
        let ghost prev = fold_decls(items.take(j as int), ff_step);
        let ghost step = ff_step(items[j as int]);
        assert(items.take(j + 1).drop_last() =~= items.take(j as int));
        assert(items.take(j + 1).last() == items[j as int]);
        assert((sc + prev.1) + step.1 =~= sc + (prev.1 + step.1));
        match normalize_function(
            config,
            &api.functions[j],
            &abstract_types,
            &callback_names,
            &mut skipped,
        ) {
            Ok(Some(g)) => {
                let ghost before = function_views(functions@);
                functions.push(g);
                assert(function_views(functions@) =~= before.push(g@));
                assert((cf + prev.0->Ok_0).push(g@) =~= cf + prev.0->Ok_0.push(g@));
            },
            Ok(None) => {},
            Err(e) => {
                proof {
                    assert(fold_decls(items.take(j + 1), ff_step).0 is Err);
                    lemma_fold_decls_err(items, ff_step, j + 1);
                }
                return Err(e);
            },
        }
        j += 1;
    }
    assert(items.take(items.len() as int) =~= items);
    let ghost fns = function_views(functions@);
    let mut enums: Vec<IrEnum> = Vec::new();
    let mut k: usize = 0;
    while k < api.enums.len()
        invariant
            k <= api.enums@.len(),
            enums@.len() == k,
            forall|x: int| 0 <= x < k ==> enum_matches(#[trigger] enums@[x], api.enums@[x]),
        decreases api.enums@.len() - k,
    {
        enums.push(normalize_enum(&api.enums[k]));
        k += 1;
    }
    let callbacks = normalize_callbacks(config, api, &callback_names)?;
    collect_referenced_opaque_types(&mut opaque_types, &functions);
    proof {
        lemma_fold_classes_well_formed(*config, classes, abs, cbs);
        lemma_function_step_well_formed(*config, abs, cbs);
        lemma_fold_decls_well_formed(items, ff_step);
        lemma_all_well_formed_concat(cf, fold_decls(items, ff_step).0->Ok_0);
        assert(shared_well_formed(function_views(functions@)));
    }
    assign_unique_function_symbols(&mut functions);
    ensure_unique_function_symbols(&functions)?;
    proof {
        law_normalized_symbols_prefixed(*config, *api);
        law_declarations_wrapped_or_skipped(*config, *api);
    }
    let has_skipped = skipped.len() > 0;
    let notes = support_notes(has_skipped);
    let version = match config.version {
        Some(v) => v,
        None => 1,
    };
    Ok(
        IrModule {
            version,
            module: config.naming.prefix.clone(),
            source_headers: clone_strings(&api.headers),
            opaque_types,
            functions,
            enums,
            callbacks,
            support: SupportMetadata {
                parser_backend: owned("libclang"),
                notes,
                skipped_declarations: skipped,
            },
        },
    )
}

} // verus!
