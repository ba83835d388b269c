//! Go model files: plain Go structs for the classes whose getters and
//! setters pair up, and Go enums, for headers that hold models.
use vstd::prelude::*;
use crate::codegen::ir_norm::{function_views, IrEnum, IrEnumVariant, IrFunction, IrFunctionV, IrModule, IrType, IrTypeV};
use crate::config::Config;
use crate::domain::kind::IrTypeKind;
use crate::facade::projection::{
    collect_method_owners, getter_before, getter_before_exec, getter_suffix, last_setter,
    last_setter_exec, lemma_last_setter_found, method_owners, owned_by_exec, owner_getter,
    owner_setter, spec_go_field_name, go_field_name,
};
use crate::facade::{leaf_cpp_name, normalize_type_key, spec_leaf_cpp_name, spec_normalize_type_key, GeneratedGoFile};
use crate::text;
use crate::text::{owned, str_eq};

verus! {

/// What a header is for: a facade over an API, plain models, or neither.
#[derive(Debug, Clone, Copy, PartialEq, Eq, Structural)]
pub enum HeaderRole {
    Facade,
    Model,
    Unclassified,
}

// ---------------------------------------------------------------------------
// Go types of model fields
// ---------------------------------------------------------------------------

/// The Go type of a primitive spelling, by its lookup key.
pub open spec fn spec_model_primitive_go_type(key: Seq<char>) -> Option<Seq<char>> {
    if key == "bool"@ {
        Some("bool"@)
    } else if key == "float"@ {
        Some("float32"@)
    } else if key == "double"@ {
        Some("float64"@)
    } else if key == "int8"@ || key == "int8_t"@ {
        Some("int8"@)
    } else if key == "int16"@ || key == "int16_t"@ {
        Some("int16"@)
    } else if key == "int32"@ || key == "int32_t"@ {
        Some("int32"@)
    } else if key == "int64"@ || key == "int64_t"@ {
        Some("int64"@)
    } else if key == "uint8"@ || key == "uint8_t"@ {
        Some("uint8"@)
    } else if key == "uint16"@ || key == "uint16_t"@ {
        Some("uint16"@)
    } else if key == "uint32"@ || key == "uint32_t"@ {
        Some("uint32"@)
    } else if key == "uint64"@ || key == "uint64_t"@ {
        Some("uint64"@)
    } else if key == "int"@ {
        Some("int"@)
    } else if key == "short"@ {
        Some("int16"@)
    } else if key == "long"@ {
        Some("int64"@)
    } else if key == "size_t"@ {
        Some("uintptr"@)
    } else {
        None
    }
}

/// The Go type of a model field's IR type: strings and the primitives
/// that the C++ spelling names.
pub open spec fn spec_model_go_type(t: IrTypeV) -> Option<Seq<char>> {
    if t.kind == IrTypeKind::String || t.kind == IrTypeKind::CString {
        Some("string"@)
    } else if t.kind == IrTypeKind::Primitive {
        spec_model_primitive_go_type(spec_normalize_type_key(t.cpp_type))
    } else {
        None
    }
}

fn model_primitive_go_type(key: &str) -> (r: Option<String>)
    ensures
        text::opt_view(r) == spec_model_primitive_go_type(key@),
{
    if str_eq(key, "bool") {
        Some(owned("bool"))
    } else if str_eq(key, "float") {
        Some(owned("float32"))
    } else if str_eq(key, "double") {
        Some(owned("float64"))
    } else if str_eq(key, "int8") || str_eq(key, "int8_t") {
        Some(owned("int8"))
    } else if str_eq(key, "int16") || str_eq(key, "int16_t") {
        Some(owned("int16"))
    } else if str_eq(key, "int32") || str_eq(key, "int32_t") {
        Some(owned("int32"))
    } else if str_eq(key, "int64") || str_eq(key, "int64_t") {
        Some(owned("int64"))
    } else if str_eq(key, "uint8") || str_eq(key, "uint8_t") {
        Some(owned("uint8"))
    } else if str_eq(key, "uint16") || str_eq(key, "uint16_t") {
        Some(owned("uint16"))
    } else if str_eq(key, "uint32") || str_eq(key, "uint32_t") {
        Some(owned("uint32"))
    } else if str_eq(key, "uint64") || str_eq(key, "uint64_t") {
        Some(owned("uint64"))
    } else if str_eq(key, "int") {
        Some(owned("int"))
    } else if str_eq(key, "short") {
        Some(owned("int16"))
    } else if str_eq(key, "long") {
        Some(owned("int64"))
    } else if str_eq(key, "size_t") {
        Some(owned("uintptr"))
    } else {
        None
    }
}

pub fn model_go_type(ty: &IrType) -> (r: Option<String>)
    ensures
        text::opt_view(r) == spec_model_go_type(ty@),
{
    if ty.kind == IrTypeKind::String || ty.kind == IrTypeKind::CString {
        Some(owned("string"))
    } else if ty.kind == IrTypeKind::Primitive {
        let key = normalize_type_key(ty.cpp_type.as_str());
        model_primitive_go_type(key.as_str())
    } else {
        None
    }
}

// ---------------------------------------------------------------------------
// Go structs
// ---------------------------------------------------------------------------

/// The field (Go name and Go type) that the wrapper at index `i`
/// contributes to the struct of `owner`: for the first getter of each
/// suffix that has a setter (the last one of that suffix), where both carry
/// the same Go type.
pub open spec fn model_field_at(fs: Seq<IrFunctionV>, owner: Seq<char>, i: int) -> Option<(Seq<char>, Seq<char>)> {
    match owner_getter(fs[i], owner) {
        None => None,
        Some(s) => match last_setter(fs, owner, s, fs.len() as int) {
            None => None,
            Some(j) => if getter_before(fs, owner, s, i) {
                None
            } else {
                match (spec_model_go_type(fs[i].returns), spec_model_go_type(fs[j].params[1].ty)) {
                    (Some(g), Some(t)) => if g == t {
                        Some((spec_go_field_name(s), g))
                    } else {
                        None
                    },
                    _ => None,
                }
            },
        },
    }
}

/// The fields that the first `k` wrappers contribute, in order.
pub open spec fn model_fields_upto(fs: Seq<IrFunctionV>, owner: Seq<char>, k: int) -> Seq<(Seq<char>, Seq<char>)>
    decreases k,
{
    if k <= 0 {
        Seq::empty()
    } else {
        model_fields_upto(fs, owner, k - 1) + match model_field_at(fs, owner, k - 1) {
            Some(f) => seq![f],
            None => Seq::empty(),
        }
    }
}

/// The Go structs of the given classes, in order: one per class with at
/// least one field, named by the class's last name part.
pub open spec fn model_structs_from(fs: Seq<IrFunctionV>, owners: Seq<Seq<char>>) -> Seq<
    (Seq<char>, Seq<(Seq<char>, Seq<char>)>),
>
    decreases owners.len(),
{
    if owners.len() == 0 {
        Seq::empty()
    } else {
        let fields = model_fields_upto(fs, owners.last(), fs.len() as int);
        model_structs_from(fs, owners.drop_last()) + if fields.len() > 0 {
            seq![(spec_leaf_cpp_name(owners.last()), fields)]
        } else {
            Seq::empty()
        }
    }
}

/// The Go structs of a module, in the order of their class names.
pub open spec fn spec_model_structs(ir: IrModule) -> Seq<(Seq<char>, Seq<(Seq<char>, Seq<char>)>)> {
    let fs = function_views(ir.functions@);
    model_structs_from(fs, method_owners(fs))
}

/// A Go struct: its name and its fields.
pub struct GoStruct {
    pub name: String,
    pub fields: Vec<(String, String)>,
}

pub open spec fn pair_views(v: Seq<(String, String)>) -> Seq<(Seq<char>, Seq<char>)> {
    v.map_values(|p: (String, String)| (p.0@, p.1@))
}

pub open spec fn struct_views(v: Seq<GoStruct>) -> Seq<(Seq<char>, Seq<(Seq<char>, Seq<char>)>)> {
    v.map_values(|s: GoStruct| (s.name@, pair_views(s.fields@)))
}

fn model_field_at_exec(functions: &Vec<IrFunction>, owner: &str, i: usize) -> (r: Option<(String, String)>)
    requires
        i < functions@.len(),
    ensures
        match r {
            Some(p) => model_field_at(function_views(functions@), owner@, i as int) == Some((p.0@, p.1@)),
            None => model_field_at(function_views(functions@), owner@, i as int) is None,
        },
{
    let ghost fs = function_views(functions@);
    let f = &functions[i];
    assert(fs[i as int] == f@);
    if !owned_by_exec(f, owner) {
        return None;
    }
    let suffix = match getter_suffix(f) {
        Some(s) => s,
        None => return None,
    };
    let j = match last_setter_exec(functions, owner, suffix.as_str()) {
        Some(j) => j,
        None => return None,
    };
    proof {
        lemma_last_setter_found(fs, owner@, suffix@, functions@.len() as int);
    }
    if getter_before_exec(functions, owner, suffix.as_str(), i) {
        return None;
    }
    let setter = &functions[j];
    assert(fs[j as int] == setter@);
    let getter_ty = match model_go_type(&f.returns) {
        Some(t) => t,
        None => return None,
    };
    assert(owner_setter(fs[j as int], owner@) == Some(suffix@));
    assert(setter@.params.len() == 2);
    assert(setter@.params.len() == setter.params@.len());
    assert(setter@.params[1] == setter.params@[1]@);
    let setter_ty = match model_go_type(&setter.params[1].ty) {
        Some(t) => t,
        None => return None,
    };
    if !str_eq(getter_ty.as_str(), setter_ty.as_str()) {
        return None;
    }
    Some((go_field_name(suffix.as_str()), getter_ty))
}

fn model_fields(functions: &Vec<IrFunction>, owner: &str) -> (r: Vec<(String, String)>)
    ensures
        pair_views(r@) == model_fields_upto(function_views(functions@), owner@, functions@.len() as int),
{
    let ghost fs = function_views(functions@);
    let mut fields: Vec<(String, String)> = Vec::new();
    let mut i: usize = 0;
    while i < functions.len()
        invariant
            fs == function_views(functions@),
            i <= functions@.len(),
            pair_views(fields@) == model_fields_upto(fs, owner@, i as int),
        decreases functions@.len() - i,
    {
        let ghost before = pair_views(fields@);
        match model_field_at_exec(functions, owner, i) {
            Some(p) => {
                let ghost pv = (p.0@, p.1@);
                fields.push(p);
                assert(pair_views(fields@) =~= before + seq![pv]);
            },
            None => {
                assert(pair_views(fields@) =~= before + Seq::<(Seq<char>, Seq<char>)>::empty());
            },
        }
        i += 1;
    }
    fields
}

pub fn build_all_model_structs(ir: &IrModule) -> (r: Vec<GoStruct>)
    ensures
        struct_views(r@) == spec_model_structs(*ir),
{
    let ghost fs = function_views(ir.functions@);
    let owners = collect_method_owners(&ir.functions);
    let ghost ov = text::views(owners@);
    let mut out: Vec<GoStruct> = Vec::new();
    let mut k: usize = 0;
    assert(ov.take(0) =~= Seq::<Seq<char>>::empty());
    assert(struct_views(out@) =~= Seq::<(Seq<char>, Seq<(Seq<char>, Seq<char>)>)>::empty());
    while k < owners.len()
        invariant
            fs == function_views(ir.functions@),
            ov == text::views(owners@),
            ov == method_owners(fs),
            k <= owners@.len(),
            struct_views(out@) == model_structs_from(fs, ov.take(k as int)),
        decreases owners@.len() - k,
    {
        assert(ov.take(k + 1).drop_last() =~= ov.take(k as int));
        assert(ov.take(k + 1).last() == owners@[k as int]@);
        let ghost before = struct_views(out@);
        let owner = owners[k].as_str();
        let fields = model_fields(&ir.functions, owner);
        if fields.len() > 0 {
            let s = GoStruct { name: leaf_cpp_name(owner), fields };
            let ghost sv = (s.name@, pair_views(s.fields@));
            out.push(s);
            assert(struct_views(out@) =~= before + seq![sv]);
        } else {
            assert(struct_views(out@) =~= before + Seq::<(Seq<char>, Seq<(Seq<char>, Seq<char>)>)>::empty());
        }
        k += 1;
    }
    assert(ov.take(owners@.len() as int) =~= ov);
    out
}

// ---------------------------------------------------------------------------
// Go enums
// ---------------------------------------------------------------------------

/// The value of the variant at `index`: its own, or its position.
pub open spec fn spec_variant_value(v: IrEnumVariant, index: int) -> Seq<char> {
    match v.value {
        Some(x) => x@,
        None => text::decimal(index as nat),
    }
}

/// The Go enums of a module: each named by the last part of its C++ name,
/// with its variants' names and values.
pub open spec fn spec_go_enums(es: Seq<IrEnum>) -> Seq<(Seq<char>, Seq<(Seq<char>, Seq<char>)>)> {
    es.map_values(
        |e: IrEnum|
            (
                spec_leaf_cpp_name(e.cpp_name@),
                Seq::new(
                    e.variants@.len(),
                    |i: int| (e.variants@[i].name@, spec_variant_value(e.variants@[i], i)),
                ),
            ),
    )
}

/// A Go enum: its name and its variants' names and values.
pub struct GoEnum {
    pub name: String,
    pub variants: Vec<(String, String)>,
}

pub open spec fn enum_views(v: Seq<GoEnum>) -> Seq<(Seq<char>, Seq<(Seq<char>, Seq<char>)>)> {
    v.map_values(|e: GoEnum| (e.name@, pair_views(e.variants@)))
}

fn build_go_enum(e: &IrEnum) -> (r: GoEnum)
    ensures
        (r.name@, pair_views(r.variants@)) == (
            spec_leaf_cpp_name(e.cpp_name@),
            Seq::new(
                e.variants@.len(),
                |i: int| (e.variants@[i].name@, spec_variant_value(e.variants@[i], i)),
            ),
        ),
{
    let ghost want = Seq::new(
        e.variants@.len(),
        |i: int| (e.variants@[i].name@, spec_variant_value(e.variants@[i], i)),
    );
    let mut variants: Vec<(String, String)> = Vec::new();
    let mut i: usize = 0;
    while i < e.variants.len()
        invariant
            i <= e.variants@.len(),
            want.len() == e.variants@.len(),
            forall|j: int| 0 <= j < want.len() ==> #[trigger] want[j] == (e.variants@[j].name@, spec_variant_value(e.variants@[j], j)),
            pair_views(variants@) == want.take(i as int),
        decreases e.variants@.len() - i,
    {
        let v = &e.variants[i];
        let value = match &v.value {
            Some(x) => x.clone(),
            None => text::usize_to_string(i),
        };
        let ghost before = pair_views(variants@);
        let name = v.name.clone();
        let ghost pv = (name@, value@);
        assert(pv == want[i as int]);
        variants.push((name, value));
        assert(pair_views(variants@) =~= before.push(pv));
        assert(want.take(i + 1) =~= want.take(i as int).push(want[i as int]));
        i += 1;
    }
    assert(want.take(e.variants@.len() as int) =~= want);
    GoEnum { name: leaf_cpp_name(e.cpp_name.as_str()), variants }
}

pub fn build_go_enums(ir: &IrModule) -> (r: Vec<GoEnum>)
    ensures
        enum_views(r@) == spec_go_enums(ir.enums@),
{
    let ghost want = spec_go_enums(ir.enums@);
    let mut out: Vec<GoEnum> = Vec::new();
    let mut k: usize = 0;
    while k < ir.enums.len()
        invariant
            k <= ir.enums@.len(),
            want == spec_go_enums(ir.enums@),
            enum_views(out@) == want.take(k as int),
        decreases ir.enums@.len() - k,
    {
        let ghost before = enum_views(out@);
        let e = build_go_enum(&ir.enums[k]);
        let ghost ev = (e.name@, pair_views(e.variants@));
        out.push(e);
        assert(enum_views(out@) =~= before.push(ev));
        assert(want.take(k + 1) =~= want.take(k as int).push(want[k as int]));
        k += 1;
    }
    assert(want.take(ir.enums@.len() as int) =~= want);
    out
}

// ---------------------------------------------------------------------------
// The Go file
// ---------------------------------------------------------------------------

/// The constant lines of an enum's first `k` variants.
pub open spec fn variant_lines(name: Seq<char>, vs: Seq<(Seq<char>, Seq<char>)>, k: int) -> Seq<char>
    decreases k,
{
    if k <= 0 {
        Seq::empty()
    } else {
        variant_lines(name, vs, k - 1) + "    "@ + vs[k - 1].0 + " "@ + name + " = "@ + vs[k - 1].1
            + "\n"@
    }
}

/// The field lines of a struct's first `k` fields.
pub open spec fn field_lines(fs: Seq<(Seq<char>, Seq<char>)>, k: int) -> Seq<char>
    decreases k,
{
    if k <= 0 {
        Seq::empty()
    } else {
        field_lines(fs, k - 1) + "    "@ + fs[k - 1].0 + " "@ + fs[k - 1].1 + "\n"@
    }
}

/// A Go enum as an `int64` type and a constant block.
pub open spec fn enum_text(e: (Seq<char>, Seq<(Seq<char>, Seq<char>)>)) -> Seq<char> {
    "type "@ + e.0 + " int64\n\nconst (\n"@ + variant_lines(e.0, e.1, e.1.len() as int) + ")\n\n"@
}

/// A Go struct declaration.
pub open spec fn struct_text(s: (Seq<char>, Seq<(Seq<char>, Seq<char>)>)) -> Seq<char> {
    "type "@ + s.0 + " struct {\n"@ + field_lines(s.1, s.1.len() as int) + "}\n\n"@
}

pub open spec fn enums_text(es: Seq<(Seq<char>, Seq<(Seq<char>, Seq<char>)>)>, k: int) -> Seq<char>
    decreases k,
{
    if k <= 0 {
        Seq::empty()
    } else {
        enums_text(es, k - 1) + enum_text(es[k - 1])
    }
}

pub open spec fn structs_text(ss: Seq<(Seq<char>, Seq<(Seq<char>, Seq<char>)>)>, k: int) -> Seq<char>
    decreases k,
{
    if k <= 0 {
        Seq::empty()
    } else {
        structs_text(ss, k - 1) + struct_text(ss[k - 1])
    }
}

/// The Go file: the package clause, the enums, then the structs.
pub open spec fn spec_render_go_file(
    config: Config,
    enums: Seq<(Seq<char>, Seq<(Seq<char>, Seq<char>)>)>,
    structs: Seq<(Seq<char>, Seq<(Seq<char>, Seq<char>)>)>,
) -> Seq<char> {
    "package "@ + crate::facade::spec_go_package_name(config.output.dir@) + "\n\n"@ + enums_text(
        enums,
        enums.len() as int,
    ) + structs_text(structs, structs.len() as int)
}

fn append_enum(out: &mut String, e: &GoEnum)
    ensures
        final(out)@ == old(out)@ + enum_text((e.name@, pair_views(e.variants@))),
{
    let ghost base = out@;
    let ghost vs = pair_views(e.variants@);
    out.append("type ");
    out.append(e.name.as_str());
    out.append(" int64\n\nconst (\n");
    let ghost head = out@;
    assert(head == base + ("type "@ + e.name@ + " int64\n\nconst (\n"@));
    let mut i: usize = 0;
    while i < e.variants.len()
        invariant
            i <= e.variants@.len(),
            vs == pair_views(e.variants@),
            out@ == head + variant_lines(e.name@, vs, i as int),
        decreases e.variants@.len() - i,
    {
        let v = &e.variants[i];
        assert(vs[i as int] == (v.0@, v.1@));
        out.append("    ");
        out.append(v.0.as_str());
        out.append(" ");
        out.append(e.name.as_str());
        out.append(" = ");
        out.append(v.1.as_str());
        out.append("\n");
        i += 1;
    }
    out.append(")\n\n");
}

fn append_struct(out: &mut String, s: &GoStruct)
    ensures
        final(out)@ == old(out)@ + struct_text((s.name@, pair_views(s.fields@))),
{
    let ghost base = out@;
    let ghost fs = pair_views(s.fields@);
    out.append("type ");
    out.append(s.name.as_str());
    out.append(" struct {\n");
    let ghost head = out@;
    assert(head == base + ("type "@ + s.name@ + " struct {\n"@));
    let mut i: usize = 0;
    while i < s.fields.len()
        invariant
            i <= s.fields@.len(),
            fs == pair_views(s.fields@),
            out@ == head + field_lines(fs, i as int),
        decreases s.fields@.len() - i,
    {
        let f = &s.fields[i];
        assert(fs[i as int] == (f.0@, f.1@));
        out.append("    ");
        out.append(f.0.as_str());
        out.append(" ");
        out.append(f.1.as_str());
        out.append("\n");
        i += 1;
    }
    out.append("}\n\n");
}

pub fn render_go_file(config: &Config, enums: &Vec<GoEnum>, structs: &Vec<GoStruct>) -> (r: String)
    ensures
        r@ == spec_render_go_file(*config, enum_views(enums@), struct_views(structs@)),
{
    let ghost ev = enum_views(enums@);
    let ghost sv = struct_views(structs@);
    let package = crate::facade::go_package_name(config.output.dir.as_str());
    let mut out = text::concat3("package ", package.as_str(), "\n\n");
    let ghost head = out@;
    let mut k: usize = 0;
    while k < enums.len()
        invariant
            k <= enums@.len(),
            ev == enum_views(enums@),
            out@ == head + enums_text(ev, k as int),
        decreases enums@.len() - k,
    {
        append_enum(&mut out, &enums[k]);
        k += 1;
    }
    let ghost mid = out@;
    let mut j: usize = 0;
    while j < structs.len()
        invariant
            j <= structs@.len(),
            sv == struct_views(structs@),
            out@ == mid + structs_text(sv, j as int),
        decreases structs@.len() - j,
    {
        append_struct(&mut out, &structs[j]);
        j += 1;
    }
    out
}

// ---------------------------------------------------------------------------
// Model files
// ---------------------------------------------------------------------------

/// The role that decides a config's Go model output: the role of its
/// first input header, given by the caller; unclassified where the config
/// has no input header.
pub open spec fn effective_role(config: Config, first_header_role: HeaderRole) -> HeaderRole {
    if config.input.headers@.len() == 0 {
        HeaderRole::Unclassified
    } else {
        first_header_role
    }
}

/// The Go model files: for a model header, one file with its enums and
/// the structs of its classes, unless it has neither; none otherwise.
pub open spec fn spec_render_go_models(config: Config, ir: IrModule, first_header_role: HeaderRole) -> Seq<
    (Seq<char>, Seq<char>),
> {
    let is_model = effective_role(config, first_header_role) == HeaderRole::Model;
    let structs = if is_model {
        spec_model_structs(ir)
    } else {
        Seq::empty()
    };
    let enums = if is_model {
        spec_go_enums(ir.enums@)
    } else {
        Seq::empty()
    };
    if structs.len() == 0 && enums.len() == 0 {
        Seq::empty()
    } else {
        seq![(crate::config::spec_go_filename(config), spec_render_go_file(config, enums, structs))]
    }
}

pub fn render_go_models(config: &Config, ir: &IrModule, first_header_role: HeaderRole) -> (r: Result<
    Vec<GeneratedGoFile>,
    String,
>)
    ensures
        r matches Ok(v) && crate::facade::files_view(v@) == spec_render_go_models(
            *config,
            *ir,
            first_header_role,
        ),
{
    let role = if config.input.headers.len() == 0 {
        HeaderRole::Unclassified
    } else {
        first_header_role
    };
    let is_model = role == HeaderRole::Model;
    let structs = if is_model {
        build_all_model_structs(ir)
    } else {
        Vec::new()
    };
    let enums = if is_model {
        build_go_enums(ir)
    } else {
        Vec::new()
    };
    assert(is_model ==> struct_views(structs@) == spec_model_structs(*ir));
    assert(!is_model ==> struct_views(structs@) =~= Seq::<(Seq<char>, Seq<(Seq<char>, Seq<char>)>)>::empty());
    assert(!is_model ==> enum_views(enums@) =~= Seq::<(Seq<char>, Seq<(Seq<char>, Seq<char>)>)>::empty());
    if structs.len() == 0 && enums.len() == 0 {
        let v: Vec<GeneratedGoFile> = Vec::new();
        assert(crate::facade::files_view(v@) =~= Seq::<(Seq<char>, Seq<char>)>::empty());
        return Ok(v);
    }
    let contents = render_go_file(config, &enums, &structs);
    let file = GeneratedGoFile { filename: config.go_filename(""), contents };
    let ghost fv = (file.filename@, file.contents@);
    let v = vec![file];
    assert(crate::facade::files_view(v@) =~= seq![fv]);
    Ok(v)
}

/// The Go struct file: for a model header, one file with the structs of
/// its classes (possibly none); no file otherwise.
pub open spec fn spec_render_model_structs(config: Config, ir: IrModule, first_header_role: HeaderRole) -> Seq<
    (Seq<char>, Seq<char>),
> {
    if effective_role(config, first_header_role) != HeaderRole::Model {
        Seq::empty()
    } else {
        seq![
            (
                crate::config::spec_go_filename(config),
                spec_render_go_file(config, Seq::empty(), spec_model_structs(ir)),
            ),
        ]
    }
}

pub fn render_go_structs(config: &Config, ir: &IrModule, first_header_role: HeaderRole) -> (r: Result<
    Vec<GeneratedGoFile>,
    String,
>)
    ensures
        r matches Ok(v) && crate::facade::files_view(v@) == spec_render_model_structs(
            *config,
            *ir,
            first_header_role,
        ),
{
    if config.input.headers.len() == 0 || first_header_role != HeaderRole::Model {
        let v: Vec<GeneratedGoFile> = Vec::new();
        assert(crate::facade::files_view(v@) =~= Seq::<(Seq<char>, Seq<char>)>::empty());
        return Ok(v);
    }
    let structs = build_all_model_structs(ir);
    let enums: Vec<GoEnum> = Vec::new();
    assert(enum_views(enums@) =~= Seq::<(Seq<char>, Seq<(Seq<char>, Seq<char>)>)>::empty());
    let contents = render_go_file(config, &enums, &structs);
    let file = GeneratedGoFile { filename: config.go_filename(""), contents };
    let ghost fv = (file.filename@, file.contents@);
    let v = vec![file];
    assert(crate::facade::files_view(v@) =~= seq![fv]);
    Ok(v)
}

/// Model files come only for a model header, at most one, named as
/// `go_filename` says, holding the module's enums and then its model
/// structs.
pub proof fn law_model_files(config: Config, ir: IrModule, first_header_role: HeaderRole)
    ensures
        spec_render_go_models(config, ir, first_header_role).len() <= 1,
        spec_render_go_models(config, ir, first_header_role).len() == 1 ==> spec_render_go_models(
            config,
            ir,
            first_header_role,
        )[0].0 == crate::config::spec_go_filename(config),
        effective_role(config, first_header_role) != HeaderRole::Model ==> spec_render_go_models(
            config,
            ir,
            first_header_role,
        ).len() == 0,
        effective_role(config, first_header_role) == HeaderRole::Model && (spec_model_structs(ir).len() > 0
            || ir.enums@.len() > 0) ==> spec_render_go_models(config, ir, first_header_role) == seq![
            (
                crate::config::spec_go_filename(config),
                spec_render_go_file(config, spec_go_enums(ir.enums@), spec_model_structs(ir)),
            ),
        ],
{
}

/// A model field's Go type is the one the facade gives the same primitive,
/// so a value keeps its width and signedness; the fixed-width names, with
/// or without `_t`, give the Go type of that name.
#[verifier::spinoff_prover]
#[verifier::rlimit(100)]
pub proof fn law_model_go_type_agrees(k: Seq<char>)
    ensures
        spec_model_primitive_go_type(k) is Some ==> spec_model_primitive_go_type(k)
            == crate::facade::key_go_type(k),
        crate::facade::is_fixed_width_name(k) ==> spec_model_primitive_go_type(k) == Some(k)
            && spec_model_primitive_go_type(k + "_t"@) == Some(k),
{
    reveal_strlit("_t");
    assert("_t"@[0] == '_');
    assert("_t"@[1] == 't');
    reveal_strlit("bool");
    assert("bool"@[0] == 'b');
    assert("bool"@[1] == 'o');
    assert("bool"@[2] == 'o');
    assert("bool"@[3] == 'l');
    reveal_strlit("double");
    assert("double"@[0] == 'd');
    assert("double"@[1] == 'o');
    assert("double"@[2] == 'u');
    assert("double"@[3] == 'b');
    assert("double"@[4] == 'l');
    assert("double"@[5] == 'e');
    reveal_strlit("float");
    assert("float"@[0] == 'f');
    assert("float"@[1] == 'l');
    assert("float"@[2] == 'o');
    assert("float"@[3] == 'a');
    assert("float"@[4] == 't');
    reveal_strlit("float32");
    assert("float32"@[0] == 'f');
    assert("float32"@[1] == 'l');
    assert("float32"@[2] == 'o');
    assert("float32"@[3] == 'a');
    assert("float32"@[4] == 't');
    assert("float32"@[5] == '3');
    assert("float32"@[6] == '2');
    reveal_strlit("float64");
    assert("float64"@[0] == 'f');
    assert("float64"@[1] == 'l');
    assert("float64"@[2] == 'o');
    assert("float64"@[3] == 'a');
    assert("float64"@[4] == 't');
    assert("float64"@[5] == '6');
    assert("float64"@[6] == '4');
    reveal_strlit("int");
    assert("int"@[0] == 'i');
    assert("int"@[1] == 'n');
    assert("int"@[2] == 't');
    reveal_strlit("int16");
    assert("int16"@[0] == 'i');
    assert("int16"@[1] == 'n');
    assert("int16"@[2] == 't');
    assert("int16"@[3] == '1');
    assert("int16"@[4] == '6');
    reveal_strlit("int16_t");
    assert("int16_t"@[0] == 'i');
    assert("int16_t"@[1] == 'n');
    assert("int16_t"@[2] == 't');
    assert("int16_t"@[3] == '1');
    assert("int16_t"@[4] == '6');
    assert("int16_t"@[5] == '_');
    assert("int16_t"@[6] == 't');
    reveal_strlit("int32");
    assert("int32"@[0] == 'i');
    assert("int32"@[1] == 'n');
    assert("int32"@[2] == 't');
    assert("int32"@[3] == '3');
    assert("int32"@[4] == '2');
    reveal_strlit("int32_t");
    assert("int32_t"@[0] == 'i');
    assert("int32_t"@[1] == 'n');
    assert("int32_t"@[2] == 't');
    assert("int32_t"@[3] == '3');
    assert("int32_t"@[4] == '2');
    assert("int32_t"@[5] == '_');
    assert("int32_t"@[6] == 't');
    reveal_strlit("int64");
    assert("int64"@[0] == 'i');
    assert("int64"@[1] == 'n');
    assert("int64"@[2] == 't');
    assert("int64"@[3] == '6');
    assert("int64"@[4] == '4');
    reveal_strlit("int64_t");
    assert("int64_t"@[0] == 'i');
    assert("int64_t"@[1] == 'n');
    assert("int64_t"@[2] == 't');
    assert("int64_t"@[3] == '6');
    assert("int64_t"@[4] == '4');
    assert("int64_t"@[5] == '_');
    assert("int64_t"@[6] == 't');
    reveal_strlit("int8");
    assert("int8"@[0] == 'i');
    assert("int8"@[1] == 'n');
    assert("int8"@[2] == 't');
    assert("int8"@[3] == '8');
    reveal_strlit("int8_t");
    assert("int8_t"@[0] == 'i');
    assert("int8_t"@[1] == 'n');
    assert("int8_t"@[2] == 't');
    assert("int8_t"@[3] == '8');
    assert("int8_t"@[4] == '_');
    assert("int8_t"@[5] == 't');
    reveal_strlit("long");
    assert("long"@[0] == 'l');
    assert("long"@[1] == 'o');
    assert("long"@[2] == 'n');
    assert("long"@[3] == 'g');
    reveal_strlit("longlong");
    assert("longlong"@[0] == 'l');
    assert("longlong"@[1] == 'o');
    assert("longlong"@[2] == 'n');
    assert("longlong"@[3] == 'g');
    assert("longlong"@[4] == 'l');
    assert("longlong"@[5] == 'o');
    assert("longlong"@[6] == 'n');
    assert("longlong"@[7] == 'g');
    reveal_strlit("short");
    assert("short"@[0] == 's');
    assert("short"@[1] == 'h');
    assert("short"@[2] == 'o');
    assert("short"@[3] == 'r');
    assert("short"@[4] == 't');
    reveal_strlit("signedchar");
    assert("signedchar"@[0] == 's');
    assert("signedchar"@[1] == 'i');
    assert("signedchar"@[2] == 'g');
    assert("signedchar"@[3] == 'n');
    assert("signedchar"@[4] == 'e');
    assert("signedchar"@[5] == 'd');
    assert("signedchar"@[6] == 'c');
    assert("signedchar"@[7] == 'h');
    assert("signedchar"@[8] == 'a');
    assert("signedchar"@[9] == 'r');
    reveal_strlit("size_t");
    assert("size_t"@[0] == 's');
    assert("size_t"@[1] == 'i');
    assert("size_t"@[2] == 'z');
    assert("size_t"@[3] == 'e');
    assert("size_t"@[4] == '_');
    assert("size_t"@[5] == 't');
    reveal_strlit("uint16");
    assert("uint16"@[0] == 'u');
    assert("uint16"@[1] == 'i');
    assert("uint16"@[2] == 'n');
    assert("uint16"@[3] == 't');
    assert("uint16"@[4] == '1');
    assert("uint16"@[5] == '6');
    reveal_strlit("uint16_t");
    assert("uint16_t"@[0] == 'u');
    assert("uint16_t"@[1] == 'i');
    assert("uint16_t"@[2] == 'n');
    assert("uint16_t"@[3] == 't');
    assert("uint16_t"@[4] == '1');
    assert("uint16_t"@[5] == '6');
    assert("uint16_t"@[6] == '_');
    assert("uint16_t"@[7] == 't');
    reveal_strlit("uint32");
    assert("uint32"@[0] == 'u');
    assert("uint32"@[1] == 'i');
    assert("uint32"@[2] == 'n');
    assert("uint32"@[3] == 't');
    assert("uint32"@[4] == '3');
    assert("uint32"@[5] == '2');
    reveal_strlit("uint32_t");
    assert("uint32_t"@[0] == 'u');
    assert("uint32_t"@[1] == 'i');
    assert("uint32_t"@[2] == 'n');
    assert("uint32_t"@[3] == 't');
    assert("uint32_t"@[4] == '3');
    assert("uint32_t"@[5] == '2');
    assert("uint32_t"@[6] == '_');
    assert("uint32_t"@[7] == 't');
    reveal_strlit("uint64");
    assert("uint64"@[0] == 'u');
    assert("uint64"@[1] == 'i');
    assert("uint64"@[2] == 'n');
    assert("uint64"@[3] == 't');
    assert("uint64"@[4] == '6');
    assert("uint64"@[5] == '4');
    reveal_strlit("uint64_t");
    assert("uint64_t"@[0] == 'u');
    assert("uint64_t"@[1] == 'i');
    assert("uint64_t"@[2] == 'n');
    assert("uint64_t"@[3] == 't');
    assert("uint64_t"@[4] == '6');
    assert("uint64_t"@[5] == '4');
    assert("uint64_t"@[6] == '_');
    assert("uint64_t"@[7] == 't');
    reveal_strlit("uint8");
    assert("uint8"@[0] == 'u');
    assert("uint8"@[1] == 'i');
    assert("uint8"@[2] == 'n');
    assert("uint8"@[3] == 't');
    assert("uint8"@[4] == '8');
    reveal_strlit("uint8_t");
    assert("uint8_t"@[0] == 'u');
    assert("uint8_t"@[1] == 'i');
    assert("uint8_t"@[2] == 'n');
    assert("uint8_t"@[3] == 't');
    assert("uint8_t"@[4] == '8');
    assert("uint8_t"@[5] == '_');
    assert("uint8_t"@[6] == 't');
    reveal_strlit("uintptr");
    assert("uintptr"@[0] == 'u');
    assert("uintptr"@[1] == 'i');
    assert("uintptr"@[2] == 'n');
    assert("uintptr"@[3] == 't');
    assert("uintptr"@[4] == 'p');
    assert("uintptr"@[5] == 't');
    assert("uintptr"@[6] == 'r');
    reveal_strlit("unsigned");
    assert("unsigned"@[0] == 'u');
    assert("unsigned"@[1] == 'n');
    assert("unsigned"@[2] == 's');
    assert("unsigned"@[3] == 'i');
    assert("unsigned"@[4] == 'g');
    assert("unsigned"@[5] == 'n');
    assert("unsigned"@[6] == 'e');
    assert("unsigned"@[7] == 'd');
    reveal_strlit("unsignedchar");
    assert("unsignedchar"@[0] == 'u');
    assert("unsignedchar"@[1] == 'n');
    assert("unsignedchar"@[2] == 's');
    assert("unsignedchar"@[3] == 'i');
    assert("unsignedchar"@[4] == 'g');
    assert("unsignedchar"@[5] == 'n');
    assert("unsignedchar"@[6] == 'e');
    assert("unsignedchar"@[7] == 'd');
    assert("unsignedchar"@[8] == 'c');
    assert("unsignedchar"@[9] == 'h');
    assert("unsignedchar"@[10] == 'a');
    assert("unsignedchar"@[11] == 'r');
    reveal_strlit("unsignedint");
    assert("unsignedint"@[0] == 'u');
    assert("unsignedint"@[1] == 'n');
    assert("unsignedint"@[2] == 's');
    assert("unsignedint"@[3] == 'i');
    assert("unsignedint"@[4] == 'g');
    assert("unsignedint"@[5] == 'n');
    assert("unsignedint"@[6] == 'e');
    assert("unsignedint"@[7] == 'd');
    assert("unsignedint"@[8] == 'i');
    assert("unsignedint"@[9] == 'n');
    assert("unsignedint"@[10] == 't');
    reveal_strlit("unsignedlong");
    assert("unsignedlong"@[0] == 'u');
    assert("unsignedlong"@[1] == 'n');
    assert("unsignedlong"@[2] == 's');
    assert("unsignedlong"@[3] == 'i');
    assert("unsignedlong"@[4] == 'g');
    assert("unsignedlong"@[5] == 'n');
    assert("unsignedlong"@[6] == 'e');
    assert("unsignedlong"@[7] == 'd');
    assert("unsignedlong"@[8] == 'l');
    assert("unsignedlong"@[9] == 'o');
    assert("unsignedlong"@[10] == 'n');
    assert("unsignedlong"@[11] == 'g');
    reveal_strlit("unsignedlonglong");
    assert("unsignedlonglong"@[0] == 'u');
    assert("unsignedlonglong"@[1] == 'n');
    assert("unsignedlonglong"@[2] == 's');
    assert("unsignedlonglong"@[3] == 'i');
    assert("unsignedlonglong"@[4] == 'g');
    assert("unsignedlonglong"@[5] == 'n');
    assert("unsignedlonglong"@[6] == 'e');
    assert("unsignedlonglong"@[7] == 'd');
    assert("unsignedlonglong"@[8] == 'l');
    assert("unsignedlonglong"@[9] == 'o');
    assert("unsignedlonglong"@[10] == 'n');
    assert("unsignedlonglong"@[11] == 'g');
    assert("unsignedlonglong"@[12] == 'l');
    assert("unsignedlonglong"@[13] == 'o');
    assert("unsignedlonglong"@[14] == 'n');
    assert("unsignedlonglong"@[15] == 'g');
    reveal_strlit("unsignedshort");
    assert("unsignedshort"@[0] == 'u');
    assert("unsignedshort"@[1] == 'n');
    assert("unsignedshort"@[2] == 's');
    assert("unsignedshort"@[3] == 'i');
    assert("unsignedshort"@[4] == 'g');
    assert("unsignedshort"@[5] == 'n');
    assert("unsignedshort"@[6] == 'e');
    assert("unsignedshort"@[7] == 'd');
    assert("unsignedshort"@[8] == 's');
    assert("unsignedshort"@[9] == 'h');
    assert("unsignedshort"@[10] == 'o');
    assert("unsignedshort"@[11] == 'r');
    assert("unsignedshort"@[12] == 't');
    if k == "bool"@ {
        assert(spec_model_primitive_go_type(k) == Some("bool"@));
        assert(crate::facade::key_go_type(k) == Some("bool"@));
    } else if k == "float"@ {
        assert(spec_model_primitive_go_type(k) == Some("float32"@));
        assert(crate::facade::key_go_type(k) == Some("float32"@));
    } else if k == "double"@ {
        assert(spec_model_primitive_go_type(k) == Some("float64"@));
        assert(crate::facade::key_go_type(k) == Some("float64"@));
    } else if k == "int8"@ {
        assert(spec_model_primitive_go_type(k) == Some("int8"@));
        assert(crate::facade::key_go_type(k) == Some("int8"@));
    } else if k == "int8_t"@ {
        assert(spec_model_primitive_go_type(k) == Some("int8"@));
        assert(crate::facade::key_go_type(k) == Some("int8"@));
    } else if k == "int16"@ {
        assert(spec_model_primitive_go_type(k) == Some("int16"@));
        assert(crate::facade::key_go_type(k) == Some("int16"@));
    } else if k == "int16_t"@ {
        assert(spec_model_primitive_go_type(k) == Some("int16"@));
        assert(crate::facade::key_go_type(k) == Some("int16"@));
    } else if k == "int32"@ {
        assert(spec_model_primitive_go_type(k) == Some("int32"@));
        assert(crate::facade::key_go_type(k) == Some("int32"@));
    } else if k == "int32_t"@ {
        assert(spec_model_primitive_go_type(k) == Some("int32"@));
        assert(crate::facade::key_go_type(k) == Some("int32"@));
    } else if k == "int64"@ {
        assert(spec_model_primitive_go_type(k) == Some("int64"@));
        assert(crate::facade::key_go_type(k) == Some("int64"@));
    } else if k == "int64_t"@ {
        assert(spec_model_primitive_go_type(k) == Some("int64"@));
        assert(crate::facade::key_go_type(k) == Some("int64"@));
    } else if k == "uint8"@ {
        assert(spec_model_primitive_go_type(k) == Some("uint8"@));
        assert(crate::facade::key_go_type(k) == Some("uint8"@));
    } else if k == "uint8_t"@ {
        assert(spec_model_primitive_go_type(k) == Some("uint8"@));
        assert(crate::facade::key_go_type(k) == Some("uint8"@));
    } else if k == "uint16"@ {
        assert(spec_model_primitive_go_type(k) == Some("uint16"@));
        assert(crate::facade::key_go_type(k) == Some("uint16"@));
    } else if k == "uint16_t"@ {
        assert(spec_model_primitive_go_type(k) == Some("uint16"@));
        assert(crate::facade::key_go_type(k) == Some("uint16"@));
    } else if k == "uint32"@ {
        assert(spec_model_primitive_go_type(k) == Some("uint32"@));
        assert(crate::facade::key_go_type(k) == Some("uint32"@));
    } else if k == "uint32_t"@ {
        assert(spec_model_primitive_go_type(k) == Some("uint32"@));
        assert(crate::facade::key_go_type(k) == Some("uint32"@));
    } else if k == "uint64"@ {
        assert(spec_model_primitive_go_type(k) == Some("uint64"@));
        assert(crate::facade::key_go_type(k) == Some("uint64"@));
    } else if k == "uint64_t"@ {
        assert(spec_model_primitive_go_type(k) == Some("uint64"@));
        assert(crate::facade::key_go_type(k) == Some("uint64"@));
    } else if k == "int"@ {
        assert(spec_model_primitive_go_type(k) == Some("int"@));
        assert(crate::facade::key_go_type(k) == Some("int"@));
    } else if k == "short"@ {
        assert(spec_model_primitive_go_type(k) == Some("int16"@));
        assert(crate::facade::key_go_type(k) == Some("int16"@));
    } else if k == "long"@ {
        assert(spec_model_primitive_go_type(k) == Some("int64"@));
        assert(crate::facade::key_go_type(k) == Some("int64"@));
    } else if k == "size_t"@ {
        assert(spec_model_primitive_go_type(k) == Some("uintptr"@));
        assert(crate::facade::key_go_type(k) == Some("uintptr"@));
    } else {
        assert(spec_model_primitive_go_type(k) is None);
    }
    if crate::facade::is_fixed_width_name(k) {
        if k == "int8"@ {
            assert(k + "_t"@ =~= "int8_t"@);
        } else if k == "int16"@ {
            assert(k + "_t"@ =~= "int16_t"@);
        } else if k == "int32"@ {
            assert(k + "_t"@ =~= "int32_t"@);
        } else if k == "int64"@ {
            assert(k + "_t"@ =~= "int64_t"@);
        } else if k == "uint8"@ {
            assert(k + "_t"@ =~= "uint8_t"@);
        } else if k == "uint16"@ {
            assert(k + "_t"@ =~= "uint16_t"@);
        } else if k == "uint32"@ {
            assert(k + "_t"@ =~= "uint32_t"@);
        } else if k == "uint64"@ {
            assert(k + "_t"@ =~= "uint64_t"@);
        }
    }
}

/// The same for the Go type of a model field's IR type.
pub proof fn law_model_field_type_agrees(t: IrTypeV)
    ensures
        t.kind == IrTypeKind::Primitive && spec_model_go_type(t) is Some ==> spec_model_go_type(t)
            == crate::facade::spec_primitive_go_type(t.cpp_type),
{
    law_model_go_type_agrees(spec_normalize_type_key(t.cpp_type));
}

} // verus!
