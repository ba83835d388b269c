//! Model projections: the classes whose getter/setter pairs the facade can
//! present as Go struct fields.
use vstd::prelude::*;
use crate::codegen::ir_norm::{spec_flatten_qualified_cpp_name, IrFunction, IrFunctionV, IrModule};
use crate::config::{
    snake_boundary, Config, KnownModelField, KnownModelFieldV, KnownModelProjection,
    KnownModelProjectionV,
};
use crate::domain::kind::{type_kind_name, IrFunctionKind, IrTypeKind};
use crate::facade::{go_type_for_ir, leaf_cpp_name, method_name, spec_go_type_for_ir, spec_leaf_cpp_name};
use crate::text;
use crate::text::{concat2, owned, str_eq};

verus! {

// ---------------------------------------------------------------------------
// Go field names
// ---------------------------------------------------------------------------

/// The tokens of the first `k` characters of a PascalCase word (see
/// `snake_boundary`): the finished tokens and the one in progress.
pub open spec fn pascal_tokens_upto(c: Seq<char>, k: int) -> (Seq<Seq<char>>, Seq<char>)
    decreases k,
{
    if k <= 0 {
        (Seq::empty(), Seq::empty())
    } else if k == 1 {
        (Seq::empty(), seq![c[0]])
    } else {
        let (done, cur) = pascal_tokens_upto(c, k - 1);
        if snake_boundary(c, k - 1) {
            (done.push(cur), seq![c[k - 1]])
        } else {
            (done, cur.push(c[k - 1]))
        }
    }
}

/// A word split at its case and digit boundaries: `HTTPServer2` gives
/// `HTTP`, `Server`, `2`.
pub open spec fn spec_split_pascal_tokens(c: Seq<char>) -> Seq<Seq<char>> {
    if c.len() == 0 {
        Seq::empty()
    } else {
        let (done, cur) = pascal_tokens_upto(c, c.len() as int);
        done.push(cur)
    }
}

/// Whether every character is uppercase.
pub open spec fn all_uppercase(t: Seq<char>) -> bool {
    forall|i: int| 0 <= i < t.len() ==> text::is_upper_char(#[trigger] t[i])
}

/// One token of a Go field name: a known initialism in capitals, an
/// all-uppercase token ASCII-uppercased, any other token as it is.
pub open spec fn spec_go_field_token(t: Seq<char>) -> Seq<char> {
    let l = text::ascii_lower_str(t);
    if l == "id"@ {
        "ID"@
    } else if l == "url"@ {
        "URL"@
    } else if l == "db"@ {
        "DB"@
    } else if l == "api"@ {
        "API"@
    } else if l == "http"@ {
        "HTTP"@
    } else if l == "https"@ {
        "HTTPS"@
    } else if l == "json"@ {
        "JSON"@
    } else if l == "xml"@ {
        "XML"@
    } else if all_uppercase(t) {
        text::ascii_upper_str(l)
    } else {
        t
    }
}

/// The field tokens run together.
pub open spec fn field_tokens_concat(ts: Seq<Seq<char>>) -> Seq<char>
    decreases ts.len(),
{
    if ts.len() == 0 {
        Seq::empty()
    } else {
        field_tokens_concat(ts.drop_last()) + spec_go_field_token(ts.last())
    }
}

/// The field names of the `_`-separated parts run together.
pub open spec fn field_parts_concat(ps: Seq<Seq<char>>) -> Seq<char>
    decreases ps.len(),
{
    if ps.len() == 0 {
        Seq::empty()
    } else {
        field_parts_concat(ps.drop_last()) + field_tokens_concat(
            spec_split_pascal_tokens(ps.last()),
        )
    }
}

/// The Go name of a model field: `user_id` and `UserId` both become
/// `UserID`.
pub open spec fn spec_go_field_name(value: Seq<char>) -> Seq<char> {
    field_parts_concat(text::split_char(value, '_'))
}

fn all_uppercase_exec(t: &str) -> (r: bool)
    ensures
        r == all_uppercase(t@),
{
    let c = text::chars_of(t);
    let mut i: usize = 0;
    while i < c.len()
        invariant
            c@ == t@,
            i <= c@.len(),
            forall|j: int| 0 <= j < i ==> text::is_upper_char(#[trigger] c@[j]),
        decreases c@.len() - i,
    {
        if !text::is_uppercase(c[i]) {
            return false;
        }
        i += 1;
    }
    true
}

pub fn go_field_token(t: &str) -> (r: String)
    ensures
        r@ == spec_go_field_token(t@),
{
    let l = text::ascii_lower_string(t);
    let ls = l.as_str();
    if str_eq(ls, "id") {
        owned("ID")
    } else if str_eq(ls, "url") {
        owned("URL")
    } else if str_eq(ls, "db") {
        owned("DB")
    } else if str_eq(ls, "api") {
        owned("API")
    } else if str_eq(ls, "http") {
        owned("HTTP")
    } else if str_eq(ls, "https") {
        owned("HTTPS")
    } else if str_eq(ls, "json") {
        owned("JSON")
    } else if str_eq(ls, "xml") {
        owned("XML")
    } else if all_uppercase_exec(t) {
        text::ascii_upper_string(ls)
    } else {
        owned(t)
    }
}

/// Whether a token boundary falls before position `k`.
fn pascal_boundary(c: &Vec<char>, k: usize) -> (r: bool)
    requires
        0 < k < c@.len(),
    ensures
        r == snake_boundary(c@, k as int),
{
    let prev = c[k - 1];
    let cur = c[k];
    let next_lower = k < c.len() - 1 && text::is_lowercase(c[k + 1]);
    (text::is_lowercase(prev) && text::is_uppercase(cur)) || (text::char_is_ascii_digit(prev)
        && !text::char_is_ascii_digit(cur)) || (!text::char_is_ascii_digit(prev)
        && text::char_is_ascii_digit(cur)) || (text::is_uppercase(prev) && text::is_uppercase(cur)
        && next_lower)
}

/// Appends the field tokens of one `_`-separated part.
fn append_part_tokens(out: &mut String, part: &str)
    ensures
        final(out)@ == old(out)@ + field_tokens_concat(spec_split_pascal_tokens(part@)),
{
    let c = text::chars_of(part);
    let n = c.len();
    if n == 0 {
        assert(field_tokens_concat(Seq::<Seq<char>>::empty()) =~= Seq::<char>::empty());
        assert(out@ =~= old(out)@ + Seq::<char>::empty());
        return;
    }
    let ghost base = out@;
    let mut start: usize = 0;
    let mut k: usize = 1;
    assert(c@.subrange(0, 1) =~= seq![c@[0]]);
    assert(field_tokens_concat(Seq::<Seq<char>>::empty()) =~= Seq::<char>::empty());
    assert(out@ =~= base + Seq::<char>::empty());
    while k < n
        invariant
            n == c@.len(),
            c@ == part@,
            base == old(out)@,
            0 <= start < k <= n,
            out@ == base + field_tokens_concat(pascal_tokens_upto(c@, k as int).0),
            pascal_tokens_upto(c@, k as int).1 == c@.subrange(start as int, k as int),
        decreases n - k,
    {
        let ghost done = pascal_tokens_upto(c@, k as int).0;
        if pascal_boundary(&c, k) {
            let tok = text::string_of_range(&c, start, k);
            let t = go_field_token(tok.as_str());
            out.append(t.as_str());
            assert(done.push(tok@).drop_last() =~= done);
            assert(field_tokens_concat(done.push(tok@)) == field_tokens_concat(done) + t@);
            assert(out@ =~= base + field_tokens_concat(done.push(tok@)));
            start = k;
            assert(c@.subrange(k as int, k + 1) =~= seq![c@[k as int]]);
        } else {
            assert(c@.subrange(start as int, k + 1) =~= c@.subrange(start as int, k as int).push(
                c@[k as int],
            ));
        }
        k += 1;
    }
    let ghost done = pascal_tokens_upto(c@, n as int).0;
    let tok = text::string_of_range(&c, start, n);
    let t = go_field_token(tok.as_str());
    out.append(t.as_str());
    assert(done.push(tok@).drop_last() =~= done);
    assert(out@ =~= base + field_tokens_concat(done.push(tok@)));
}

pub fn go_field_name(value: &str) -> (r: String)
    ensures
        r@ == spec_go_field_name(value@),
{
    let parts = text::split_char_str(value, '_');
    let ghost pv = text::views(parts@);
    let mut out = String::new();
    let mut i: usize = 0;
    assert(pv.take(0) =~= Seq::<Seq<char>>::empty());
    assert(out@ =~= Seq::<char>::empty());
    while i < parts.len()
        invariant
            i <= parts@.len(),
            pv == text::views(parts@),
            out@ == field_parts_concat(pv.take(i as int)),
        decreases parts@.len() - i,
    {
        assert(pv.take(i + 1).drop_last() =~= pv.take(i as int));
        append_part_tokens(&mut out, parts[i].as_str());
        i += 1;
    }
    assert(pv.take(parts@.len() as int) =~= pv);
    out
}

// ---------------------------------------------------------------------------
// Getter/setter pairs
// ---------------------------------------------------------------------------

/// What follows a prefix in a name, where the name starts with the prefix
/// and is longer than it.
pub open spec fn spec_suffix_after(name: Seq<char>, prefix: Seq<char>) -> Option<Seq<char>> {
    if text::starts_with(name, prefix) && name.len() > prefix.len() {
        Some(name.skip(prefix.len() as int))
    } else {
        None
    }
}

fn suffix_after(name: &str, prefix: &str) -> (r: Option<String>)
    ensures
        text::opt_view(r) == spec_suffix_after(name@, prefix@),
{
    if text::has_prefix(name, prefix) {
        let c = text::chars_of(name);
        let p = text::chars_of(prefix);
        if c.len() > p.len() {
            let s = text::string_of_range(&c, p.len(), c.len());
            assert(s@ =~= name@.skip(prefix@.len() as int));
            return Some(s);
        }
    }
    None
}

/// `Get<Suffix>`: the suffix of a method wrapper that takes only its
/// receiver and returns a value.
pub open spec fn spec_getter_suffix(f: IrFunctionV) -> Option<Seq<char>> {
    if f.kind != IrFunctionKind::Method || f.params.len() != 1 || f.returns.kind
        == IrTypeKind::Void {
        None
    } else {
        spec_suffix_after(text::last_segment(f.cpp_name, "::"@), "Get"@)
    }
}

/// `Set<Suffix>`: the suffix of a method wrapper that takes its receiver
/// and one value and returns nothing.
pub open spec fn spec_setter_suffix(f: IrFunctionV) -> Option<Seq<char>> {
    if f.kind != IrFunctionKind::Method || f.params.len() != 2 || f.returns.kind
        != IrTypeKind::Void {
        None
    } else {
        spec_suffix_after(text::last_segment(f.cpp_name, "::"@), "Set"@)
    }
}

pub fn getter_suffix(function: &IrFunction) -> (r: Option<String>)
    ensures
        text::opt_view(r) == spec_getter_suffix(function@),
{
    if function.kind != IrFunctionKind::Method || function.params.len() != 1
        || function.returns.kind == IrTypeKind::Void {
        return None;
    }
    let name = method_name(function);
    suffix_after(name.as_str(), "Get")
}

pub fn setter_suffix(function: &IrFunction) -> (r: Option<String>)
    ensures
        text::opt_view(r) == spec_setter_suffix(function@),
{
    if function.kind != IrFunctionKind::Method || function.params.len() != 2
        || function.returns.kind != IrTypeKind::Void {
        return None;
    }
    let name = method_name(function);
    suffix_after(name.as_str(), "Set")
}

/// Whether a wrapper belongs to the class `owner`.
pub open spec fn owned_by(f: IrFunctionV, owner: Seq<char>) -> bool {
    f.owner_cpp_type == Some(owner)
}

pub(crate) fn owned_by_exec(function: &IrFunction, owner: &str) -> (r: bool)
    ensures
        r == owned_by(function@, owner@),
{
    match &function.owner_cpp_type {
        Some(o) => str_eq(o.as_str(), owner),
        None => false,
    }
}

/// The getter suffix of a method of `owner`.
pub open spec fn owner_getter(f: IrFunctionV, owner: Seq<char>) -> Option<Seq<char>> {
    if owned_by(f, owner) {
        spec_getter_suffix(f)
    } else {
        None
    }
}

/// The setter suffix of a method of `owner`.
pub open spec fn owner_setter(f: IrFunctionV, owner: Seq<char>) -> Option<Seq<char>> {
    if owned_by(f, owner) {
        spec_setter_suffix(f)
    } else {
        None
    }
}

/// The index of the last of the first `n` wrappers that is a setter of
/// `owner` with the given suffix.
pub open spec fn last_setter(fs: Seq<IrFunctionV>, owner: Seq<char>, suffix: Seq<char>, n: int) -> Option<
    int,
>
    decreases n,
{
    if n <= 0 {
        None
    } else if owner_setter(fs[n - 1], owner) == Some(suffix) {
        Some(n - 1)
    } else {
        last_setter(fs, owner, suffix, n - 1)
    }
}

/// Whether a wrapper before index `i` is a getter of `owner` with the
/// given suffix.
pub open spec fn getter_before(fs: Seq<IrFunctionV>, owner: Seq<char>, suffix: Seq<char>, i: int) -> bool {
    exists|j: int| 0 <= j < i && #[trigger] owner_getter(fs[j], owner) == Some(suffix)
}

/// The field that the wrapper at index `i` contributes to the projection
/// of `owner`: for the first getter of each suffix that has a setter (the
/// last one of that suffix), where both carry the same Go type.
pub open spec fn field_at(fs: Seq<IrFunctionV>, owner: Seq<char>, i: int) -> Option<KnownModelFieldV> {
    match owner_getter(fs[i], owner) {
        None => None,
        Some(s) => match last_setter(fs, owner, s, fs.len() as int) {
            None => None,
            Some(j) => if getter_before(fs, owner, s, i) {
                None
            } else {
                match (spec_go_type_for_ir(fs[i].returns), spec_go_type_for_ir(fs[j].params[1].ty)) {
                    (Some(g), Some(t)) => if g == t {
                        Some(
                            KnownModelFieldV {
                                go_name: spec_go_field_name(s),
                                go_type: g,
                                getter_symbol: fs[i].name,
                                setter_symbol: fs[j].name,
                                return_kind: type_kind_name(fs[i].returns.kind),
                            },
                        )
                    } else {
                        None
                    },
                    _ => None,
                }
            },
        },
    }
}

/// The fields that the first `k` wrappers contribute, in order.
pub open spec fn fields_upto(fs: Seq<IrFunctionV>, owner: Seq<char>, k: int) -> Seq<KnownModelFieldV>
    decreases k,
{
    if k <= 0 {
        Seq::empty()
    } else {
        fields_upto(fs, owner, k - 1) + match field_at(fs, owner, k - 1) {
            Some(f) => seq![f],
            None => Seq::empty(),
        }
    }
}

/// The fields of the projection of `owner`.
pub open spec fn model_fields(fs: Seq<IrFunctionV>, owner: Seq<char>) -> Seq<KnownModelFieldV> {
    fields_upto(fs, owner, fs.len() as int)
}

pub open spec fn field_views(s: Seq<KnownModelField>) -> Seq<KnownModelFieldV> {
    s.map_values(|f: KnownModelField| f@)
}

pub(crate) fn last_setter_exec(functions: &Vec<IrFunction>, owner: &str, suffix: &str) -> (r: Option<usize>)
    ensures
        match r {
            Some(j) => last_setter(
                crate::codegen::ir_norm::function_views(functions@),
                owner@,
                suffix@,
                functions@.len() as int,
            ) == Some(j as int),
            None => last_setter(
                crate::codegen::ir_norm::function_views(functions@),
                owner@,
                suffix@,
                functions@.len() as int,
            ) is None,
        },
{
    let ghost fs = crate::codegen::ir_norm::function_views(functions@);
    let mut k: usize = functions.len();
    while k > 0
        invariant
            fs == crate::codegen::ir_norm::function_views(functions@),
            k <= functions@.len(),
            last_setter(fs, owner@, suffix@, functions@.len() as int) == last_setter(fs, owner@, suffix@, k as int),
        decreases k,
    {
        let f = &functions[k - 1];
        assert(fs[k - 1] == f@);
        if owned_by_exec(f, owner) {
            match setter_suffix(f) {
                Some(s) => {
                    if str_eq(s.as_str(), suffix) {
                        return Some(k - 1);
                    }
                },
                None => {},
            }
        }
        k -= 1;
    }
    None
}

pub(crate) fn getter_before_exec(functions: &Vec<IrFunction>, owner: &str, suffix: &str, i: usize) -> (r: bool)
    requires
        i <= functions@.len(),
    ensures
        r == getter_before(crate::codegen::ir_norm::function_views(functions@), owner@, suffix@, i as int),
{
    let ghost fs = crate::codegen::ir_norm::function_views(functions@);
    let mut j: usize = 0;
    while j < i
        invariant
            fs == crate::codegen::ir_norm::function_views(functions@),
            j <= i <= functions@.len(),
            forall|m: int| 0 <= m < j ==> #[trigger] owner_getter(fs[m], owner@) != Some(suffix@),
        decreases i - j,
    {
        let f = &functions[j];
        assert(fs[j as int] == f@);
        if owned_by_exec(f, owner) {
            match getter_suffix(f) {
                Some(s) => {
                    if str_eq(s.as_str(), suffix) {
                        assert(owner_getter(fs[j as int], owner@) == Some(suffix@));
                        return true;
                    }
                },
                None => {},
            }
        }
        j += 1;
    }
    false
}

/// The field of the wrapper at index `i`, as `field_at` describes it.
fn field_at_exec(functions: &Vec<IrFunction>, owner: &str, i: usize) -> (r: Option<KnownModelField>)
    requires
        i < functions@.len(),
    ensures
        match r {
            Some(f) => field_at(crate::codegen::ir_norm::function_views(functions@), owner@, i as int) == Some(f@),
            None => field_at(crate::codegen::ir_norm::function_views(functions@), owner@, i as int) is None,
        },
{
    let ghost fs = crate::codegen::ir_norm::function_views(functions@);
    let f = &functions[i];
    assert(fs[i as int] == f@);
    if !owned_by_exec(f, owner) {
        return None;
    }
    let suffix = match getter_suffix(f) {
        Some(s) => s,
        None => return None,
    };
    let j = match last_setter_exec(functions, owner, suffix.as_str()) {
        Some(j) => j,
        None => return None,
    };
    proof {
        lemma_last_setter_found(fs, owner@, suffix@, functions@.len() as int);
    }
    if getter_before_exec(functions, owner, suffix.as_str(), i) {
        return None;
    }
    let setter = &functions[j];
    assert(fs[j as int] == setter@);
    let getter_ty = match go_type_for_ir(&f.returns) {
        Some(t) => t,
        None => return None,
    };
    assert(owner_setter(fs[j as int], owner@) == Some(suffix@));
    assert(setter@.params.len() == 2);
    assert(setter@.params.len() == setter.params@.len());
    assert(setter@.params[1] == setter.params@[1]@);
    let setter_ty = match go_type_for_ir(&setter.params[1].ty) {
        Some(t) => t,
        None => return None,
    };
    if !str_eq(getter_ty.as_str(), setter_ty.as_str()) {
        return None;
    }
    let r = KnownModelField {
        go_name: go_field_name(suffix.as_str()),
        go_type: getter_ty,
        getter_symbol: f.name.clone(),
        setter_symbol: setter.name.clone(),
        return_kind: owned(f.returns.kind.as_str()),
    };
    Some(r)
}

pub(crate) proof fn lemma_last_setter_found(fs: Seq<IrFunctionV>, owner: Seq<char>, suffix: Seq<char>, n: int)
    requires
        0 <= n <= fs.len(),
    ensures
        match last_setter(fs, owner, suffix, n) {
            Some(j) => 0 <= j < n && owner_setter(fs[j], owner) == Some(suffix),
            None => true,
        },
    decreases n,
{
    if n > 0 {
        lemma_last_setter_found(fs, owner, suffix, n - 1);
    }
}

// ---------------------------------------------------------------------------
// Projections
// ---------------------------------------------------------------------------

/// The name of the last of the first `n` wrappers that has the given kind
/// and belongs to `owner`.
pub open spec fn last_symbol(fs: Seq<IrFunctionV>, kind: IrFunctionKind, owner: Seq<char>, n: int) -> Option<
    Seq<char>,
>
    decreases n,
{
    if n <= 0 {
        None
    } else if fs[n - 1].kind == kind && owned_by(fs[n - 1], owner) {
        Some(fs[n - 1].name)
    } else {
        last_symbol(fs, kind, owner, n - 1)
    }
}

/// The error for a projection whose class lacks a constructor or a
/// destructor wrapper.
pub open spec fn missing_wrapper_message(owner: Seq<char>, what: Seq<char>) -> Seq<char> {
    "model projection `"@ + owner + "` is missing a "@ + what + " wrapper"@
}

/// The projection of the class `owner`: none where no field pairs up; an
/// error where it has fields but no constructor or no destructor wrapper
/// (the last of each counts).
pub open spec fn spec_build_model_projection(
    fs: Seq<IrFunctionV>,
    owner: Seq<char>,
    output_header: Seq<char>,
) -> Result<Option<KnownModelProjectionV>, Seq<char>> {
    let fields = model_fields(fs, owner);
    if fields.len() == 0 {
        Ok(None)
    } else {
        match last_symbol(fs, IrFunctionKind::Constructor, owner, fs.len() as int) {
            None => Err(missing_wrapper_message(owner, "constructor"@)),
            Some(c) => match last_symbol(fs, IrFunctionKind::Destructor, owner, fs.len() as int) {
                None => Err(missing_wrapper_message(owner, "destructor"@)),
                Some(d) => Ok(
                    Some(
                        KnownModelProjectionV {
                            cpp_type: owner,
                            handle_name: spec_flatten_qualified_cpp_name(owner) + "Handle"@,
                            go_name: spec_leaf_cpp_name(owner),
                            output_header,
                            constructor_symbol: c,
                            destructor_symbol: Some(d),
                            fields,
                        },
                    ),
                ),
            },
        }
    }
}

fn last_symbol_exec(functions: &Vec<IrFunction>, kind: IrFunctionKind, owner: &str) -> (r: Option<String>)
    ensures
        text::opt_view(r) == last_symbol(
            crate::codegen::ir_norm::function_views(functions@),
            kind,
            owner@,
            functions@.len() as int,
        ),
{
    let ghost fs = crate::codegen::ir_norm::function_views(functions@);
    let mut k: usize = functions.len();
    while k > 0
        invariant
            fs == crate::codegen::ir_norm::function_views(functions@),
            k <= functions@.len(),
            last_symbol(fs, kind, owner@, functions@.len() as int) == last_symbol(fs, kind, owner@, k as int),
        decreases k,
    {
        let f = &functions[k - 1];
        assert(fs[k - 1] == f@);
        if f.kind == kind && owned_by_exec(f, owner) {
            return Some(f.name.clone());
        }
        k -= 1;
    }
    None
}

pub fn build_model_projection(functions: &Vec<IrFunction>, owner: &str, output_header: &str) -> (r: Result<
    Option<KnownModelProjection>,
    String,
>)
    ensures
        match r {
            Ok(Some(p)) => spec_build_model_projection(
                crate::codegen::ir_norm::function_views(functions@),
                owner@,
                output_header@,
            ) == Ok::<Option<KnownModelProjectionV>, Seq<char>>(Some(p@)),
            Ok(None) => spec_build_model_projection(
                crate::codegen::ir_norm::function_views(functions@),
                owner@,
                output_header@,
            ) == Ok::<Option<KnownModelProjectionV>, Seq<char>>(None),
            Err(e) => spec_build_model_projection(
                crate::codegen::ir_norm::function_views(functions@),
                owner@,
                output_header@,
            ) == Err::<Option<KnownModelProjectionV>, Seq<char>>(e@),
        },
{
    let ghost fs = crate::codegen::ir_norm::function_views(functions@);
    let mut fields: Vec<KnownModelField> = Vec::new();
    let mut i: usize = 0;
    while i < functions.len()
        invariant
            fs == crate::codegen::ir_norm::function_views(functions@),
            i <= functions@.len(),
            field_views(fields@) == fields_upto(fs, owner@, i as int),
        decreases functions@.len() - i,
    {
        let ghost before = field_views(fields@);
        match field_at_exec(functions, owner, i) {
            Some(f) => {
                let ghost fv = f@;
                fields.push(f);
                assert(field_views(fields@) =~= before + seq![fv]);
            },
            None => {
                assert(field_views(fields@) =~= before + Seq::<KnownModelFieldV>::empty());
            },
        }
        i += 1;
    }
    if fields.len() == 0 {
        return Ok(None);
    }
    let constructor = match last_symbol_exec(functions, IrFunctionKind::Constructor, owner) {
        Some(c) => c,
        None => {
            return Err(text::concat5("model projection `", owner, "` is missing a ", "constructor", " wrapper"));
        },
    };
    let destructor = match last_symbol_exec(functions, IrFunctionKind::Destructor, owner) {
        Some(d) => d,
        None => {
            return Err(text::concat5("model projection `", owner, "` is missing a ", "destructor", " wrapper"));
        },
    };
    let flat = crate::codegen::ir_norm::flatten_qualified_cpp_name(owner);
    let p = KnownModelProjection {
        cpp_type: owned(owner),
        handle_name: concat2(flat.as_str(), "Handle"),
        go_name: leaf_cpp_name(owner),
        output_header: owned(output_header),
        constructor_symbol: constructor,
        destructor_symbol: Some(destructor),
        fields,
    };
    Ok(Some(p))
}

/// The class that a method wrapper belongs to.
pub open spec fn method_owner(f: IrFunctionV) -> Option<Seq<char>> {
    if f.kind == IrFunctionKind::Method {
        f.owner_cpp_type
    } else {
        None
    }
}

/// The classes that own method wrappers, each once, sorted.
pub open spec fn method_owners(fs: Seq<IrFunctionV>) -> Seq<Seq<char>> {
    text::sorted_of(
        Set::new(|o: Seq<char>| exists|i: int| 0 <= i < fs.len() && #[trigger] method_owner(fs[i]) == Some(o)),
    )
}

/// The projections of the given classes, in order, or the first error.
pub open spec fn projections_from(
    fs: Seq<IrFunctionV>,
    owners: Seq<Seq<char>>,
    output_header: Seq<char>,
) -> Result<Seq<KnownModelProjectionV>, Seq<char>>
    decreases owners.len(),
{
    if owners.len() == 0 {
        Ok(Seq::empty())
    } else {
        match projections_from(fs, owners.drop_last(), output_header) {
            Err(e) => Err(e),
            Ok(ps) => match spec_build_model_projection(fs, owners.last(), output_header) {
                Err(e) => Err(e),
                Ok(None) => Ok(ps),
                Ok(Some(p)) => Ok(ps.push(p)),
            },
        }
    }
}

/// The model projections of a module: one per class with method wrappers
/// whose getters and setters pair up, in the order of the class names,
/// each naming the configured output header.
pub open spec fn spec_collect_known_model_projections(config: Config, ir: IrModule) -> Result<
    Seq<KnownModelProjectionV>,
    Seq<char>,
> {
    let fs = crate::codegen::ir_norm::function_views(ir.functions@);
    projections_from(fs, method_owners(fs), config.output.header@)
}

pub open spec fn projection_views(s: Seq<KnownModelProjection>) -> Seq<KnownModelProjectionV> {
    s.map_values(|p: KnownModelProjection| p@)
}

pub(crate) fn collect_method_owners(functions: &Vec<IrFunction>) -> (r: Vec<String>)
    ensures
        text::sorted_strictly(text::views(r@)),
        text::views(r@) == method_owners(crate::codegen::ir_norm::function_views(functions@)),
{
    let ghost fs = crate::codegen::ir_norm::function_views(functions@);
    let mut names: Vec<String> = Vec::new();
    let mut i: usize = 0;
    assert(text::views(names@).to_set() =~= Set::new(
        |o: Seq<char>| exists|j: int| 0 <= j < 0 && #[trigger] method_owner(fs[j]) == Some(o),
    ));
    while i < functions.len()
        invariant
            fs == crate::codegen::ir_norm::function_views(functions@),
            i <= functions@.len(),
            text::sorted_strictly(text::views(names@)),
            text::views(names@).to_set() == Set::new(
                |o: Seq<char>| exists|j: int| 0 <= j < i && #[trigger] method_owner(fs[j]) == Some(o),
            ),
        decreases functions@.len() - i,
    {
        let f = &functions[i];
        assert(fs[i as int] == f@);
        let ghost had = text::views(names@).to_set();
        if f.kind == IrFunctionKind::Method {
            match &f.owner_cpp_type {
                Some(o) => {
                    if !text::contains_string(&names, o.as_str()) {
                        text::insert_sorted(&mut names, o.clone());
                    }
                },
                None => {},
            }
        }
        proof {
            let now = text::views(names@).to_set();
            let want = Set::new(
                |o: Seq<char>| exists|j: int| 0 <= j < i + 1 && #[trigger] method_owner(fs[j]) == Some(o),
            );
            assert forall|x: Seq<char>| #[trigger] now.contains(x) == want.contains(x) by {
                if want.contains(x) {
                    let j = choose|j: int| 0 <= j < i + 1 && #[trigger] method_owner(fs[j]) == Some(x);
                    if j < i {
                        assert(had.contains(x));
                    }
                }
                if had.contains(x) {
                    let j = choose|j: int| 0 <= j < i && #[trigger] method_owner(fs[j]) == Some(x);
                    assert(want.contains(x));
                }
                if method_owner(fs[i as int]) == Some(x) {
                    assert(want.contains(x));
                }
            }
            assert(now =~= want);
        }
        i += 1;
    }
    proof {
        text::lemma_sorted_of(text::views(names@));
        assert(text::views(names@).to_set() =~= Set::new(
            |o: Seq<char>| exists|j: int| 0 <= j < fs.len() && #[trigger] method_owner(fs[j]) == Some(o),
        ));
    }
    names
}

pub fn collect_known_model_projections(config: &Config, ir: &IrModule) -> (r: Result<
    Vec<KnownModelProjection>,
    String,
>)
    ensures
        match r {
            Ok(ps) => spec_collect_known_model_projections(*config, *ir) == Ok::<
                Seq<KnownModelProjectionV>,
                Seq<char>,
            >(projection_views(ps@)),
            Err(e) => spec_collect_known_model_projections(*config, *ir) == Err::<
                Seq<KnownModelProjectionV>,
                Seq<char>,
            >(e@),
        },
        r matches Ok(ps) ==> projections_well_formed(projection_views(ps@)),
{
    let ghost fs = crate::codegen::ir_norm::function_views(ir.functions@);
    let owners = collect_method_owners(&ir.functions);
    let ghost ov = text::views(owners@);
    let header = config.raw_include_for_go(config.output.header.as_str());
    let mut out: Vec<KnownModelProjection> = Vec::new();
    let mut k: usize = 0;
    assert(ov.take(0) =~= Seq::<Seq<char>>::empty());
    assert(projection_views(out@) =~= Seq::<KnownModelProjectionV>::empty());
    while k < owners.len()
        invariant
            fs == crate::codegen::ir_norm::function_views(ir.functions@),
            ov == text::views(owners@),
            ov == method_owners(fs),
            header@ == config.output.header@,
            k <= owners@.len(),
            projections_from(fs, ov.take(k as int), header@) == Ok::<
                Seq<KnownModelProjectionV>,
                Seq<char>,
            >(projection_views(out@)),
        decreases owners@.len() - k,
    {
        assert(ov.take(k + 1).drop_last() =~= ov.take(k as int));
        assert(ov.take(k + 1).last() == owners@[k as int]@);
        let ghost before = projection_views(out@);
        match build_model_projection(&ir.functions, owners[k].as_str(), header.as_str()) {
            Err(e) => {
                proof {
                    lemma_projections_err_stays(fs, ov, header@, k + 1, e@);
                }
                return Err(e);
            },
            Ok(None) => {},
            Ok(Some(p)) => {
                let ghost pv = p@;
                out.push(p);
                assert(projection_views(out@) =~= before.push(pv));
            },
        }
        k += 1;
    }
    assert(ov.take(owners@.len() as int) =~= ov);
    proof {
        law_projections_sorted_and_complete(fs, ov, header@);
    }
    Ok(out)
}

/// The class names of projections, in order.
pub open spec fn projection_cpp_types(ps: Seq<KnownModelProjectionV>) -> Seq<Seq<char>> {
    ps.map_values(|p: KnownModelProjectionV| p.cpp_type)
}

/// Projections that come in the order of their class names, each class
/// once, each with at least one field and a destructor.
pub open spec fn projections_well_formed(ps: Seq<KnownModelProjectionV>) -> bool {
    &&& text::sorted_strictly(projection_cpp_types(ps))
    &&& forall|j: int|
        0 <= j < ps.len() ==> (#[trigger] ps[j]).fields.len() > 0 && ps[j].destructor_symbol is Some
}

/// For class names in sorted order, the projections come in that order,
/// one per class at most, each with at least one field and a destructor,
/// each for one of the classes.
pub proof fn law_projections_sorted_and_complete(
    fs: Seq<IrFunctionV>,
    owners: Seq<Seq<char>>,
    output_header: Seq<char>,
)
    requires
        text::sorted_strictly(owners),
        projections_from(fs, owners, output_header) is Ok,
    ensures
        projections_well_formed(projections_from(fs, owners, output_header)->Ok_0),
        forall|j: int|
            0 <= j < projections_from(fs, owners, output_header)->Ok_0.len() ==> owners.contains(
                (#[trigger] projections_from(fs, owners, output_header)->Ok_0[j]).cpp_type,
            ),
    decreases owners.len(),
{
    if owners.len() > 0 {
        let pre = owners.drop_last();
        let o = owners.last();
        assert(text::sorted_strictly(pre)) by {
            assert forall|i: int, j: int| 0 <= i < j < pre.len() implies text::seq_lt(
                #[trigger] pre[i],
                #[trigger] pre[j],
            ) by {
                assert(pre[i] == owners[i] && pre[j] == owners[j]);
            }
        }
        law_projections_sorted_and_complete(fs, pre, output_header);
        let ps0 = projections_from(fs, pre, output_header)->Ok_0;
        let ps = projections_from(fs, owners, output_header)->Ok_0;
        assert forall|j: int| 0 <= j < ps0.len() implies owners.contains(#[trigger] ps0[j].cpp_type) by {
            let i = choose|i: int| 0 <= i < pre.len() && pre[i] == ps0[j].cpp_type;
            assert(owners[i] == ps0[j].cpp_type);
        }
        match spec_build_model_projection(fs, o, output_header) {
            Ok(Some(p)) => {
                assert(ps == ps0.push(p));
                let c0 = projection_cpp_types(ps0);
                let c = projection_cpp_types(ps);
                assert(c =~= c0.push(o));
                assert forall|i: int, j: int| 0 <= i < j < c.len() implies text::seq_lt(
                    #[trigger] c[i],
                    #[trigger] c[j],
                ) by {
                    if j < c.len() - 1 {
                        assert(c[i] == c0[i] && c[j] == c0[j]);
                    } else {
                        assert(c[i] == ps0[i].cpp_type);
                        let k = choose|k: int| 0 <= k < pre.len() && pre[k] == ps0[i].cpp_type;
                        assert(owners[k] == c[i]);
                        assert(c[j] == owners[owners.len() - 1]);
                    }
                }
                assert forall|j: int| 0 <= j < ps.len() implies owners.contains(
                    (#[trigger] ps[j]).cpp_type,
                ) by {
                    if j < ps0.len() {
                        assert(ps[j] == ps0[j]);
                    } else {
                        assert(owners[owners.len() - 1] == o);
                    }
                }
                assert forall|j: int| 0 <= j < ps.len() implies (#[trigger] ps[j]).fields.len() > 0
                    && ps[j].destructor_symbol is Some by {
                    if j < ps0.len() {
                        assert(ps[j] == ps0[j]);
                    }
                }
            },
            _ => {
                assert(ps == ps0);
            },
        }
    }
}

proof fn lemma_projections_err_stays(
    fs: Seq<IrFunctionV>,
    owners: Seq<Seq<char>>,
    header: Seq<char>,
    k: int,
    e: Seq<char>,
)
    requires
        0 <= k <= owners.len(),
        projections_from(fs, owners.take(k), header) == Err::<Seq<KnownModelProjectionV>, Seq<char>>(e),
    ensures
        projections_from(fs, owners, header) == Err::<Seq<KnownModelProjectionV>, Seq<char>>(e),
    decreases owners.len() - k,
{
    if k < owners.len() {
        assert(owners.take(k + 1).drop_last() =~= owners.take(k));
        lemma_projections_err_stays(fs, owners, header, k + 1, e);
    } else {
        assert(owners.take(k) =~= owners);
    }
}

proof fn lemma_fields_from_wrappers(fs: Seq<IrFunctionV>, owner: Seq<char>, k: int)
    requires
        0 <= k <= fs.len(),
    ensures
        forall|m: int|
            0 <= m < fields_upto(fs, owner, k).len() ==> exists|i: int|
                0 <= i < k && field_at(fs, owner, i) == Some(#[trigger] fields_upto(fs, owner, k)[m]),
    decreases k,
{
    if k > 0 {
        lemma_fields_from_wrappers(fs, owner, k - 1);
        let pre = fields_upto(fs, owner, k - 1);
        let all = fields_upto(fs, owner, k);
        assert forall|m: int| 0 <= m < all.len() implies exists|i: int|
            0 <= i < k && field_at(fs, owner, i) == Some(#[trigger] all[m]) by {
            if m < pre.len() {
                assert(all[m] == pre[m]);
                let i = choose|i: int| 0 <= i < k - 1 && field_at(fs, owner, i) == Some(#[trigger] pre[m]);
                assert(field_at(fs, owner, i) == Some(all[m]));
            } else {
                assert(field_at(fs, owner, k - 1) == Some(all[m]));
            }
        }
    }
}

/// The projection of a class: none where no getter and setter pair up;
/// otherwise, given its (last) constructor and destructor wrappers, the
/// projection named after the class with those symbols, and each of its
/// fields comes from a getter of the class whose setter (the last of that
/// name) takes a value of the same Go type; an error where either wrapper
/// is missing.
pub proof fn law_projection_built(fs: Seq<IrFunctionV>, owner: Seq<char>, output_header: Seq<char>)
    ensures
        model_fields(fs, owner).len() == 0 ==> spec_build_model_projection(fs, owner, output_header)
            == Ok::<Option<KnownModelProjectionV>, Seq<char>>(None),
        ({
            let c = last_symbol(fs, IrFunctionKind::Constructor, owner, fs.len() as int);
            let d = last_symbol(fs, IrFunctionKind::Destructor, owner, fs.len() as int);
            model_fields(fs, owner).len() > 0 && c is Some && d is Some ==> spec_build_model_projection(
                fs,
                owner,
                output_header,
            ) == Ok::<Option<KnownModelProjectionV>, Seq<char>>(
                Some(
                    KnownModelProjectionV {
                        cpp_type: owner,
                        handle_name: spec_flatten_qualified_cpp_name(owner) + "Handle"@,
                        go_name: spec_leaf_cpp_name(owner),
                        output_header,
                        constructor_symbol: c->0,
                        destructor_symbol: d,
                        fields: model_fields(fs, owner),
                    },
                ),
            )
        }),
        model_fields(fs, owner).len() > 0 && last_symbol(fs, IrFunctionKind::Constructor, owner, fs.len() as int)
            is None ==> spec_build_model_projection(fs, owner, output_header) is Err,
        forall|m: int|
            0 <= m < model_fields(fs, owner).len() ==> exists|i: int|
                0 <= i < fs.len() && field_at(fs, owner, i) == Some(#[trigger] model_fields(fs, owner)[m]),
{
    lemma_fields_from_wrappers(fs, owner, fs.len() as int);
}

} // verus!
