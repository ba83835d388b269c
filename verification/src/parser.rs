//! The declarations that the header parser collects, and the pure rules
//! that the parser applies to names and type spellings.
use vstd::prelude::*;
use crate::parsing::compiler::{spec_split_whitespace, split_whitespace};
use crate::text;

verus! {

/// Everything collected from the parsed translation units.
#[derive(Debug, Clone)]
pub struct ParsedApi {
    pub headers: Vec<String>,
    pub functions: Vec<CppFunction>,
    pub classes: Vec<CppClass>,
    pub enums: Vec<CppEnum>,
    pub callbacks: Vec<CppCallbackTypedef>,
}

/// A class or struct definition with its public members.
#[derive(Debug, Clone, PartialEq, Eq, PartialOrd, Ord)]
pub struct CppClass {
    pub source_header: String,
    pub namespace: Vec<String>,
    pub name: String,
    pub methods: Vec<CppMethod>,
    pub constructors: Vec<CppConstructor>,
    pub fields: Vec<CppField>,
    pub has_destructor: bool,
    pub has_declared_constructor: bool,
    pub is_abstract: bool,
    pub is_struct: bool,
}

/// A free function declaration.
#[derive(Debug, Clone, PartialEq, Eq, PartialOrd, Ord)]
pub struct CppFunction {
    pub source_header: String,
    pub namespace: Vec<String>,
    pub name: String,
    pub return_type: String,
    pub return_canonical_type: String,
    pub return_is_function_pointer: bool,
    pub params: Vec<CppParam>,
}

/// A public method declaration.
#[derive(Debug, Clone, PartialEq, Eq, PartialOrd, Ord)]
pub struct CppMethod {
    pub name: String,
    pub return_type: String,
    pub return_canonical_type: String,
    pub return_is_function_pointer: bool,
    pub params: Vec<CppParam>,
    pub is_const: bool,
}

/// A public constructor declaration.
#[derive(Debug, Clone, PartialEq, Eq, PartialOrd, Ord)]
pub struct CppConstructor {
    pub params: Vec<CppParam>,
}

/// A public data member of a struct.
#[derive(Debug, Clone, PartialEq, Eq, PartialOrd, Ord)]
pub struct CppField {
    pub name: String,
    pub ty: String,
    pub canonical_ty: String,
    pub is_function_pointer: bool,
}

/// A parameter of a function, method, constructor or callback.
#[derive(Debug, Clone, PartialEq, Eq, PartialOrd, Ord)]
pub struct CppParam {
    pub name: String,
    pub ty: String,
    pub canonical_ty: String,
    pub is_function_pointer: bool,
    pub callback_typedef: Option<String>,
}

/// A typedef of a function pointer type.
#[derive(Debug, Clone, PartialEq, Eq, PartialOrd, Ord)]
pub struct CppCallbackTypedef {
    pub source_header: String,
    pub namespace: Vec<String>,
    pub name: String,
    pub return_type: String,
    pub return_canonical_type: String,
    pub params: Vec<CppParam>,
}

/// An enum declaration.
#[derive(Debug, Clone, PartialEq, Eq, PartialOrd, Ord)]
pub struct CppEnum {
    pub source_header: String,
    pub namespace: Vec<String>,
    pub name: String,
    pub variants: Vec<CppEnumVariant>,
}

/// One enumerator.
#[derive(Debug, Clone, PartialEq, Eq, PartialOrd, Ord)]
pub struct CppEnumVariant {
    pub name: String,
    pub value: Option<String>,
}

impl ParsedApi {
    /// Whether nothing was collected: no function, class, enum or callback.
    pub fn is_empty(&self) -> (r: bool)
        ensures
            r == (self.functions@.len() == 0 && self.classes@.len() == 0 && self.enums@.len() == 0
                && self.callbacks@.len() == 0),
    {
        self.functions.len() == 0 && self.classes.len() == 0 && self.enums.len() == 0
            && self.callbacks.len() == 0
    }
}

/// Whether clang spells an enum without a name.
pub open spec fn spec_is_unnamed_enum_spelling(name: Seq<char>) -> bool {
    text::starts_with(name, "(unnamed enum at "@)
}

pub fn is_unnamed_enum_spelling(name: &str) -> (r: bool)
    ensures
        r == spec_is_unnamed_enum_spelling(name@),
{
    text::has_prefix(name, "(unnamed enum at ")
}

/// A type spelling with its blanks reduced: runs of whitespace become one
/// space, and no space stays next to `&`, `*`, `<` or `>` where clang
/// puts one.
pub open spec fn spec_canonicalize_type_name(value: Seq<char>) -> Seq<char> {
    let joined = text::join(spec_split_whitespace(value), " "@);
    text::trim(
        text::replace(
            text::replace(
                text::replace(
                    text::replace(text::replace(joined, " &"@, "&"@), "* "@, "*"@),
                    " *"@,
                    "*"@,
                ),
                "< "@,
                "<"@,
            ),
            " >"@,
            ">"@,
        ),
    )
}

pub fn canonicalize_type_name(value: &str) -> (r: String)
    ensures
        r@ == spec_canonicalize_type_name(value@),
{
    proof {
        reveal_strlit(" &");
        reveal_strlit("* ");
        reveal_strlit(" *");
        reveal_strlit("< ");
        reveal_strlit(" >");
    }
    let words = split_whitespace(value);
    let joined = text::join_strings(&words, " ");
    let a = text::replace_str(joined.as_str(), " &", "&");
    let b = text::replace_str(a.as_str(), "* ", "*");
    let c = text::replace_str(b.as_str(), " *", "*");
    let d = text::replace_str(c.as_str(), "< ", "<");
    let e = text::replace_str(d.as_str(), " >", ">");
    text::trim_str(e.as_str())
}

/// Whether the parser collects a declaration. In a configuration without
/// an input directory, only declarations of the parsed file itself (and of
/// the target header, where one is set); otherwise only declarations in
/// headers under the input directory (the target header alone, where one
/// is set). Never those of system headers.
pub open spec fn spec_should_collect(
    in_system_header: bool,
    main_file_only: bool,
    in_main_file: bool,
    has_location: bool,
    has_owned_dir: bool,
    within_owned_dir: bool,
    in_header_file: bool,
    has_target: bool,
    at_target: bool,
) -> bool {
    if in_system_header {
        false
    } else if main_file_only {
        in_main_file && (!has_target || (has_location && at_target))
    } else {
        has_location && has_owned_dir && within_owned_dir && in_header_file && (!has_target
            || at_target)
    }
}

pub fn should_collect(
    in_system_header: bool,
    main_file_only: bool,
    in_main_file: bool,
    has_location: bool,
    has_owned_dir: bool,
    within_owned_dir: bool,
    in_header_file: bool,
    has_target: bool,
    at_target: bool,
) -> (r: bool)
    ensures
        r == spec_should_collect(
            in_system_header,
            main_file_only,
            in_main_file,
            has_location,
            has_owned_dir,
            within_owned_dir,
            in_header_file,
            has_target,
            at_target,
        ),
{
    if in_system_header {
        return false;
    }
    if main_file_only {
        if !in_main_file {
            return false;
        }
        return !has_target || (has_location && at_target);
    }
    has_location && has_owned_dir && within_owned_dir && in_header_file && (!has_target || at_target)
}

/// What the parser collects never comes from a system header. Without an
/// input directory it comes from the parsed file itself (and from the
/// target header, where one is set). With one, it comes from a header file
/// under that directory (the target header, where one is set): a
/// declaration outside the input directory is never collected.
pub proof fn law_collect_scope(
    in_system_header: bool,
    main_file_only: bool,
    in_main_file: bool,
    has_location: bool,
    has_owned_dir: bool,
    within_owned_dir: bool,
    in_header_file: bool,
    has_target: bool,
    at_target: bool,
)
    ensures
        ({
            let c = spec_should_collect(
                in_system_header,
                main_file_only,
                in_main_file,
                has_location,
                has_owned_dir,
                within_owned_dir,
                in_header_file,
                has_target,
                at_target,
            );
            &&& c ==> !in_system_header
            &&& c && main_file_only ==> in_main_file && (has_target ==> has_location && at_target)
            &&& c && !main_file_only ==> has_location && has_owned_dir && within_owned_dir
                && in_header_file && (has_target ==> at_target)
        }),
{
}

/// The access of a class member as clang reports it.
#[derive(Debug, Clone, Copy, PartialEq, Eq, Structural)]
pub enum MemberAccess {
    Public,
    Protected,
    Private,
    Unspecified,
}

/// Whether the parser reads a member: a public one, or in a struct one
/// whose access clang leaves unspecified.
pub open spec fn spec_is_accessible(access: MemberAccess, is_struct: bool) -> bool {
    access == MemberAccess::Public || (is_struct && access == MemberAccess::Unspecified)
}

pub fn is_accessible(access: MemberAccess, is_struct: bool) -> (r: bool)
    ensures
        r == spec_is_accessible(access, is_struct),
{
    access == MemberAccess::Public || (is_struct && access == MemberAccess::Unspecified)
}

/// Whether a parsed class is kept: it declares a constructor or a
/// destructor, or has a method the parser read.
pub fn keeps_class(class: &CppClass) -> (r: bool)
    ensures
        r == (class.has_declared_constructor || class.has_destructor || class.methods@.len() > 0),
{
    class.has_declared_constructor || class.has_destructor || class.methods.len() > 0
}

/// The name of the parameter at `index`: its own, or `arg<index>` where it
/// has none or is called `arg`.
pub open spec fn spec_param_name(name: Seq<char>, index: nat) -> Seq<char> {
    if name.len() == 0 || name == "arg"@ {
        "arg"@ + text::decimal(index)
    } else {
        name
    }
}

pub fn param_name(name: &str, index: usize) -> (r: String)
    ensures
        r@ == spec_param_name(name@, index as nat),
{
    if name.is_empty() || text::str_eq(name, "arg") {
        let n = text::usize_to_string(index);
        text::concat2("arg", n.as_str())
    } else {
        text::owned(name)
    }
}

/// The items whose flag is set, in order.
pub open spec fn select_items<T>(items: Seq<T>, keep: Seq<bool>) -> Seq<T>
    decreases items.len(),
{
    if items.len() == 0 || keep.len() != items.len() {
        Seq::empty()
    } else {
        select_items(items.drop_last(), keep.drop_last()) + if keep.last() {
            seq![items.last()]
        } else {
            Seq::empty()
        }
    }
}

/// Keeps the items whose flag is set, moving them, in order.
pub fn select_vec<T>(items: Vec<T>, keep: &Vec<bool>) -> (r: Vec<T>)
    requires
        items@.len() == keep@.len(),
    ensures
        r@ == select_items(items@, keep@),
{
    let ghost orig = items@;
    let mut rest = items;
    let mut out: Vec<T> = Vec::new();
    let mut i: usize = 0;
    let n = keep.len();
    assert(orig.take(0) =~= Seq::<T>::empty());
    assert(rest@ =~= orig.skip(0));
    while rest.len() > 0
        invariant
            orig.len() == keep@.len(),
            n == keep@.len(),
            i <= orig.len(),
            rest@ == orig.skip(i as int),
            out@ == select_items(orig.take(i as int), keep@.take(i as int)),
        decreases rest@.len(),
    {
        let x = rest.remove(0);
        assert(x == orig[i as int]);
        assert(orig.take(i + 1).drop_last() =~= orig.take(i as int));
        assert(keep@.take(i + 1).drop_last() =~= keep@.take(i as int));
        assert(orig.take(i + 1).last() == x);
        let ghost before = out@;
        if keep[i] {
            out.push(x);
            assert(out@ =~= before + seq![orig[i as int]]);
        } else {
            assert(out@ =~= before + Seq::<T>::empty());
        }
        assert(rest@ =~= orig.skip(i + 1));
        i += 1;
    }
    assert(i == orig.len());
    assert(orig.take(i as int) =~= orig);
    assert(keep@.take(i as int) =~= keep@);
    out
}

/// The declarations of one header: `header` as the only header, and of
/// each list the items whose flag says they come from that header (which
/// the caller tells by comparing paths on the file system).
pub fn filter_to_header(
    api: ParsedApi,
    header: String,
    function_flags: &Vec<bool>,
    class_flags: &Vec<bool>,
    enum_flags: &Vec<bool>,
    callback_flags: &Vec<bool>,
) -> (r: ParsedApi)
    requires
        function_flags@.len() == api.functions@.len(),
        class_flags@.len() == api.classes@.len(),
        enum_flags@.len() == api.enums@.len(),
        callback_flags@.len() == api.callbacks@.len(),
    ensures
        text::views(r.headers@) == seq![header@],
        r.functions@ == select_items(api.functions@, function_flags@),
        r.classes@ == select_items(api.classes@, class_flags@),
        r.enums@ == select_items(api.enums@, enum_flags@),
        r.callbacks@ == select_items(api.callbacks@, callback_flags@),
{
    let ghost hv = header@;
    let mut headers: Vec<String> = Vec::new();
    headers.push(header);
    assert(text::views(headers@) =~= seq![hv]);
    ParsedApi {
        headers,
        functions: select_vec(api.functions, function_flags),
        classes: select_vec(api.classes, class_flags),
        enums: select_vec(api.enums, enum_flags),
        callbacks: select_vec(api.callbacks, callback_flags),
    }
}

} // verus!
