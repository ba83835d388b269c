//! The generator's configuration, as the YAML config file describes it once
//! its relative paths are resolved, and the rules that derive output names
//! and model lookups from it.
use vstd::prelude::*;
use crate::parsing::compiler::{clang_args_view, include_arg, keep_arg, ClangArg};
use crate::text;
use crate::text::{clone_strings, concat2, copy_opt, opt_view, owned, str_eq, trim_str};

verus! {

/// The whole configuration of one generator run.
#[derive(Debug, Clone)]
pub struct Config {
    pub version: Option<u32>,
    pub project_root: Option<String>,
    pub input: InputConfig,
    pub output: OutputConfig,
    pub naming: NamingConfig,
    pub policies: PolicyConfig,
    pub known_model_types: Vec<String>,
    pub known_model_projections: Vec<KnownModelProjection>,
    pub target_header: Option<String>,
}

/// A model class whose Go projection is known to the facade renderer.
#[derive(Debug, Clone)]
pub struct KnownModelProjection {
    pub cpp_type: String,
    pub handle_name: String,
    pub go_name: String,
    pub output_header: String,
    pub constructor_symbol: String,
    pub destructor_symbol: Option<String>,
    pub fields: Vec<KnownModelField>,
}

/// One getter/setter pair of a known model projection.
#[derive(Debug, Clone)]
pub struct KnownModelField {
    pub go_name: String,
    pub go_type: String,
    pub getter_symbol: String,
    pub setter_symbol: String,
    pub return_kind: String,
}

/// The mathematical value of a `KnownModelField`.
pub struct KnownModelFieldV {
    pub go_name: Seq<char>,
    pub go_type: Seq<char>,
    pub getter_symbol: Seq<char>,
    pub setter_symbol: Seq<char>,
    pub return_kind: Seq<char>,
}

impl View for KnownModelField {
    type V = KnownModelFieldV;

    open spec fn view(&self) -> KnownModelFieldV {
        KnownModelFieldV {
            go_name: self.go_name@,
            go_type: self.go_type@,
            getter_symbol: self.getter_symbol@,
            setter_symbol: self.setter_symbol@,
            return_kind: self.return_kind@,
        }
    }
}

/// The mathematical value of a `KnownModelProjection`.
pub struct KnownModelProjectionV {
    pub cpp_type: Seq<char>,
    pub handle_name: Seq<char>,
    pub go_name: Seq<char>,
    pub output_header: Seq<char>,
    pub constructor_symbol: Seq<char>,
    pub destructor_symbol: Option<Seq<char>>,
    pub fields: Seq<KnownModelFieldV>,
}

impl View for KnownModelProjection {
    type V = KnownModelProjectionV;

    open spec fn view(&self) -> KnownModelProjectionV {
        KnownModelProjectionV {
            cpp_type: self.cpp_type@,
            handle_name: self.handle_name@,
            go_name: self.go_name@,
            output_header: self.output_header@,
            constructor_symbol: self.constructor_symbol@,
            destructor_symbol: opt_view(self.destructor_symbol),
            fields: self.fields@.map_values(|f: KnownModelField| f@),
        }
    }
}

/// The `input` section of the config.
#[derive(Debug, Clone)]
pub struct InputConfig {
    pub dir: Option<String>,
    pub headers: Vec<String>,
    pub dirs: Vec<String>,
    pub header_dirs: Vec<String>,
    pub translation_units: Vec<String>,
    pub compile_commands: Option<String>,
    pub clang_args: Vec<String>,
    pub ldflags: Vec<String>,
    pub allow_diagnostics: bool,
}

/// The `output` section of the config.
#[derive(Debug, Clone)]
pub struct OutputConfig {
    pub dir: String,
    pub header: String,
    pub source: String,
    pub ir: String,
}

/// The `naming` section of the config.
#[derive(Debug, Clone)]
pub struct NamingConfig {
    pub prefix: String,
    pub style: String,
}

/// The `policies` section of the config.
#[derive(Debug, Clone)]
pub struct PolicyConfig {
    pub string_mode: String,
    pub enum_mode: String,
    pub unsupported: UnsupportedPolicy,
}

/// The `policies.unsupported` section of the config.
#[derive(Debug, Clone)]
pub struct UnsupportedPolicy {
    pub templates: String,
    pub stl_containers: String,
    pub exceptions: String,
}

pub open spec fn default_output_dir() -> Seq<char> {
    "gen"@
}

pub open spec fn default_header_name() -> Seq<char> {
    "wrapper.h"@
}

pub open spec fn default_source_name() -> Seq<char> {
    "wrapper.cpp"@
}

pub open spec fn default_ir_name() -> Seq<char> {
    "wrapper.ir.yaml"@
}

pub open spec fn default_prefix() -> Seq<char> {
    "cgowrap"@
}

pub open spec fn default_style() -> Seq<char> {
    "preserve"@
}

impl Default for InputConfig {
    fn default() -> (r: Self)
        ensures
            r.dir is None,
            r.headers@.len() == 0,
            r.dirs@.len() == 0,
            r.header_dirs@.len() == 0,
            r.translation_units@.len() == 0,
            r.compile_commands is None,
            r.clang_args@.len() == 0,
            r.ldflags@.len() == 0,
            !r.allow_diagnostics,
    {
        InputConfig {
            dir: None,
            headers: Vec::new(),
            dirs: Vec::new(),
            header_dirs: Vec::new(),
            translation_units: Vec::new(),
            compile_commands: None,
            clang_args: Vec::new(),
            ldflags: Vec::new(),
            allow_diagnostics: false,
        }
    }
}

impl Default for OutputConfig {
    fn default() -> (r: Self)
        ensures
            r.dir@ == default_output_dir(),
            r.header@ == default_header_name(),
            r.source@ == default_source_name(),
            r.ir@ == default_ir_name(),
    {
        OutputConfig {
            dir: owned("gen"),
            header: owned("wrapper.h"),
            source: owned("wrapper.cpp"),
            ir: owned("wrapper.ir.yaml"),
        }
    }
}

impl Default for NamingConfig {
    fn default() -> (r: Self)
        ensures
            r.prefix@ == default_prefix(),
            r.style@ == default_style(),
    {
        NamingConfig { prefix: owned("cgowrap"), style: owned("preserve") }
    }
}

impl Default for UnsupportedPolicy {
    fn default() -> (r: Self)
        ensures
            r.templates@ == "error"@,
            r.stl_containers@ == "skip"@,
            r.exceptions@ == "error"@,
    {
        UnsupportedPolicy {
            templates: owned("error"),
            stl_containers: owned("skip"),
            exceptions: owned("error"),
        }
    }
}

impl Default for PolicyConfig {
    fn default() -> (r: Self)
        ensures
            r.string_mode@ == "c_str"@,
            r.enum_mode@ == "c_enum"@,
            r.unsupported.templates@ == "error"@,
            r.unsupported.stl_containers@ == "skip"@,
            r.unsupported.exceptions@ == "error"@,
    {
        PolicyConfig {
            string_mode: owned("c_str"),
            enum_mode: owned("c_enum"),
            unsupported: UnsupportedPolicy::default(),
        }
    }
}

impl Default for Config {
    fn default() -> (r: Self)
        ensures
            r.version is None,
            r.project_root is None,
            r.input.dir is None,
            r.input.headers@.len() == 0,
            r.input.translation_units@.len() == 0,
            r.input.compile_commands is None,
            r.input.clang_args@.len() == 0,
            r.output.dir@ == default_output_dir(),
            r.output.header@ == default_header_name(),
            r.output.source@ == default_source_name(),
            r.output.ir@ == default_ir_name(),
            r.naming.prefix@ == default_prefix(),
            r.naming.style@ == default_style(),
            r.known_model_types@.len() == 0,
            r.known_model_projections@.len() == 0,
            r.target_header is None,
    {
        Config {
            version: None,
            project_root: None,
            input: InputConfig::default(),
            output: OutputConfig::default(),
            naming: NamingConfig::default(),
            policies: PolicyConfig::default(),
            known_model_types: Vec::new(),
            known_model_projections: Vec::new(),
            target_header: None,
        }
    }
}


// ---------------------------------------------------------------------------
// File names
// ---------------------------------------------------------------------------

/// What `Path::file_stem` gives for a path: the final component without
/// its last extension, where there is a final component, as the path
/// syntax of the platform the library is built for reads it.
pub uninterp spec fn path_file_stem(path: Seq<char>) -> Option<Seq<char>>;

/// Calls `Path::file_stem` on the path and converts the stem back to a
/// string; the result is named `path_file_stem` of the path.
#[verifier::external_body]
pub(crate) fn file_stem(path: &str) -> (r: Option<String>)
    ensures
        opt_view(r) == path_file_stem(path@),
{
    std::path::Path::new(path).file_stem().and_then(|stem| stem.to_str()).map(|stem| stem.to_string())
}

/// Whether a word boundary falls before the character at `k`: a lower to
/// upper case step, a step into or out of ASCII digits, or the last upper
/// case letter of a run that a lower case letter follows.
pub open spec fn snake_boundary(c: Seq<char>, k: int) -> bool {
    let prev = c[k - 1];
    let cur = c[k];
    (text::is_lower_char(prev) && text::is_upper_char(cur)) || (text::is_ascii_digit(prev)
        && !text::is_ascii_digit(cur)) || (!text::is_ascii_digit(prev) && text::is_ascii_digit(cur))
        || (text::is_upper_char(prev) && text::is_upper_char(cur) && k + 1 < c.len()
        && text::is_lower_char(c[k + 1]))
}

/// The first `k` characters in snake case: each ASCII-lowercased, with
/// `_` at each word boundary.
pub open spec fn snake_prefix(c: Seq<char>, k: int) -> Seq<char>
    decreases k,
{
    if k <= 0 {
        Seq::empty()
    } else if k == 1 {
        seq![text::ascii_lower(c[0])]
    } else {
        snake_prefix(c, k - 1) + (if snake_boundary(c, k - 1) {
            seq!['_']
        } else {
            Seq::empty()
        }) + seq![text::ascii_lower(c[k - 1])]
    }
}

/// `UserProfile` becomes `user_profile`, `Http2Server` becomes
/// `http_2_server`.
pub open spec fn spec_to_snake_case(value: Seq<char>) -> Seq<char> {
    snake_prefix(value, value.len() as int)
}

proof fn lemma_snake_prefix_lower(c: Seq<char>, k: int)
    requires
        0 <= k <= c.len(),
    ensures
        forall|i: int| 0 <= i < snake_prefix(c, k).len() ==> !text::is_ascii_upper(#[trigger] snake_prefix(c, k)[i]),
    decreases k,
{
    if k > 1 {
        lemma_snake_prefix_lower(c, k - 1);
        let p = snake_prefix(c, k - 1);
        let mid: Seq<char> = if snake_boundary(c, k - 1) {
            seq!['_']
        } else {
            Seq::empty()
        };
        let r = snake_prefix(c, k);
        assert(r == p + mid + seq![text::ascii_lower(c[k - 1])]);
        assert forall|i: int| 0 <= i < r.len() implies !text::is_ascii_upper(#[trigger] r[i]) by {
            if i < p.len() {
                assert(r[i] == p[i]);
            } else if i < p.len() + mid.len() {
                assert(r[i] == '_');
            } else {
                assert(r[i] == text::ascii_lower(c[k - 1]));
            }
        }
    }
}

/// Snake case leaves no ASCII uppercase letter.
pub proof fn law_snake_case_has_no_ascii_uppercase(value: Seq<char>)
    ensures
        forall|i: int|
            0 <= i < spec_to_snake_case(value).len() ==> !text::is_ascii_upper(
                #[trigger] spec_to_snake_case(value)[i],
            ),
{
    lemma_snake_prefix_lower(value, value.len() as int);
}

pub fn to_snake_case(value: &str) -> (r: String)
    ensures
        r@ == spec_to_snake_case(value@),
{
    let chars = text::chars_of(value);
    let n = chars.len();
    if n == 0 {
        return String::new();
    }
    let mut out: Vec<char> = Vec::new();
    out.push(text::char_ascii_lower(chars[0]));
    let mut k: usize = 1;
    while k < n
        invariant
            n == chars@.len(),
            chars@ == value@,
            1 <= k <= n,
            out@ == snake_prefix(chars@, k as int),
        decreases n - k,
    {
        let prev = chars[k - 1];
        let cur = chars[k];
        let next_lower = k + 1 < n && text::is_lowercase(chars[k + 1]);
        let boundary = (text::is_lowercase(prev) && text::is_uppercase(cur)) || (
        text::char_is_ascii_digit(prev) && !text::char_is_ascii_digit(cur)) || (
        !text::char_is_ascii_digit(prev) && text::char_is_ascii_digit(cur)) || (text::is_uppercase(
            prev,
        ) && text::is_uppercase(cur) && next_lower);
        let ghost before = out@;
        if boundary {
            out.push('_');
        }
        out.push(text::char_ascii_lower(cur));
        assert(out@ =~= snake_prefix(chars@, k + 1));
        k += 1;
    }
    text::string_of(&out)
}

/// A type spelling without surrounding blanks, a leading `const ` and
/// trailing `&` and `*`.
pub open spec fn spec_base_cpp_type_name(value: Seq<char>) -> Seq<char> {
    text::trim(
        text::trim_end_char(
            text::trim_end_char(text::trim_start_matches(text::trim(value), "const "@), '&'),
            '*',
        ),
    )
}

pub fn base_cpp_type_name(value: &str) -> (r: String)
    ensures
        r@ == spec_base_cpp_type_name(value@),
{
    let a = trim_str(value);
    let b = text::trim_start_matches_str(a.as_str(), "const ");
    let c = text::trim_end_char_str(b.as_str(), '&');
    let d = text::trim_end_char_str(c.as_str(), '*');
    trim_str(d.as_str())
}

/// Whether a configured model type names the same class as a spelling
/// whose base name is `base`: equal, or equal after dropping the
/// namespace of either.
pub open spec fn model_name_matches(candidate: Seq<char>, base: Seq<char>) -> bool {
    let normalized = spec_base_cpp_type_name(candidate);
    normalized == base || text::last_segment(normalized, "::"@) == base || text::last_segment(
        base,
        "::"@,
    ) == normalized
}

fn model_name_matches_exec(candidate: &str, base: &str) -> (r: bool)
    ensures
        r == model_name_matches(candidate@, base@),
{
    let normalized = base_cpp_type_name(candidate);
    proof {
        reveal_strlit("::");
    }
    if str_eq(normalized.as_str(), base) {
        return true;
    }
    let tail = text::last_segment_str(normalized.as_str(), "::");
    if str_eq(tail.as_str(), base) {
        return true;
    }
    let base_tail = text::last_segment_str(base, "::");
    str_eq(base_tail.as_str(), normalized.as_str())
}

// ---------------------------------------------------------------------------
// Output names and scoping
// ---------------------------------------------------------------------------

/// The output file names are the defaults.
pub open spec fn spec_uses_default_output_names(c: Config) -> bool {
    c.output.header@ == default_header_name() && c.output.source@ == default_source_name()
        && c.output.ir@ == default_ir_name()
}

/// The base name derived from the header that a config is about: the
/// target header, or the only input header.
pub open spec fn spec_infer_output_basename(c: Config) -> Option<Seq<char>> {
    let header = match c.target_header {
        Some(h) => Some(h@),
        None => if c.input.headers@.len() == 1 {
            Some(c.input.headers@[0]@)
        } else {
            None
        },
    };
    match header {
        None => None,
        Some(h) => match path_file_stem(h) {
            None => None,
            Some(stem) => Some(spec_to_snake_case(stem) + "_wrapper"@),
        },
    }
}

/// `after` is `before` with the default output names replaced by names
/// derived from the header, where the names are the defaults and a base
/// name can be derived.
pub open spec fn output_defaults_applied(before: Config, after: Config) -> bool {
    &&& after == (Config { output: after.output, ..before })
    &&& after.output.dir == before.output.dir
    &&& if spec_uses_default_output_names(before) && spec_infer_output_basename(before) is Some {
        let b = spec_infer_output_basename(before)->0;
        &&& after.output.header@ == b + ".h"@
        &&& after.output.source@ == b + ".cpp"@
        &&& after.output.ir@ == b + ".ir.yaml"@
    } else {
        after.output == before.output
    }
}

/// The Go file name: the stem of the header name, or `wrapper`, and `.go`.
pub open spec fn spec_go_filename(c: Config) -> Seq<char> {
    let stem = match path_file_stem(c.output.header@) {
        Some(s) => if s.len() > 0 {
            s
        } else {
            "wrapper"@
        },
        None => "wrapper"@,
    };
    stem + ".go"@
}

/// Whether a configured model projection is for the class that a type
/// spelling names.
pub open spec fn projection_matches(p: KnownModelProjection, cpp_type: Seq<char>) -> bool {
    model_name_matches(p.cpp_type@, spec_base_cpp_type_name(cpp_type))
}

/// The first of the projections that matches a type spelling.
pub open spec fn first_projection(ps: Seq<KnownModelProjection>, cpp_type: Seq<char>) -> Option<
    KnownModelProjection,
>
    decreases ps.len(),
{
    if ps.len() == 0 {
        None
    } else if projection_matches(ps[0], cpp_type) {
        Some(ps[0])
    } else {
        first_projection(ps.drop_first(), cpp_type)
    }
}

proof fn lemma_first_projection(ps: Seq<KnownModelProjection>, cpp_type: Seq<char>, i: int)
    requires
        0 <= i <= ps.len(),
        forall|j: int| 0 <= j < i ==> !projection_matches(#[trigger] ps[j], cpp_type),
        i < ps.len() ==> projection_matches(ps[i], cpp_type),
    ensures
        first_projection(ps, cpp_type) == if i < ps.len() {
            Some(ps[i])
        } else {
            None::<KnownModelProjection>
        },
    decreases ps.len(),
{
    if ps.len() > 0 && i > 0 {
        assert(!projection_matches(ps[0], cpp_type));
        assert forall|j: int| 0 <= j < i - 1 implies !projection_matches(
            #[trigger] ps.drop_first()[j],
            cpp_type,
        ) by {
            assert(ps.drop_first()[j] == ps[j + 1]);
        }
        lemma_first_projection(ps.drop_first(), cpp_type, i - 1);
    }
}

impl Config {
    /// The compilation database, if one is configured.
    pub fn compile_commands_path(&self) -> (r: Option<String>)
        ensures
            opt_view(r) == opt_view(self.input.compile_commands),
    {
        copy_opt(&self.input.compile_commands)
    }

    /// The files to parse: the translation units where there are any, the
    /// headers otherwise.
    pub fn parse_entries(&self) -> (r: Vec<String>)
        ensures
            text::views(r@) == if self.input.translation_units@.len() == 0 {
                text::views(self.input.headers@)
            } else {
                text::views(self.input.translation_units@)
            },
    {
        if self.input.translation_units.len() == 0 {
            clone_strings(&self.input.headers)
        } else {
            clone_strings(&self.input.translation_units)
        }
    }

    pub fn uses_default_output_names(&self) -> (r: bool)
        ensures
            r == spec_uses_default_output_names(*self),
    {
        str_eq(self.output.header.as_str(), "wrapper.h") && str_eq(
            self.output.source.as_str(),
            "wrapper.cpp",
        ) && str_eq(self.output.ir.as_str(), "wrapper.ir.yaml")
    }

    pub fn infer_output_basename(&self) -> (r: Option<String>)
        ensures
            opt_view(r) == spec_infer_output_basename(*self),
    {
        let header: &str = match &self.target_header {
            Some(h) => h.as_str(),
            None => {
                if self.input.headers.len() != 1 {
                    return None;
                }
                self.input.headers[0].as_str()
            },
        };
        match file_stem(header) {
            None => None,
            Some(stem) => {
                let snake = to_snake_case(stem.as_str());
                Some(concat2(snake.as_str(), "_wrapper"))
            },
        }
    }

    pub fn apply_output_defaults(&mut self)
        ensures
            output_defaults_applied(*old(self), *final(self)),
    {
        if !self.uses_default_output_names() {
            return;
        }
        let basename = match self.infer_output_basename() {
            Some(b) => b,
            None => {
                return;
            },
        };
        self.output.header = concat2(basename.as_str(), ".h");
        self.output.source = concat2(basename.as_str(), ".cpp");
        self.output.ir = concat2(basename.as_str(), ".ir.yaml");
    }

    /// The config for generating the wrapper of one header: that header
    /// as the target (and as the only input header unless a directory is
    /// configured), with the output names derived from it where they are
    /// the defaults.
    pub fn scoped_to_header(self, header: String) -> (r: Config)
        ensures
            r.target_header matches Some(h) && h@ == header@,
            text::views(r.input.headers@) == if self.input.dir is None {
                seq![header@]
            } else {
                Seq::<Seq<char>>::empty()
            },
            output_defaults_applied(
                (Config {
                    target_header: r.target_header,
                    input: InputConfig { headers: r.input.headers, ..self.input },
                    ..self
                }),
                r,
            ),
    {
        let mut scoped = self;
        let mut headers: Vec<String> = Vec::new();
        if scoped.input.dir.is_none() {
            headers.push(header.clone());
            assert(text::views(headers@) =~= seq![header@]);
        } else {
            assert(text::views(headers@) =~= Seq::<Seq<char>>::empty());
        }
        scoped.input.headers = headers;
        scoped.target_header = Some(header);
        scoped.apply_output_defaults();
        scoped
    }

    pub fn go_filename(&self, _value: &str) -> (r: String)
        ensures
            r@ == spec_go_filename(*self),
    {
        let stem = match file_stem(self.output.header.as_str()) {
            Some(s) => if s.as_str().is_empty() {
                owned("wrapper")
            } else {
                s
            },
            None => owned("wrapper"),
        };
        concat2(stem.as_str(), ".go")
    }

    pub fn raw_output_dir(&self) -> (r: String)
        ensures
            r@ == self.output.dir@,
    {
        self.output.dir.clone()
    }

    pub fn go_output_dir(&self) -> (r: String)
        ensures
            r@ == self.output.dir@,
    {
        self.output.dir.clone()
    }

    pub fn raw_include_for_go(&self, header: &str) -> (r: String)
        ensures
            r@ == header@,
    {
        owned(header)
    }

    pub fn with_known_model_types(self, known_model_types: Vec<String>) -> (r: Config)
        ensures
            r == (Config { known_model_types, ..self }),
    {
        let mut c = self;
        c.known_model_types = known_model_types;
        c
    }

    pub fn with_known_model_projections(
        self,
        known_model_projections: Vec<KnownModelProjection>,
    ) -> (r: Config)
        ensures
            r == (Config { known_model_projections, ..self }),
    {
        let mut c = self;
        c.known_model_projections = known_model_projections;
        c
    }

    /// The first configured model projection for the class that a type
    /// spelling names.
    pub fn known_model_projection(&self, cpp_type: &str) -> (r: Option<&KnownModelProjection>)
        ensures
            match r {
                Some(p) => exists|i: int|
                    0 <= i < self.known_model_projections@.len() && *p
                        == self.known_model_projections@[i] && projection_matches(
                        self.known_model_projections@[i],
                        cpp_type@,
                    ) && forall|j: int|
                        0 <= j < i ==> !projection_matches(
                            #[trigger] self.known_model_projections@[j],
                            cpp_type@,
                        ),
                None => forall|j: int|
                    0 <= j < self.known_model_projections@.len() ==> !projection_matches(
                        #[trigger] self.known_model_projections@[j],
                        cpp_type@,
                    ),
            },
            match r {
                Some(p) => first_projection(self.known_model_projections@, cpp_type@) == Some(*p),
                None => first_projection(self.known_model_projections@, cpp_type@) is None,
            },
    {
        let base = base_cpp_type_name(cpp_type);
        let mut i: usize = 0;
        while i < self.known_model_projections.len()
            invariant
                i <= self.known_model_projections@.len(),
                base@ == spec_base_cpp_type_name(cpp_type@),
                forall|j: int|
                    0 <= j < i ==> !projection_matches(
                        #[trigger] self.known_model_projections@[j],
                        cpp_type@,
                    ),
            decreases self.known_model_projections@.len() - i,
        {
            let p = &self.known_model_projections[i];
            if model_name_matches_exec(p.cpp_type.as_str(), base.as_str()) {
                proof {
                    lemma_first_projection(self.known_model_projections@, cpp_type@, i as int);
                }
                return Some(p);
            }
            i += 1;
        }
        proof {
            lemma_first_projection(
                self.known_model_projections@,
                cpp_type@,
                self.known_model_projections@.len() as int,
            );
        }
        None
    }

    /// Whether a type spelling names one of the configured model types.
    pub fn is_known_model_type(&self, cpp_type: &str) -> (r: bool)
        ensures
            r == exists|i: int|
                0 <= i < self.known_model_types@.len() && model_name_matches(
                    #[trigger] self.known_model_types@[i]@,
                    spec_base_cpp_type_name(cpp_type@),
                ),
    {
        let base = base_cpp_type_name(cpp_type);
        let mut i: usize = 0;
        while i < self.known_model_types.len()
            invariant
                i <= self.known_model_types@.len(),
                base@ == spec_base_cpp_type_name(cpp_type@),
                forall|j: int|
                    0 <= j < i ==> !model_name_matches(
                        #[trigger] self.known_model_types@[j]@,
                        base@,
                    ),
            decreases self.known_model_types@.len() - i,
        {
            if model_name_matches_exec(self.known_model_types[i].as_str(), base.as_str()) {
                return true;
            }
            i += 1;
        }
        false
    }

    /// The part of validation that needs no file system: an input
    /// directory or input headers must be configured, and a configured
    /// input directory that exists must be a directory.
    pub fn validate_shape(&self, dir_exists_as_non_directory: bool) -> (r: Result<(), String>)
        ensures
            r is Ok <==> (self.input.dir is Some || self.input.headers@.len() > 0) && !(
            self.input.dir is Some && dir_exists_as_non_directory),
            r matches Err(e) ==> if self.input.dir is None && self.input.headers@.len() == 0 {
                e@ == "config.input.dir or config.input.headers must be set"@
            } else {
                e@ == "config.input.dir must point to a directory: "@ + self.input.dir->0@
            },
    {
        if self.input.dir.is_none() && self.input.headers.len() == 0 {
            return Err(owned("config.input.dir or config.input.headers must be set"));
        }
        if let Some(dir) = &self.input.dir {
            if dir_exists_as_non_directory {
                return Err(concat2("config.input.dir must point to a directory: ", dir.as_str()));
            }
        }
        Ok(())
    }
}

/// How the configured clang arguments from `i` on are resolved: the
/// operand of a bare `-I` or `-isystem` and what follows `-I` or
/// `-isystem` in one argument are paths against the config's directory;
/// everything else, a bare flag without operand too, is kept.
pub open spec fn spec_config_args_from(args: Seq<Seq<char>>, i: int) -> Seq<(bool, Seq<char>, Seq<char>)>
    decreases args.len() + 1 - i,
{
    if i >= args.len() || i < 0 {
        Seq::empty()
    } else {
        let a = args[i];
        if a == "-I"@ || a == "-isystem"@ {
            if i + 1 < args.len() {
                seq![keep_arg(a), include_arg(Seq::empty(), args[i + 1])] + spec_config_args_from(
                    args,
                    i + 2,
                )
            } else {
                seq![keep_arg(a)]
            }
        } else if text::starts_with(a, "-I"@) {
            seq![include_arg("-I"@, a.skip(2))] + spec_config_args_from(args, i + 1)
        } else if text::starts_with(a, "-isystem"@) {
            seq![include_arg("-isystem"@, a.skip(8))] + spec_config_args_from(args, i + 1)
        } else {
            seq![keep_arg(a)] + spec_config_args_from(args, i + 1)
        }
    }
}

fn push_clang_arg(out: &mut Vec<ClangArg>, a: ClangArg)
    ensures
        clang_args_view(final(out)@) == clang_args_view(old(out)@).push(
            crate::parsing::compiler::clang_arg_view(a),
        ),
{
    let ghost before = clang_args_view(out@);
    let ghost av = crate::parsing::compiler::clang_arg_view(a);
    out.push(a);
    assert(clang_args_view(out@) =~= before.push(av));
}

/// The configured clang arguments with their path operands marked for
/// resolution against the config's directory.
pub fn classify_config_clang_args(args: &Vec<String>) -> (r: Vec<ClangArg>)
    ensures
        clang_args_view(r@) == spec_config_args_from(text::views(args@), 0),
{
    let ghost av = text::views(args@);
    let mut out: Vec<ClangArg> = Vec::new();
    let mut i: usize = 0;
    assert(clang_args_view(out@) =~= Seq::<(bool, Seq<char>, Seq<char>)>::empty());
    while i < args.len()
        invariant
            av == text::views(args@),
            i <= args@.len(),
            clang_args_view(out@) + spec_config_args_from(av, i as int) == spec_config_args_from(av, 0),
        decreases args@.len() - i,
    {
        let a = args[i].as_str();
        let ghost before = clang_args_view(out@);
        let ghost rest = spec_config_args_from(av, i as int);
        assert(a@ == av[i as int]);
        if str_eq(a, "-I") || str_eq(a, "-isystem") {
            push_clang_arg(&mut out, ClangArg::Keep(owned(a)));
            if i + 1 < args.len() {
                let empty = String::new();
                assert(empty@ =~= Seq::<char>::empty());
                push_clang_arg(&mut out, ClangArg::Include { prefix: empty, value: args[i + 1].clone() });
                assert(clang_args_view(out@) + spec_config_args_from(av, i + 2) =~= before + rest);
                i += 2;
            } else {
                assert(spec_config_args_from(av, i + 1) =~= Seq::<(bool, Seq<char>, Seq<char>)>::empty());
                assert(clang_args_view(out@) + spec_config_args_from(av, i + 1) =~= before + rest);
                i += 1;
            }
        } else if text::has_prefix(a, "-I") {
            proof {
                reveal_strlit("-I");
            }
            let v = text::chars_of(a);
            let value = text::string_of_range(&v, 2, v.len());
            assert(value@ =~= av[i as int].skip(2));
            push_clang_arg(&mut out, ClangArg::Include { prefix: owned("-I"), value });
            assert(clang_args_view(out@) + spec_config_args_from(av, i + 1) =~= before + rest);
            i += 1;
        } else if text::has_prefix(a, "-isystem") {
            proof {
                reveal_strlit("-isystem");
            }
            let v = text::chars_of(a);
            let value = text::string_of_range(&v, 8, v.len());
            assert(value@ =~= av[i as int].skip(8));
            push_clang_arg(&mut out, ClangArg::Include { prefix: owned("-isystem"), value });
            assert(clang_args_view(out@) + spec_config_args_from(av, i + 1) =~= before + rest);
            i += 1;
        } else {
            push_clang_arg(&mut out, ClangArg::Keep(owned(a)));
            assert(clang_args_view(out@) + spec_config_args_from(av, i + 1) =~= before + rest);
            i += 1;
        }
    }
    assert(clang_args_view(out@) =~= clang_args_view(out@) + spec_config_args_from(av, i as int));
    out
}

/// Resolving the configured clang arguments keeps their number and
/// order: each argument is kept as it is, or is a path operand whose
/// prefix and value spell it (a whole argument after a bare `-I` or
/// `-isystem`, with an empty prefix, or `-I`/`-isystem` and the rest of
/// one argument).
pub proof fn law_config_args_shape(args: Seq<Seq<char>>, i: int)
    requires
        0 <= i <= args.len(),
    ensures
        spec_config_args_from(args, i).len() == args.len() - i,
        forall|k: int|
            0 <= k < args.len() - i ==> (#[trigger] spec_config_args_from(args, i)[k]).1 + (if spec_config_args_from(
                args,
                i,
            )[k].0 {
                spec_config_args_from(args, i)[k].2
            } else {
                Seq::empty()
            }) == args[i + k],
    decreases args.len() - i,
{
    reveal_strlit("-I");
    reveal_strlit("-isystem");
    if i < args.len() {
        let a = args[i];
        let r = spec_config_args_from(args, i);
        if a == "-I"@ || a == "-isystem"@ {
            if i + 1 < args.len() {
                law_config_args_shape(args, i + 2);
                let rest = spec_config_args_from(args, i + 2);
                assert forall|k: int| 0 <= k < args.len() - i implies (#[trigger] r[k]).1 + (if r[k].0 {
                    r[k].2
                } else {
                    Seq::empty()
                }) == args[i + k] by {
                    if k == 0 {
                        assert(r[0] == keep_arg(a));
                        assert(a + Seq::<char>::empty() =~= a);
                    } else if k == 1 {
                        assert(r[1] == include_arg(Seq::empty(), args[i + 1]));
                        assert(Seq::<char>::empty() + args[i + 1] =~= args[i + 1]);
                    } else {
                        assert(r[k] == rest[k - 2]);
                    }
                }
            } else {
                assert(r =~= seq![keep_arg(a)]);
                assert(a + Seq::<char>::empty() =~= a);
            }
        } else {
            law_config_args_shape(args, i + 1);
            let rest = spec_config_args_from(args, i + 1);
            assert forall|k: int| 0 <= k < args.len() - i implies (#[trigger] r[k]).1 + (if r[k].0 {
                r[k].2
            } else {
                Seq::empty()
            }) == args[i + k] by {
                if k == 0 {
                    if text::starts_with(a, "-I"@) {
                        assert("-I"@ + a.skip(2) =~= a);
                    } else if text::starts_with(a, "-isystem"@) {
                        assert("-isystem"@ + a.skip(8) =~= a);
                    } else {
                        assert(a + Seq::<char>::empty() =~= a);
                    }
                } else {
                    assert(r[k] == rest[k - 1]);
                }
            }
        }
    }
}

/// How the configured linker flags from `i` on are resolved: the operand
/// of a bare `-L` and what follows `-L` in one argument are paths against
/// the config's directory; everything else is kept.
pub open spec fn spec_ldflags_from(args: Seq<Seq<char>>, i: int) -> Seq<(bool, Seq<char>, Seq<char>)>
    decreases args.len() + 1 - i,
{
    if i >= args.len() || i < 0 {
        Seq::empty()
    } else {
        let a = args[i];
        if a == "-L"@ {
            if i + 1 < args.len() {
                seq![keep_arg(a), include_arg(Seq::empty(), args[i + 1])] + spec_ldflags_from(args, i + 2)
            } else {
                seq![keep_arg(a)]
            }
        } else if text::starts_with(a, "-L"@) {
            seq![include_arg("-L"@, a.skip(2))] + spec_ldflags_from(args, i + 1)
        } else {
            seq![keep_arg(a)] + spec_ldflags_from(args, i + 1)
        }
    }
}

/// The configured linker flags with their path operands marked for
/// resolution against the config's directory.
pub fn classify_ldflags(args: &Vec<String>) -> (r: Vec<ClangArg>)
    ensures
        clang_args_view(r@) == spec_ldflags_from(text::views(args@), 0),
{
    let ghost av = text::views(args@);
    let mut out: Vec<ClangArg> = Vec::new();
    let mut i: usize = 0;
    assert(clang_args_view(out@) =~= Seq::<(bool, Seq<char>, Seq<char>)>::empty());
    while i < args.len()
        invariant
            av == text::views(args@),
            i <= args@.len(),
            clang_args_view(out@) + spec_ldflags_from(av, i as int) == spec_ldflags_from(av, 0),
        decreases args@.len() - i,
    {
        let a = args[i].as_str();
        let ghost before = clang_args_view(out@);
        let ghost rest = spec_ldflags_from(av, i as int);
        assert(a@ == av[i as int]);
        if str_eq(a, "-L") {
            push_clang_arg(&mut out, ClangArg::Keep(owned(a)));
            if i + 1 < args.len() {
                let empty = String::new();
                assert(empty@ =~= Seq::<char>::empty());
                push_clang_arg(&mut out, ClangArg::Include { prefix: empty, value: args[i + 1].clone() });
                assert(clang_args_view(out@) + spec_ldflags_from(av, i + 2) =~= before + rest);
                i += 2;
            } else {
                assert(spec_ldflags_from(av, i + 1) =~= Seq::<(bool, Seq<char>, Seq<char>)>::empty());
                assert(clang_args_view(out@) + spec_ldflags_from(av, i + 1) =~= before + rest);
                i += 1;
            }
        } else if text::has_prefix(a, "-L") {
            proof {
                reveal_strlit("-L");
            }
            let v = text::chars_of(a);
            let value = text::string_of_range(&v, 2, v.len());
            assert(value@ =~= av[i as int].skip(2));
            push_clang_arg(&mut out, ClangArg::Include { prefix: owned("-L"), value });
            assert(clang_args_view(out@) + spec_ldflags_from(av, i + 1) =~= before + rest);
            i += 1;
        } else {
            push_clang_arg(&mut out, ClangArg::Keep(owned(a)));
            assert(clang_args_view(out@) + spec_ldflags_from(av, i + 1) =~= before + rest);
            i += 1;
        }
    }
    assert(clang_args_view(out@) =~= clang_args_view(out@) + spec_ldflags_from(av, i as int));
    out
}

/// Applying the output defaults a second time changes nothing: names
/// derived from a header are no longer the defaults.
pub proof fn law_output_defaults_idempotent(before: Config, after: Config, again: Config)
    requires
        output_defaults_applied(before, after),
        output_defaults_applied(after, again),
    ensures
        again == after,
{
    if spec_uses_default_output_names(before) && spec_infer_output_basename(before) is Some {
        let b = spec_infer_output_basename(before)->0;
        reveal_strlit("wrapper.h");
        reveal_strlit("_wrapper");
        reveal_strlit(".h");
        assert(b.len() >= 8);
        assert(after.output.header@.len() != default_header_name().len());
        assert(!spec_uses_default_output_names(after));
    } else {
        assert(after == before);
    }
    assert(again.output == after.output);
}

} // verus!
