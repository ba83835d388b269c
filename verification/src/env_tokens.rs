//! Environment tokens in configured clang arguments: `$NAME`, `${NAME}`
//! and `$(NAME)`, where a name is made of ASCII letters, digits and `_`.
//! The values come from the caller, which reads the environment.
use vstd::prelude::*;
use crate::text;
use crate::text::{concat3, str_eq};

verus! {

/// A character that may stand in a variable name.
pub open spec fn is_name_char(c: char) -> bool {
    text::is_ascii_alnum(c) || c == '_'
}

fn is_name_char_exec(c: char) -> (r: bool)
    ensures
        r == is_name_char(c),
{
    text::char_is_ascii_alnum(c) || c == '_'
}

/// The first index from `j` on that holds `c`, or the length.
pub open spec fn find_from(s: Seq<char>, j: int, c: char) -> int
    decreases s.len() - j,
{
    if j >= s.len() || j < 0 {
        s.len() as int
    } else if s[j] == c {
        j
    } else {
        find_from(s, j + 1, c)
    }
}

/// The end of the run of name characters that starts at `j`.
pub open spec fn name_run_end(s: Seq<char>, j: int) -> int
    decreases s.len() - j,
{
    if j >= s.len() || j < 0 {
        s.len() as int
    } else if is_name_char(s[j]) {
        name_run_end(s, j + 1)
    } else {
        j
    }
}

/// Whether every character of a name is a name character, and there is one.
pub open spec fn valid_name(n: Seq<char>) -> bool {
    n.len() > 0 && forall|k: int| 0 <= k < n.len() ==> is_name_char(#[trigger] n[k])
}

/// The token that starts at `i`: its variable name and the index after it.
pub open spec fn token_at(s: Seq<char>, i: int) -> Option<(Seq<char>, int)> {
    if 0 <= i && i + 1 < s.len() && s[i] == '$' {
        if s[i + 1] == '{' || s[i + 1] == '(' {
            let close = if s[i + 1] == '{' {
                '}'
            } else {
                ')'
            };
            let j = find_from(s, i + 2, close);
            if j < s.len() && valid_name(s.subrange(i + 2, j)) {
                Some((s.subrange(i + 2, j), j + 1))
            } else {
                None
            }
        } else {
            let e = name_run_end(s, i + 1);
            if e > i + 1 {
                Some((s.subrange(i + 1, e), e))
            } else {
                None
            }
        }
    } else {
        None
    }
}

proof fn lemma_find_from_bounds(s: Seq<char>, j: int, c: char)
    requires
        0 <= j,
    ensures
        j <= find_from(s, j, c) <= s.len() || (j > s.len() && find_from(s, j, c) == s.len()),
        find_from(s, j, c) < s.len() ==> s[find_from(s, j, c)] == c,
        forall|k: int| j <= k < find_from(s, j, c) ==> s[k] != c,
    decreases s.len() - j,
{
    if j < s.len() && s[j] != c {
        lemma_find_from_bounds(s, j + 1, c);
    }
}

proof fn lemma_name_run_end_bounds(s: Seq<char>, j: int)
    requires
        0 <= j <= s.len(),
    ensures
        j <= name_run_end(s, j) <= s.len(),
        forall|k: int| j <= k < name_run_end(s, j) ==> is_name_char(#[trigger] s[k]),
    decreases s.len() - j,
{
    if j < s.len() && is_name_char(s[j]) {
        lemma_name_run_end_bounds(s, j + 1);
    }
}

proof fn lemma_token_advances(s: Seq<char>, i: int)
    requires
        0 <= i < s.len(),
    ensures
        token_at(s, i) matches Some((n, e)) ==> i < e <= s.len() && valid_name(n),
{
    if i + 1 < s.len() && s[i] == '$' {
        if s[i + 1] == '{' || s[i + 1] == '(' {
            let close = if s[i + 1] == '{' {
                '}'
            } else {
                ')'
            };
            lemma_find_from_bounds(s, i + 2, close);
        } else {
            lemma_name_run_end_bounds(s, i + 1);
            let e = name_run_end(s, i + 1);
            assert forall|k: int| 0 <= k < e - (i + 1) implies is_name_char(
                #[trigger] s.subrange(i + 1, e)[k],
            ) by {
                assert(s.subrange(i + 1, e)[k] == s[i + 1 + k]);
            }
        }
    }
}

/// The value given for a name: that of its first entry, where there is one.
pub open spec fn lookup(names: Seq<Seq<char>>, values: Seq<Option<Seq<char>>>, n: Seq<char>, k: int) -> Option<
    Seq<char>,
>
    decreases names.len() - k,
{
    if k >= names.len() || k < 0 || k >= values.len() {
        None
    } else if names[k] == n {
        values[k]
    } else {
        lookup(names, values, n, k + 1)
    }
}

/// The error for a token whose variable has no value.
pub open spec fn unset_variable_message(n: Seq<char>) -> Seq<char> {
    "failed to expand input.clang_args: environment variable `"@ + n + "` is not set"@
}

/// `prefix` put before an expansion that succeeded.
pub open spec fn prepend(prefix: Seq<char>, r: Result<Seq<char>, Seq<char>>) -> Result<Seq<char>, Seq<char>> {
    match r {
        Ok(x) => Ok(prefix + x),
        Err(e) => Err(e),
    }
}

/// The text from `i` on with each token replaced by its variable's value;
/// the first token whose variable has no value is an error.
pub open spec fn expand_from(
    s: Seq<char>,
    names: Seq<Seq<char>>,
    values: Seq<Option<Seq<char>>>,
    i: int,
) -> Result<Seq<char>, Seq<char>>
    decreases s.len() - i,
{
    if i >= s.len() || i < 0 {
        Ok(Seq::empty())
    } else {
        match token_at(s, i) {
            Some((n, e)) => if e <= i || e > s.len() {
                Ok(Seq::empty())
            } else {
                match lookup(names, values, n, 0) {
                    Some(v) => prepend(v, expand_from(s, names, values, e)),
                    None => Err(unset_variable_message(n)),
                }
            },
            None => prepend(seq![s[i]], expand_from(s, names, values, i + 1)),
        }
    }
}

/// The variable names of the tokens from `i` on, in order.
pub open spec fn names_from(s: Seq<char>, i: int) -> Seq<Seq<char>>
    decreases s.len() - i,
{
    if i >= s.len() || i < 0 {
        Seq::empty()
    } else {
        match token_at(s, i) {
            Some((n, e)) => if e <= i || e > s.len() {
                Seq::empty()
            } else {
                seq![n] + names_from(s, e)
            },
            None => names_from(s, i + 1),
        }
    }
}

fn find_from_exec(v: &Vec<char>, j: usize, c: char) -> (r: usize)
    requires
        j <= v@.len(),
    ensures
        r == find_from(v@, j as int, c),
    decreases v@.len() - j,
{
    let mut k = j;
    while k < v.len() && v[k] != c
        invariant
            j <= k <= v@.len(),
            find_from(v@, j as int, c) == find_from(v@, k as int, c),
        decreases v@.len() - k,
    {
        k += 1;
    }
    k
}

fn name_run_end_exec(v: &Vec<char>, j: usize) -> (r: usize)
    requires
        j <= v@.len(),
    ensures
        r == name_run_end(v@, j as int),
{
    let mut k = j;
    while k < v.len() && is_name_char_exec(v[k])
        invariant
            j <= k <= v@.len(),
            name_run_end(v@, j as int) == name_run_end(v@, k as int),
        decreases v@.len() - k,
    {
        k += 1;
    }
    k
}

fn valid_name_exec(v: &Vec<char>, from: usize, to: usize) -> (r: bool)
    requires
        from <= to <= v@.len(),
    ensures
        r == valid_name(v@.subrange(from as int, to as int)),
{
    if from == to {
        return false;
    }
    let mut k = from;
    while k < to
        invariant
            from <= k <= to <= v@.len(),
            forall|m: int| from <= m < k ==> is_name_char(#[trigger] v@[m]),
        decreases to - k,
    {
        if !is_name_char_exec(v[k]) {
            assert(v@.subrange(from as int, to as int)[k - from] == v@[k as int]);
            return false;
        }
        k += 1;
    }
    assert forall|m: int| 0 <= m < to - from implies is_name_char(
        #[trigger] v@.subrange(from as int, to as int)[m],
    ) by {
        assert(v@.subrange(from as int, to as int)[m] == v@[from + m]);
    }
    true
}

fn token_at_exec(v: &Vec<char>, i: usize) -> (r: Option<(String, usize)>)
    requires
        i < v@.len(),
    ensures
        match r {
            Some((n, e)) => token_at(v@, i as int) == Some((n@, e as int)),
            None => token_at(v@, i as int) is None,
        },
{
    if i < v.len() - 1 && v[i] == '$' {
        if v[i + 1] == '{' || v[i + 1] == '(' {
            let close = if v[i + 1] == '{' {
                '}'
            } else {
                ')'
            };
            let j = find_from_exec(v, i + 2, close);
            proof {
                lemma_find_from_bounds(v@, i + 2, close);
            }
            if j < v.len() && valid_name_exec(v, i + 2, j) {
                let n = text::string_of_range(v, i + 2, j);
                return Some((n, j + 1));
            }
            None
        } else {
            let e = name_run_end_exec(v, i + 1);
            proof {
                lemma_name_run_end_bounds(v@, i + 1);
            }
            if e > i + 1 {
                let n = text::string_of_range(v, i + 1, e);
                return Some((n, e));
            }
            None
        }
    } else {
        None
    }
}

fn lookup_exec(names: &Vec<String>, values: &Vec<Option<String>>, n: &str) -> (r: Option<String>)
    ensures
        text::opt_view(r) == lookup(text::views(names@), values@.map_values(|o: Option<String>| text::opt_view(o)), n@, 0),
{
    let ghost nv = text::views(names@);
    let ghost vv = values@.map_values(|o: Option<String>| text::opt_view(o));
    let mut k: usize = 0;
    while k < names.len() && k < values.len()
        invariant
            nv == text::views(names@),
            vv == values@.map_values(|o: Option<String>| text::opt_view(o)),
            k <= names@.len(),
            lookup(nv, vv, n@, 0) == lookup(nv, vv, n@, k as int),
        decreases names@.len() - k,
    {
        if str_eq(names[k].as_str(), n) {
            assert(vv[k as int] == text::opt_view(values@[k as int]));
            return text::copy_opt(&values[k]);
        }
        k += 1;
    }
    None
}

/// The variable names that an argument's tokens refer to, in order.
pub fn env_token_names(value: &str) -> (r: Vec<String>)
    ensures
        text::views(r@) == names_from(value@, 0),
{
    let v = text::chars_of(value);
    let mut out: Vec<String> = Vec::new();
    let mut i: usize = 0;
    assert(text::views(out@) =~= Seq::<Seq<char>>::empty());
    while i < v.len()
        invariant
            v@ == value@,
            i <= v@.len(),
            text::views(out@) + names_from(v@, i as int) == names_from(v@, 0),
        decreases v@.len() - i,
    {
        proof {
            lemma_token_advances(v@, i as int);
        }
        let ghost before = text::views(out@);
        match token_at_exec(&v, i) {
            Some((n, e)) => {
                let ghost nv = n@;
                out.push(n);
                assert(text::views(out@) =~= before.push(nv));
                assert(text::views(out@) + names_from(v@, e as int) =~= before + names_from(v@, i as int));
                i = e;
            },
            None => {
                i += 1;
            },
        }
    }
    assert(text::views(out@) =~= text::views(out@) + names_from(v@, i as int));
    out
}

/// An argument with each token replaced by the value given for its
/// variable (`values[k]` for `names[k]`, the first entry of a name
/// counting); a token whose variable has no value is an error.
pub fn expand_env_tokens(value: &str, names: &Vec<String>, values: &Vec<Option<String>>) -> (r: Result<
    String,
    String,
>)
    ensures
        match r {
            Ok(s) => expand_from(
                value@,
                text::views(names@),
                values@.map_values(|o: Option<String>| text::opt_view(o)),
                0,
            ) == Ok::<Seq<char>, Seq<char>>(s@),
            Err(e) => expand_from(
                value@,
                text::views(names@),
                values@.map_values(|o: Option<String>| text::opt_view(o)),
                0,
            ) == Err::<Seq<char>, Seq<char>>(e@),
        },
{
    let ghost nv = text::views(names@);
    let ghost vv = values@.map_values(|o: Option<String>| text::opt_view(o));
    let v = text::chars_of(value);
    let mut out: Vec<char> = Vec::new();
    let mut i: usize = 0;
    assert(prepend(out@, expand_from(v@, nv, vv, 0)) == expand_from(v@, nv, vv, 0)) by {
        assert(out@ =~= Seq::<char>::empty());
        match expand_from(v@, nv, vv, 0) {
            Ok(x) => {
                assert(Seq::<char>::empty() + x =~= x);
            },
            Err(_) => {},
        }
    }
    while i < v.len()
        invariant
            v@ == value@,
            nv == text::views(names@),
            vv == values@.map_values(|o: Option<String>| text::opt_view(o)),
            i <= v@.len(),
            prepend(out@, expand_from(v@, nv, vv, i as int)) == expand_from(v@, nv, vv, 0),
        decreases v@.len() - i,
    {
        proof {
            lemma_token_advances(v@, i as int);
        }
        let ghost before = out@;
        match token_at_exec(&v, i) {
            Some((n, e)) => {
                match lookup_exec(names, values, n.as_str()) {
                    Some(x) => {
                        let xs = text::chars_of(x.as_str());
                        let ghost rest = expand_from(v@, nv, vv, e as int);
                        let mut k: usize = 0;
                        while k < xs.len()
                            invariant
                                k <= xs@.len(),
                                out@ == before + xs@.take(k as int),
                            decreases xs@.len() - k,
                        {
                            out.push(xs[k]);
                            assert(xs@.take(k + 1) =~= xs@.take(k as int).push(xs@[k as int]));
                            k += 1;
                        }
                        assert(xs@.take(xs@.len() as int) =~= xs@);
                        proof {
                            if rest is Ok {
                                assert(before + (x@ + rest->Ok_0) =~= out@ + rest->Ok_0);
                            }
                        }
                        i = e;
                    },
                    None => {
                        return Err(concat3(
                            "failed to expand input.clang_args: environment variable `",
                            n.as_str(),
                            "` is not set",
                        ));
                    },
                }
            },
            None => {
                let ghost rest = expand_from(v@, nv, vv, i + 1);
                out.push(v[i]);
                proof {
                    if rest is Ok {
                        assert(before + (seq![v@[i as int]] + rest->Ok_0) =~= out@ + rest->Ok_0);
                    }
                }
                i += 1;
            },
        }
    }
    assert(expand_from(v@, nv, vv, i as int) == Ok::<Seq<char>, Seq<char>>(Seq::empty()));
    assert(out@ + Seq::<char>::empty() =~= out@);
    Ok(text::string_of(&out))
}

} // verus!
