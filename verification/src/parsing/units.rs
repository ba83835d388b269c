//! Which translation units a parse reads: the configured headers, or the
//! sources found for an input directory, in path order and each once.
use vstd::prelude::*;
use crate::config::Config;
use crate::text;
use crate::text::str_eq;

verus! {

// ---------------------------------------------------------------------------
// Path order
// ---------------------------------------------------------------------------

/// Characters as paths order them: the separator `/` before any other
/// character, the others by code point. Comparing path strings by this
/// order compares them part by part, as `PathBuf` does for paths without
/// repeated or trailing separators.
pub open spec fn path_char_lt(a: char, b: char) -> bool {
    (a == '/' && b != '/') || (a != '/' && b != '/' && a < b)
}

fn path_char_lt_exec(a: char, b: char) -> (r: bool)
    ensures
        r == path_char_lt(a, b),
{
    (a == '/' && b != '/') || (a != '/' && b != '/' && a < b)
}

/// `a` sorts before `b` as paths do: part by part between the `/`
/// separators, a proper prefix first.
pub open spec fn path_lt(a: Seq<char>, b: Seq<char>) -> bool
    decreases a.len(),
{
    if a.len() == 0 {
        b.len() > 0
    } else if b.len() == 0 {
        false
    } else if a[0] != b[0] {
        path_char_lt(a[0], b[0])
    } else {
        path_lt(a.drop_first(), b.drop_first())
    }
}

pub proof fn lemma_path_lt_irreflexive(a: Seq<char>)
    ensures
        !path_lt(a, a),
    decreases a.len(),
{
    if a.len() > 0 {
        lemma_path_lt_irreflexive(a.drop_first());
    }
}

pub proof fn lemma_path_lt_total(a: Seq<char>, b: Seq<char>)
    ensures
        a != b ==> path_lt(a, b) || path_lt(b, a),
    decreases a.len(),
{
    if a.len() > 0 && b.len() > 0 && a[0] == b[0] {
        lemma_path_lt_total(a.drop_first(), b.drop_first());
        if a.drop_first() == b.drop_first() {
            assert(a =~= seq![a[0]] + a.drop_first());
            assert(b =~= seq![b[0]] + b.drop_first());
        }
    } else if a.len() == 0 && b.len() == 0 {
        assert(a =~= b);
    } else if a.len() > 0 && b.len() > 0 {
        assert(path_char_lt(a[0], b[0]) || path_char_lt(b[0], a[0]));
    }
}

pub proof fn lemma_path_lt_asymmetric(a: Seq<char>, b: Seq<char>)
    ensures
        path_lt(a, b) ==> !path_lt(b, a),
    decreases a.len(),
{
    if a.len() > 0 && b.len() > 0 && a[0] == b[0] {
        lemma_path_lt_asymmetric(a.drop_first(), b.drop_first());
    }
}

pub proof fn lemma_path_lt_transitive(a: Seq<char>, b: Seq<char>, c: Seq<char>)
    ensures
        path_lt(a, b) && path_lt(b, c) ==> path_lt(a, c),
    decreases a.len(),
{
    if a.len() > 0 && b.len() > 0 && c.len() > 0 && a[0] == b[0] && b[0] == c[0] {
        lemma_path_lt_transitive(a.drop_first(), b.drop_first(), c.drop_first());
    }
}

/// Whether `a` sorts before `b`.
pub fn path_str_lt(a: &str, b: &str) -> (r: bool)
    ensures
        r == path_lt(a@, b@),
{
    let av = text::chars_of(a);
    let bv = text::chars_of(b);
    let mut i: usize = 0;
    assert(av@.skip(0) =~= av@);
    assert(bv@.skip(0) =~= bv@);
    while i < av.len() && i < bv.len() && av[i] == bv[i]
        invariant
            i <= av@.len(),
            i <= bv@.len(),
            path_lt(av@, bv@) == path_lt(av@.skip(i as int), bv@.skip(i as int)),
        decreases av@.len() - i,
    {
        assert(av@.skip(i as int).drop_first() =~= av@.skip(i + 1));
        assert(bv@.skip(i as int).drop_first() =~= bv@.skip(i + 1));
        i += 1;
    }
    if i == av.len() {
        i < bv.len()
    } else if i == bv.len() {
        false
    } else {
        path_char_lt_exec(av[i], bv[i])
    }
}

pub open spec fn path_sorted(xs: Seq<Seq<char>>) -> bool {
    forall|i: int, j: int| 0 <= i < j < xs.len() ==> path_lt(#[trigger] xs[i], #[trigger] xs[j])
}

/// Inserts a new string into a strictly sorted list, keeping it sorted.
pub fn insert_path_sorted(v: &mut Vec<String>, s: String)
    requires
        path_sorted(text::views(old(v)@)),
        !text::views(old(v)@).contains(s@),
    ensures
        path_sorted(text::views(final(v)@)),
        text::views(final(v)@).to_set() == text::views(old(v)@).to_set().insert(s@),
{
    let ghost xs = text::views(v@);
    let mut k: usize = 0;
    while k < v.len() && path_str_lt(v[k].as_str(), s.as_str())
        invariant
            xs == text::views(v@),
            k <= v@.len(),
            forall|j: int| 0 <= j < k ==> path_lt(#[trigger] xs[j], s@),
        decreases v@.len() - k,
    {
        k += 1;
    }
    proof {
        if k < v@.len() {
            assert(xs[k as int] != s@);
            lemma_path_lt_total(xs[k as int], s@);
            assert(path_lt(s@, xs[k as int]));
            assert forall|j: int| k <= j < xs.len() implies path_lt(s@, #[trigger] xs[j]) by {
                if j > k {
                    lemma_path_lt_transitive(s@, xs[k as int], xs[j]);
                }
            }
        }
    }
    let ghost sv = s@;
    v.insert(k, s);
    let ghost ys = text::views(v@);
    assert(ys =~= xs.insert(k as int, sv));
    proof {
        assert forall|i: int, j: int| 0 <= i < j < ys.len() implies path_lt(
            #[trigger] ys[i],
            #[trigger] ys[j],
        ) by {
            if i < k && j < k {
            } else if i < k && j == k {
            } else if i < k && j > k {
                assert(ys[j] == xs[j - 1]);
            } else if i == k {
                assert(ys[j] == xs[j - 1]);
            } else {
                assert(ys[i] == xs[i - 1]);
                assert(ys[j] == xs[j - 1]);
            }
        }
        assert(ys.to_set() =~= xs.to_set().insert(sv)) by {
            assert forall|x: Seq<char>| ys.to_set().contains(x) implies xs.to_set().insert(
                sv,
            ).contains(x) by {
                let i = choose|i: int| 0 <= i < ys.len() && ys[i] == x;
                if i < k {
                    assert(xs[i] == x);
                } else if i > k {
                    assert(xs[i - 1] == x);
                }
            }
            assert forall|x: Seq<char>| xs.to_set().insert(sv).contains(x) implies ys.to_set().contains(
                x,
            ) by {
                if x == sv {
                    assert(ys[k as int] == x);
                } else {
                    let i = choose|i: int| 0 <= i < xs.len() && xs[i] == x;
                    if i < k {
                        assert(ys[i] == x);
                    } else {
                        assert(ys[i + 1] == x);
                    }
                }
            }
        }
    }
}



/// The strictly sorted sequence of the strings of a finite set.
pub open spec fn path_sorted_of(s: Set<Seq<char>>) -> Seq<Seq<char>> {
    choose|x: Seq<Seq<char>>| path_sorted(x) && x.to_set() == s
}

/// Two strictly sorted sequences with the same elements are equal.
pub proof fn lemma_path_sorted_unique(a: Seq<Seq<char>>, b: Seq<Seq<char>>)
    requires
        path_sorted(a),
        path_sorted(b),
        a.to_set() == b.to_set(),
    ensures
        a == b,
    decreases a.len(),
{
    if a.len() == 0 {
        if b.len() > 0 {
            assert(b.to_set().contains(b[0]));
        }
        assert(a =~= b);
    } else {
        assert(a.to_set().contains(a[0]));
        if b.len() == 0 {
            assert(false);
        }
        assert(b.to_set().contains(b[0]));
        let ia = choose|i: int| 0 <= i < a.len() && a[i] == b[0];
        let ib = choose|i: int| 0 <= i < b.len() && b[i] == a[0];
        if ia > 0 {
            assert(path_lt(a[0], a[ia]));
            if ib > 0 {
                assert(path_lt(b[0], b[ib]));
                lemma_path_lt_asymmetric(a[0], b[0]);
            }
            lemma_path_lt_irreflexive(a[0]);
        }
        assert(a[0] == b[0]);
        let ta = a.drop_first();
        let tb = b.drop_first();
        assert forall|i: int, j: int| 0 <= i < j < ta.len() implies path_lt(
            #[trigger] ta[i],
            #[trigger] ta[j],
        ) by {
            assert(ta[i] == a[i + 1] && ta[j] == a[j + 1]);
        }
        assert forall|i: int, j: int| 0 <= i < j < tb.len() implies path_lt(
            #[trigger] tb[i],
            #[trigger] tb[j],
        ) by {
            assert(tb[i] == b[i + 1] && tb[j] == b[j + 1]);
        }
        assert forall|x: Seq<char>| ta.to_set().contains(x) implies tb.to_set().contains(x) by {
            let i = choose|i: int| 0 <= i < ta.len() && ta[i] == x;
            assert(a[i + 1] == x);
            assert(a.to_set().contains(x));
            let j = choose|j: int| 0 <= j < b.len() && b[j] == x;
            if j == 0 {
                assert(path_lt(a[0], a[i + 1]));
                lemma_path_lt_irreflexive(a[0]);
            }
            assert(tb[j - 1] == x);
        }
        assert forall|x: Seq<char>| tb.to_set().contains(x) implies ta.to_set().contains(x) by {
            let i = choose|i: int| 0 <= i < tb.len() && tb[i] == x;
            assert(b[i + 1] == x);
            assert(b.to_set().contains(x));
            let j = choose|j: int| 0 <= j < a.len() && a[j] == x;
            if j == 0 {
                assert(path_lt(b[0], b[i + 1]));
                lemma_path_lt_irreflexive(b[0]);
            }
            assert(ta[j - 1] == x);
        }
        assert(ta.to_set() =~= tb.to_set());
        lemma_path_sorted_unique(ta, tb);
        assert(a =~= seq![a[0]] + ta);
        assert(b =~= seq![b[0]] + tb);
    }
}

/// A strictly sorted sequence is the sorted sequence of its elements.
pub proof fn lemma_path_sorted_of(x: Seq<Seq<char>>)
    requires
        path_sorted(x),
    ensures
        path_sorted_of(x.to_set()) == x,
{
    let y = path_sorted_of(x.to_set());
    assert(path_sorted(x) && x.to_set() == x.to_set());
    lemma_path_sorted_unique(x, y);
}

// ---------------------------------------------------------------------------
// Sources and headers
// ---------------------------------------------------------------------------

/// What `Path::extension` gives for a path, as a string: what follows the
/// last `.` of the final component, where there is one and the component
/// does not only start with it.
pub uninterp spec fn path_extension(path: Seq<char>) -> Option<Seq<char>>;

/// Calls `Path::extension` and converts the extension back to a string;
/// the result is named `path_extension` of the path.
#[verifier::external_body]
pub(crate) fn extension(path: &str) -> (r: Option<String>)
    ensures
        text::opt_view(r) == path_extension(path@),
{
    std::path::Path::new(path).extension().and_then(|e| e.to_str()).map(|e| e.to_string())
}

/// A C or C++ source file, by its extension.
pub open spec fn is_source_unit(path: Seq<char>) -> bool {
    match path_extension(path) {
        Some(e) => e == "c"@ || e == "cc"@ || e == "cpp"@ || e == "cxx"@,
        None => false,
    }
}

/// A header file, by its extension.
pub open spec fn is_header_unit(path: Seq<char>) -> bool {
    match path_extension(path) {
        Some(e) => e == "h"@ || e == "hh"@ || e == "hpp"@ || e == "hxx"@,
        None => false,
    }
}

pub fn is_source_translation_unit_file(path: &str) -> (r: bool)
    ensures
        r == is_source_unit(path@),
{
    match extension(path) {
        Some(e) => str_eq(e.as_str(), "c") || str_eq(e.as_str(), "cc") || str_eq(e.as_str(), "cpp")
            || str_eq(e.as_str(), "cxx"),
        None => false,
    }
}

pub fn is_header_file(path: &str) -> (r: bool)
    ensures
        r == is_header_unit(path@),
{
    match extension(path) {
        Some(e) => str_eq(e.as_str(), "h") || str_eq(e.as_str(), "hh") || str_eq(e.as_str(), "hpp")
            || str_eq(e.as_str(), "hxx"),
        None => false,
    }
}

/// Which files a step keeps.
#[derive(Debug, Clone, Copy, PartialEq, Eq, Structural)]
pub enum UnitKind {
    Any,
    Source,
    Header,
}

pub open spec fn kind_keeps(kind: UnitKind, path: Seq<char>) -> bool {
    match kind {
        UnitKind::Any => true,
        UnitKind::Source => is_source_unit(path),
        UnitKind::Header => is_header_unit(path),
    }
}

fn kind_keeps_exec(kind: UnitKind, path: &str) -> (r: bool)
    ensures
        r == kind_keeps(kind, path@),
{
    match kind {
        UnitKind::Any => true,
        UnitKind::Source => is_source_translation_unit_file(path),
        UnitKind::Header => is_header_file(path),
    }
}

/// The paths of a set that a kind keeps.
pub open spec fn kept(s: Set<Seq<char>>, kind: UnitKind) -> Set<Seq<char>> {
    s.filter(|p: Seq<char>| kind_keeps(kind, p))
}

/// The sources among some files, or, where there is none, the headers.
pub open spec fn spec_source_preferred(s: Set<Seq<char>>) -> Set<Seq<char>> {
    if kept(s, UnitKind::Source) != Set::<Seq<char>>::empty() {
        kept(s, UnitKind::Source)
    } else {
        kept(s, UnitKind::Header)
    }
}

/// Adds the entries of `items` that `kind` keeps to a path-sorted list,
/// each once.
fn insert_all(out: &mut Vec<String>, items: &Vec<String>, kind: UnitKind)
    requires
        path_sorted(text::views(old(out)@)),
    ensures
        path_sorted(text::views(final(out)@)),
        text::views(final(out)@).to_set() == text::views(old(out)@).to_set().union(
            kept(text::views(items@).to_set(), kind),
        ),
{
    let ghost start = text::views(out@).to_set();
    let ghost iv = text::views(items@);
    let mut i: usize = 0;
    assert(kept(iv.take(0).to_set(), kind) =~= Set::<Seq<char>>::empty());
    assert(start.union(Set::<Seq<char>>::empty()) =~= start);
    while i < items.len()
        invariant
            iv == text::views(items@),
            i <= items@.len(),
            path_sorted(text::views(out@)),
            text::views(out@).to_set() == start.union(kept(iv.take(i as int).to_set(), kind)),
            start == text::views(old(out)@).to_set(),
        decreases items@.len() - i,
    {
        let p = items[i].as_str();
        assert(p@ == iv[i as int]);
        let ghost before = text::views(out@).to_set();
        assert(iv.take(i + 1).to_set() =~= iv.take(i as int).to_set().insert(iv[i as int])) by {
            assert(iv.take(i + 1) =~= iv.take(i as int).push(iv[i as int]));
            iv.take(i as int).lemma_push_to_set_commute(iv[i as int]);
        }
        if kind_keeps_exec(kind, p) {
            if !text::contains_string(out, p) {
                insert_path_sorted(out, items[i].clone());
            }
            assert(text::views(out@).to_set() =~= before.insert(p@));
            assert(kept(iv.take(i + 1).to_set(), kind) =~= kept(iv.take(i as int).to_set(), kind).insert(p@));
        } else {
            assert(kept(iv.take(i + 1).to_set(), kind) =~= kept(iv.take(i as int).to_set(), kind));
        }
        assert(text::views(out@).to_set() =~= start.union(kept(iv.take(i + 1).to_set(), kind)));
        i += 1;
    }
    assert(iv.take(items@.len() as int) =~= iv);
}

proof fn lemma_empty_to_set(xs: Seq<Seq<char>>)
    ensures
        (xs.len() == 0) == (xs.to_set() == Set::<Seq<char>>::empty()),
{
    if xs.len() > 0 {
        assert(xs.to_set().contains(xs[0]));
    } else {
        assert(xs.to_set() =~= Set::<Seq<char>>::empty());
    }
}

/// The sources among some files, or, where there is none, the headers;
/// path-sorted, each once.
pub fn source_preferred(listing: &Vec<String>) -> (r: Vec<String>)
    ensures
        path_sorted(text::views(r@)),
        text::views(r@).to_set() == spec_source_preferred(text::views(listing@).to_set()),
{
    let ghost s = text::views(listing@).to_set();
    let mut out: Vec<String> = Vec::new();
    assert(text::views(out@) =~= Seq::<Seq<char>>::empty());
    assert(text::views(out@).to_set() =~= Set::<Seq<char>>::empty());
    insert_all(&mut out, listing, UnitKind::Source);
    assert(text::views(out@).to_set() =~= kept(s, UnitKind::Source));
    proof {
        lemma_empty_to_set(text::views(out@));
    }
    if out.len() == 0 {
        insert_all(&mut out, listing, UnitKind::Header);
        assert(text::views(out@).to_set() =~= kept(s, UnitKind::Header));
    }
    out
}

// ---------------------------------------------------------------------------
// Choosing the translation units
// ---------------------------------------------------------------------------

/// The union of the source-preferred listings of the first `k` directories.
pub open spec fn grouped_union(listings: Seq<Seq<Seq<char>>>, k: int) -> Set<Seq<char>>
    decreases k,
{
    if k <= 0 {
        Set::empty()
    } else {
        grouped_union(listings, k - 1).union(spec_source_preferred(listings[k - 1].to_set()))
    }
}

/// The translation units of a parse.
///
/// - Without an input directory: the configured headers, as they are.
/// - With one: the sources of the compilation database (those inside the
///   directory, `db_units`) together with the source-preferred units of the
///   directories that hold configured headers (`grouped_listings`, one file
///   listing per directory), in path order, each once; where that leaves
///   none, the source-preferred files of the directory itself
///   (`dir_listing`).
pub open spec fn spec_select_translation_units(
    config: Config,
    db_units: Seq<Seq<char>>,
    grouped_listings: Seq<Seq<Seq<char>>>,
    dir_listing: Seq<Seq<char>>,
) -> Seq<Seq<char>> {
    if config.input.dir is None {
        text::views(config.input.headers@)
    } else {
        let merged = kept(db_units.to_set(), UnitKind::Source).union(
            spec_source_preferred(grouped_union(grouped_listings, grouped_listings.len() as int)),
        );
        if merged != Set::<Seq<char>>::empty() {
            path_sorted_of(merged)
        } else {
            path_sorted_of(spec_source_preferred(dir_listing.to_set()))
        }
    }
}

pub open spec fn listing_views(v: Seq<Vec<String>>) -> Seq<Seq<Seq<char>>> {
    v.map_values(|l: Vec<String>| text::views(l@))
}

pub fn select_translation_units(
    config: &Config,
    db_units: &Vec<String>,
    grouped_listings: &Vec<Vec<String>>,
    dir_listing: &Vec<String>,
) -> (r: Vec<String>)
    ensures
        text::views(r@) == spec_select_translation_units(
            *config,
            text::views(db_units@),
            listing_views(grouped_listings@),
            text::views(dir_listing@),
        ),
{
    if config.input.dir.is_none() {
        return text::clone_strings(&config.input.headers);
    }
    let ghost gl = listing_views(grouped_listings@);
    let mut union: Vec<String> = Vec::new();
    assert(text::views(union@) =~= Seq::<Seq<char>>::empty());
    assert(text::views(union@).to_set() =~= grouped_union(gl, 0));
    let mut d: usize = 0;
    while d < grouped_listings.len()
        invariant
            gl == listing_views(grouped_listings@),
            d <= grouped_listings@.len(),
            path_sorted(text::views(union@)),
            text::views(union@).to_set() == grouped_union(gl, d as int),
        decreases grouped_listings@.len() - d,
    {
        let pref = source_preferred(&grouped_listings[d]);
        assert(gl[d as int] == text::views(grouped_listings@[d as int]@));
        insert_all(&mut union, &pref, UnitKind::Any);
        assert(kept(text::views(pref@).to_set(), UnitKind::Any) =~= text::views(pref@).to_set());
        d += 1;
    }
    let classified = source_preferred(&union);
    let mut merged: Vec<String> = Vec::new();
    assert(text::views(merged@) =~= Seq::<Seq<char>>::empty());
    assert(text::views(merged@).to_set() =~= Set::<Seq<char>>::empty());
    insert_all(&mut merged, db_units, UnitKind::Source);
    insert_all(&mut merged, &classified, UnitKind::Any);
    let ghost m = kept(text::views(db_units@).to_set(), UnitKind::Source).union(
        spec_source_preferred(grouped_union(gl, gl.len() as int)),
    );
    assert(kept(text::views(classified@).to_set(), UnitKind::Any) =~= text::views(classified@).to_set());
    assert(text::views(merged@).to_set() =~= m);
    proof {
        lemma_empty_to_set(text::views(merged@));
    }
    if merged.len() > 0 {
        proof {
            lemma_path_sorted_of(text::views(merged@));
        }
        merged
    } else {
        let fallback = source_preferred(dir_listing);
        proof {
            lemma_path_sorted_of(text::views(fallback@));
        }
        fallback
    }
}

/// Without configured headers under the input directory, the units are
/// the database's sources, in path order and each once; where it has
/// none, the directory's sources, or else its headers. Without an input
/// directory they are the configured headers.
pub proof fn law_units_choice(
    config: Config,
    db_units: Seq<Seq<char>>,
    dir_listing: Seq<Seq<char>>,
)
    ensures
        config.input.dir is None ==> spec_select_translation_units(config, db_units, Seq::empty(), dir_listing)
            == text::views(config.input.headers@),
        config.input.dir is Some ==> spec_select_translation_units(
            config,
            db_units,
            Seq::empty(),
            dir_listing,
        ) == if kept(db_units.to_set(), UnitKind::Source) != Set::<Seq<char>>::empty() {
            path_sorted_of(kept(db_units.to_set(), UnitKind::Source))
        } else {
            path_sorted_of(spec_source_preferred(dir_listing.to_set()))
        },
{
    let e = Set::<Seq<char>>::empty();
    assert(grouped_union(Seq::<Seq<Seq<char>>>::empty(), 0) == e);
    assert(kept(e, UnitKind::Source) =~= e);
    assert(kept(e, UnitKind::Header) =~= e);
    assert(spec_source_preferred(e) == e);
    assert(kept(db_units.to_set(), UnitKind::Source).union(e) =~= kept(db_units.to_set(), UnitKind::Source));
}

} // verus!
