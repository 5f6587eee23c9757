//! Glob patterns, matched by the `globset` crate.

use globset::{Glob, GlobMatcher, GlobSet, GlobSetBuilder};
use vstd::prelude::*;
use vstd::string::*;
use vstd::utf8::encode_utf8;

verus! {

/// `globset::Glob`: one parsed pattern.
#[verifier::external_type_specification]
#[verifier::external_body]
pub struct ExGlob(globset::Glob);

/// `globset::GlobSetBuilder`: the patterns gathered for a set.
#[verifier::external_type_specification]
#[verifier::external_body]
pub struct ExGlobSetBuilder(globset::GlobSetBuilder);

/// `globset::GlobSet`: patterns that are matched together.
#[verifier::external_type_specification]
#[verifier::external_body]
pub struct ExGlobSet(globset::GlobSet);

/// `globset::Error`: why a pattern or a set was refused.
#[verifier::external_type_specification]
#[verifier::external_body]
pub struct ExGlobError(globset::Error);

/// Whether `globset` can parse `pattern`.
pub uninterp spec fn glob_parses(pattern: Seq<char>) -> bool;

/// Whether `globset` can compile the set of `patterns`.
pub uninterp spec fn glob_set_builds(patterns: Seq<Seq<char>>) -> bool;

/// Whether `globset` finds that `path` matches `pattern`.
pub uninterp spec fn glob_accepts(pattern: Seq<char>, path: Seq<char>) -> bool;

/// The characters of the pattern that a `Glob` was parsed from.
pub uninterp spec fn glob_pattern(glob: Glob) -> Seq<char>;

/// The patterns that a builder has been given, in order.
pub uninterp spec fn builder_patterns(builder: GlobSetBuilder) -> Seq<Seq<char>>;

/// The patterns of a set, in the order in which they were added.
pub uninterp spec fn set_patterns(set: GlobSet) -> Seq<Seq<char>>;

/// `Glob::new` parses a pattern, or refuses it. Whether it does is a function of
/// the pattern alone, and the `Glob` keeps the pattern.
#[verifier::external_body]
fn glob_new(pattern: &str) -> (glob: Result<Glob, globset::Error>)
    ensures
        glob is Ok == glob_parses(pattern@),
        glob is Ok ==> glob_pattern(glob->Ok_0) == pattern@,
{
    Glob::new(pattern)
}

/// `GlobSetBuilder::new` starts without any pattern.
#[verifier::external_body]
fn builder_new() -> (builder: GlobSetBuilder)
    ensures
        builder_patterns(builder) == Seq::<Seq<char>>::empty(),
{
    GlobSetBuilder::new()
}

/// `GlobSetBuilder::add` puts one more pattern at the end.
#[verifier::external_body]
fn builder_add(builder: &mut GlobSetBuilder, glob: Glob)
    ensures
        builder_patterns(*final(builder)) == builder_patterns(*old(builder)).push(glob_pattern(glob)),
{
    builder.add(glob);
}

/// `GlobSetBuilder::build` compiles the patterns given so far, or reports that
/// they cannot be compiled together.
#[verifier::external_body]
fn builder_build(builder: &GlobSetBuilder) -> (set: Result<GlobSet, globset::Error>)
    ensures
        set is Ok == glob_set_builds(builder_patterns(*builder)),
        set is Ok ==> set_patterns(set->Ok_0) == builder_patterns(*builder),
{
    builder.build()
}

/// `GlobSet::matches` lists the position of every pattern that matches `path`, in
/// ascending order and each once.
#[verifier::external_body]
fn set_matches(set: &GlobSet, path: &str) -> (found: Vec<usize>)
    ensures
        forall|i: int, j: int| 0 <= i < j < found@.len() ==> found@[i] < found@[j],
        forall|i: int|
            0 <= i < found@.len() ==> #[trigger] found@[i] < set_patterns(*set).len() && glob_accepts(
                set_patterns(*set)[found@[i] as int],
                path@,
            ),
        forall|k: int|
            0 <= k < set_patterns(*set).len() && #[trigger] glob_accepts(set_patterns(*set)[k], path@)
                ==> found@.contains(k as usize),
{
    set.matches(path)
}

/// What became of matching a path against a list of patterns.
#[derive(Clone, Copy, Debug, PartialEq, Eq, Structural)]
pub enum GlobSearch {
    /// The pattern at this position cannot be parsed; all before it can.
    Malformed(usize),
    /// The patterns cannot be compiled together.
    Unbuildable,
    /// The first pattern that matches stands at this position.
    First(usize),
    /// No pattern matches.
    Nowhere,
}

/// What [`search`] finds: the first pattern that does not parse, or else that the
/// patterns do not compile, or else the first one that matches.
pub open spec fn search_spec(patterns: Seq<Seq<char>>, path: Seq<char>, found: GlobSearch) -> bool {
    match found {
        GlobSearch::Malformed(at) => {
            &&& at < patterns.len()
            &&& !glob_parses(patterns[at as int])
            &&& forall|i: int| 0 <= i < at ==> glob_parses(#[trigger] patterns[i])
        },
        GlobSearch::Unbuildable => {
            &&& forall|i: int| 0 <= i < patterns.len() ==> glob_parses(#[trigger] patterns[i])
            &&& !glob_set_builds(patterns)
        },
        GlobSearch::First(at) => {
            &&& forall|i: int| 0 <= i < patterns.len() ==> glob_parses(#[trigger] patterns[i])
            &&& glob_set_builds(patterns)
            &&& at < patterns.len()
            &&& glob_accepts(patterns[at as int], path)
            &&& forall|i: int| 0 <= i < at ==> !glob_accepts(#[trigger] patterns[i], path)
        },
        GlobSearch::Nowhere => {
            &&& forall|i: int| 0 <= i < patterns.len() ==> glob_parses(#[trigger] patterns[i])
            &&& glob_set_builds(patterns)
            &&& forall|i: int| 0 <= i < patterns.len() ==> !glob_accepts(#[trigger] patterns[i], path)
        },
    }
}

/// A search finds one thing only.
pub proof fn lemma_search_is_unique(patterns: Seq<Seq<char>>, path: Seq<char>, a: GlobSearch, b: GlobSearch)
    requires
        search_spec(patterns, path, a),
        search_spec(patterns, path, b),
    ensures
        a == b,
{
    match (a, b) {
        (GlobSearch::Malformed(i), GlobSearch::Malformed(j)) => {
            if i < j {
                assert(glob_parses(patterns[i as int]));
            } else if j < i {
                assert(glob_parses(patterns[j as int]));
            }
        },
        (GlobSearch::First(i), GlobSearch::First(j)) => {
            if i < j {
                assert(!glob_accepts(patterns[i as int], path));
            } else if j < i {
                assert(!glob_accepts(patterns[j as int], path));
            }
        },
        (GlobSearch::Malformed(i), _) => {
            assert(glob_parses(patterns[i as int]));
        },
        (_, GlobSearch::Malformed(j)) => {
            assert(glob_parses(patterns[j as int]));
        },
        (GlobSearch::First(i), GlobSearch::Nowhere) => {
            assert(!glob_accepts(patterns[i as int], path));
        },
        (GlobSearch::Nowhere, GlobSearch::First(j)) => {
            assert(!glob_accepts(patterns[j as int], path));
        },
        _ => {},
    }
}

/// Finds the first of `patterns` that matches `path`.
pub fn search(patterns: &Vec<String>, path: &str) -> (found: GlobSearch)
    ensures
        search_spec(patterns.deep_view(), path@, found),
{
    let mut builder = builder_new();
    let mut i: usize = 0;
    assert(builder_patterns(builder) =~= patterns.deep_view().take(0));
    while i < patterns.len()
        invariant
            i <= patterns@.len(),
            builder_patterns(builder) == patterns.deep_view().take(i as int),
            forall|j: int| 0 <= j < i ==> glob_parses(#[trigger] patterns.deep_view()[j]),
        decreases patterns@.len() - i,
    {
        match glob_new(patterns[i].as_str()) {
            Ok(glob) => {
                builder_add(&mut builder, glob);
                i += 1;
                assert(builder_patterns(builder) =~= patterns.deep_view().take(i as int));
            },
            Err(_) => {
                assert(!glob_parses(patterns.deep_view()[i as int]));
                return GlobSearch::Malformed(i);
            },
        }
    }
    assert(patterns.deep_view().take(i as int) =~= patterns.deep_view());
    match builder_build(&builder) {
        Ok(set) => {
            let found = set_matches(&set, path);
            if found.len() == 0 {
                assert forall|k: int| 0 <= k < patterns.deep_view().len() implies !glob_accepts(
                    #[trigger] patterns.deep_view()[k],
                    path@,
                ) by {
                    assert(!found@.contains(k as usize));
                }
                GlobSearch::Nowhere
            } else {
                let first: usize = found[0];
                assert forall|k: int| 0 <= k < first implies !glob_accepts(
                    #[trigger] patterns.deep_view()[k],
                    path@,
                ) by {
                    if glob_accepts(patterns.deep_view()[k], path@) {
                        assert(found@.contains(k as usize));
                        let at = choose|at: int| 0 <= at < found@.len() && found@[at] == k as usize;
                        assert(found@[0] <= found@[at]);
                    }
                }
                GlobSearch::First(first)
            }
        },
        Err(_) => GlobSearch::Unbuildable,
    }
}

// ---------------------------------------------------------------------------
// A single pattern
// ---------------------------------------------------------------------------

/// `globset::GlobMatcher`: one pattern, compiled by itself.
#[verifier::external_type_specification]
#[verifier::external_body]
pub struct ExGlobMatcher(globset::GlobMatcher);

/// The pattern that a matcher was compiled from.
pub uninterp spec fn matcher_pattern(matcher: GlobMatcher) -> Seq<char>;

/// Whether `globset` finds that `path` matches `pattern`, compiled by itself. A set may
/// find otherwise of a path whose last component is `..`.
pub uninterp spec fn matcher_accepts(pattern: Seq<char>, path: Seq<char>) -> bool;

/// How long a pattern may be, in bytes, to be compiled by itself.
pub const MATCHER_LIMIT: usize = 65536;

/// `Glob::compile_matcher` compiles one pattern by itself. It panics where the regular
/// expression of the pattern is nested too deeply or is too large: a pattern with
/// alternates, the only ones that nest, builds as a set only where its expression
/// compiles, and one of no more than [`MATCHER_LIMIT`] bytes without alternates is far
/// below the bound on size.
#[verifier::external_body]
fn glob_matcher(glob: &Glob) -> (matcher: GlobMatcher)
    requires
        glob_set_builds(seq![glob_pattern(*glob)]),
        encode_utf8(glob_pattern(*glob)).len() <= MATCHER_LIMIT,
    ensures
        matcher_pattern(matcher) == glob_pattern(*glob),
{
    glob.compile_matcher()
}

/// `GlobMatcher::is_match` tells whether a path matches the pattern. That is a function
/// of the pattern and the path.
#[verifier::external_body]
fn matcher_is_match(matcher: &GlobMatcher, path: &str) -> (matched: bool)
    ensures
        matched == matcher_accepts(matcher_pattern(*matcher), path@),
{
    matcher.is_match(path)
}

/// Whether `value` matches `pattern`: the pattern parses and compiles, and `value` is
/// accepted, by the pattern alone or, where it is too long for that, by a set of it.
pub open spec fn glob_matches_spec(pattern: Seq<char>, value: Seq<char>) -> bool {
    &&& glob_parses(pattern)
    &&& glob_set_builds(seq![pattern])
    &&& if encode_utf8(pattern).len() <= MATCHER_LIMIT {
        matcher_accepts(pattern, value)
    } else {
        glob_accepts(pattern, value)
    }
}

/// Whether `value` matches `pattern`. A malformed pattern matches nothing.
pub fn glob_matches(pattern: &str, value: &str) -> (matched: bool)
    ensures
        matched == glob_matches_spec(pattern@, value@),
{
    let mut patterns: Vec<String> = Vec::new();
    patterns.push(pattern.to_owned());
    assert(patterns.deep_view() =~= seq![pattern@]);
    assert(patterns.deep_view()[0] == pattern@);
    let found = search(&patterns, value);
    if matches!(found, GlobSearch::Malformed(_) | GlobSearch::Unbuildable) {
        return false;
    }
    if pattern.as_bytes().len() > MATCHER_LIMIT {
        return matches!(found, GlobSearch::First(_));
    }
    match glob_new(pattern) {
        Ok(glob) => {
            let matcher = glob_matcher(&glob);
            matcher_is_match(&matcher, value)
        },
        Err(_) => false,
    }
}

/// A pattern takes in a value exactly where it can be read and compiled and the value is
/// accepted; one that cannot be read or compiled takes in nothing.
pub proof fn law_patterns_take_in_what_they_accept(pattern: &str, value: &str, matched: bool)
    requires
        call_ensures(glob_matches, (pattern, value), matched),
    ensures
        !glob_parses(pattern@) ==> !matched,
        !glob_set_builds(seq![pattern@]) ==> !matched,
        glob_parses(pattern@) && glob_set_builds(seq![pattern@]) && encode_utf8(pattern@).len() <= 65536 ==> matched
            == matcher_accepts(pattern@, value@),
        glob_parses(pattern@) && glob_set_builds(seq![pattern@]) && encode_utf8(pattern@).len() > 65536 ==> matched
            == glob_accepts(pattern@, value@),
{
}

/// Of several patterns the first that accepts a path is found, once all can be read and
/// compiled together; before that, the first that cannot be read.
pub proof fn law_the_first_accepting_pattern_is_found(patterns: &Vec<String>, path: &str, found: GlobSearch)
    requires
        call_ensures(search, (patterns, path), found),
    ensures
        ({
            let all = patterns@;
            match found {
                GlobSearch::First(at) => at < all.len() && glob_accepts(all[at as int]@, path@) && forall|i: int|
                    0 <= i < at ==> !glob_accepts((#[trigger] all[i])@, path@),
                GlobSearch::Malformed(at) => at < all.len() && !glob_parses(all[at as int]@) && forall|i: int|
                    0 <= i < at ==> glob_parses((#[trigger] all[i])@),
                GlobSearch::Nowhere => forall|i: int| 0 <= i < all.len() ==> !glob_accepts((#[trigger] all[i])@, path@),
                GlobSearch::Unbuildable => !glob_set_builds(patterns.deep_view()),
            }
        }),
{
    let texts = patterns.deep_view();
    let all = patterns@;
    assert forall|i: int| 0 <= i < all.len() implies (#[trigger] all[i])@ == texts[i] by {}
}

} // verus!
