//! Glob matching, done by the `globset` crate.
use vstd::prelude::*;

verus! {

/// `globset::Glob`, a parsed glob pattern.
#[verifier::external_type_specification]
#[verifier::external_body]
pub struct ExGlob(globset::Glob);

/// `globset::GlobSetBuilder`, a list of parsed globs waiting to be built into a set.
#[verifier::external_type_specification]
#[verifier::external_body]
pub struct ExGlobSetBuilder(globset::GlobSetBuilder);

/// `globset::GlobSet`, a compiled set of globs.
#[verifier::external_type_specification]
#[verifier::external_body]
pub struct ExGlobSet(globset::GlobSet);

/// Whether `globset::Glob::new` accepts `pattern`.
pub uninterp spec fn glob_is_valid(pattern: Seq<char>) -> bool;

/// Whether the glob `pattern`, with globset's default options, matches `path`.
pub uninterp spec fn glob_matches(pattern: Seq<char>, path: Seq<char>) -> bool;

/// Whether `globset::GlobSetBuilder::build` succeeds on a builder holding `patterns`.
pub uninterp spec fn glob_set_builds(patterns: Seq<Seq<char>>) -> bool;

/// The patterns of the globs a builder holds, in the order they were added.
pub uninterp spec fn builder_patterns(b: globset::GlobSetBuilder) -> Seq<Seq<char>>;

/// The patterns of the globs a glob set was built from, in order.
pub uninterp spec fn glob_set_patterns(s: globset::GlobSet) -> Seq<Seq<char>>;

/// A glob together with the pattern it was parsed from. Values of this type
/// are only made by `parse_glob`, so the glob is always the parse of the pattern.
pub struct ParsedGlob {
    pattern: String,
    glob: globset::Glob,
}

impl ParsedGlob {
    pub closed spec fn pattern(&self) -> Seq<char> {
        self.pattern@
    }
}

/// Calls `globset::Glob::new`. Claimed: it succeeds exactly on the patterns
/// `glob_is_valid` names, and the glob it returns is the parse of `pattern`.
#[verifier::external_body]
pub(crate) fn parse_glob(pattern: &str) -> (r: Result<ParsedGlob, globset::Error>)
    ensures
        r is Ok <==> glob_is_valid(pattern@),
        r matches Ok(g) ==> g.pattern() == pattern@,
{
    match globset::Glob::new(pattern) {
        Ok(glob) => Ok(ParsedGlob { pattern: pattern.to_string(), glob }),
        Err(e) => Err(e),
    }
}

/// Calls `globset::GlobSetBuilder::new`. Claimed: the new builder holds no glob.
#[verifier::external_body]
pub(crate) fn new_glob_set_builder() -> (b: globset::GlobSetBuilder)
    ensures
        builder_patterns(b) == Seq::<Seq<char>>::empty(),
{
    globset::GlobSetBuilder::new()
}

/// Calls `globset::GlobSetBuilder::add`. Claimed: the glob is appended to the
/// builder's list, as the source shows (`self.pats.push(pat)`).
#[verifier::external_body]
pub(crate) fn add_to_builder(b: &mut globset::GlobSetBuilder, g: ParsedGlob)
    ensures
        builder_patterns(*final(b)) == builder_patterns(*old(b)).push(g.pattern()),
{
    b.add(g.glob);
}

/// Calls `globset::GlobSetBuilder::build`. Claimed: it succeeds exactly when
/// `glob_set_builds` holds of the builder's patterns, and the set it returns
/// holds those patterns.
#[verifier::external_body]
pub(crate) fn build_glob_set(b: &globset::GlobSetBuilder) -> (r: Result<
    globset::GlobSet,
    globset::Error,
>)
    ensures
        r is Ok <==> glob_set_builds(builder_patterns(*b)),
        r matches Ok(s) ==> glob_set_patterns(s) == builder_patterns(*b),
{
    b.build()
}

/// Calls `globset::GlobSet::is_match`. Claimed, as its documentation says: the
/// set matches a path exactly when one of its globs does.
#[verifier::external_body]
pub(crate) fn glob_set_is_match(s: &globset::GlobSet, path: &str) -> (r: bool)
    ensures
        r == (exists|i: int| 0 <= i < glob_set_patterns(*s).len() && #[trigger] glob_matches(glob_set_patterns(*s)[i], path@)),
{
    s.is_match(path)
}

/// Whether one of `patterns` matches `path`.
pub open spec fn any_glob_matches(patterns: Seq<Seq<char>>, path: Seq<char>) -> bool {
    exists|i: int| 0 <= i < patterns.len() && #[trigger] glob_matches(patterns[i], path)
}

/// Whether every one of `patterns` is a valid glob.
pub open spec fn all_globs_valid(patterns: Seq<Seq<char>>) -> bool {
    forall|i: int| 0 <= i < patterns.len() ==> #[trigger] glob_is_valid(patterns[i])
}

/// Whether a glob set can be made of `patterns`.
pub open spec fn glob_set_possible(patterns: Seq<Seq<char>>) -> bool {
    all_globs_valid(patterns) && glob_set_builds(patterns)
}

/// A glob set of all the given patterns, in order.
pub fn build_globset(patterns: &Vec<String>) -> (r: Result<globset::GlobSet, globset::Error>)
    ensures
        r is Ok <==> glob_set_possible(crate::paths::string_views(patterns@)),
        r matches Ok(s) ==> glob_set_patterns(s) == crate::paths::string_views(patterns@),
{
    let ghost pv = crate::paths::string_views(patterns@);
    let mut builder = new_glob_set_builder();
    let mut i: usize = 0;
    while i < patterns.len()
        invariant
            i <= patterns@.len(),
            pv == crate::paths::string_views(patterns@),
            builder_patterns(builder) == pv.take(i as int),
            all_globs_valid(pv.take(i as int)),
        decreases patterns@.len() - i,
    {
        let parsed = parse_glob(patterns[i].as_str());
        match parsed {
            Ok(g) => {
                add_to_builder(&mut builder, g);
                proof {
                    assert(pv.take(i + 1) =~= pv.take(i as int).push(pv[i as int]));
                    assert forall|j: int| 0 <= j < i + 1 implies #[trigger] glob_is_valid(
                        pv.take(i + 1)[j],
                    ) by {
                        if j < i {
                            assert(pv.take(i + 1)[j] == pv.take(i as int)[j]);
                        }
                    }
                }
            },
            Err(e) => {
                proof {
                    assert(!glob_is_valid(pv[i as int]));
                }
                return Err(e);
            },
        }
        i = i + 1;
    }
    proof {
        assert(pv.take(patterns@.len() as int) =~= pv);
    }
    build_glob_set(&builder)
}

} // verus!
