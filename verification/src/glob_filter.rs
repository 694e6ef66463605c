//! Which files a search reads: glob sets of wanted and skipped paths,
//! relative to the repository's root.
use vstd::prelude::*;

verus! {

#[verifier::external_type_specification]
#[verifier::external_body]
pub struct ExGlobSet(globset::GlobSet);

/// Whether globset compiles a pattern with its default options.
pub uninterp spec fn glob_compiles(pattern: Seq<char>) -> bool;

/// Whether globset builds a set from these patterns, each of which compiles.
pub uninterp spec fn glob_set_builds(patterns: Seq<Seq<char>>) -> bool;

/// Whether the compiled glob `pattern` matches `path`.
pub uninterp spec fn glob_matches(pattern: Seq<char>, path: Seq<char>) -> bool;

/// A compiled set of glob patterns, with the patterns' texts. Its fields are
/// private: a value exists only as `build_glob_set` built it, so `set` is
/// always the set compiled from `patterns`.
pub struct GlobFilter {
    patterns: Vec<String>,
    set: globset::GlobSet,
}

pub open spec fn texts(v: Seq<String>) -> Seq<Seq<char>> {
    v.map_values(|s: String| s@)
}

impl GlobFilter {
    /// The patterns of the set.
    pub closed spec fn patterns(&self) -> Seq<Seq<char>> {
        texts(self.patterns@)
    }
}

/// Calls `globset::Glob::new`: whether the pattern compiles.
#[verifier::external_body]
pub(crate) fn glob_ok(pattern: &str) -> (b: bool)
    ensures
        b == glob_compiles(pattern@),
{
    globset::Glob::new(pattern).is_ok()
}

/// Calls `globset::GlobSetBuilder::build` on a builder given each pattern,
/// all of which compile, and keeps the patterns beside the set. With no
/// pattern the build gives the empty set; otherwise whether it succeeds is
/// a function of the patterns, named `glob_set_builds`.
#[verifier::external_body]
pub(crate) fn build_glob_set(patterns: Vec<String>) -> (r: Option<GlobFilter>)
    requires
        forall|i: int| 0 <= i < patterns.len() ==> glob_compiles(#[trigger] patterns@[i]@),
    ensures
        r is Some <==> (patterns.len() == 0 || glob_set_builds(texts(patterns@))),
        r matches Some(f) ==> f.patterns() == texts(patterns@),
{
    let mut builder = globset::GlobSetBuilder::new();
    for p in &patterns {
        if let Ok(g) = globset::Glob::new(p) {
            builder.add(g);
        }
    }
    match builder.build() {
        Ok(set) => Some(GlobFilter { patterns, set }),
        Err(_) => None,
    }
}

/// Whether some pattern of the set matches the path.
pub open spec fn any_matches(patterns: Seq<Seq<char>>, path: Seq<char>) -> bool {
    exists|i: int| 0 <= i < patterns.len() && glob_matches(patterns[i], path)
}

/// Calls `globset::GlobSet::is_match`, which holds when any glob of the set
/// matches the path.
#[verifier::external_body]
pub(crate) fn set_matches(f: &GlobFilter, path: &str) -> (b: bool)
    ensures
        b == (exists|i: int| 0 <= i < f.patterns().len() && glob_matches(f.patterns()[i], path@)),
{
    f.set.is_match(path)
}

/// The patterns that compile, in order.
pub open spec fn compiling(patterns: Seq<Seq<char>>) -> Seq<Seq<char>> {
    patterns.filter(|p: Seq<char>| glob_compiles(p))
}

/// The patterns of the set built from `ps`: none for no patterns; the empty
/// set when none compiles; else the compiling ones, when globset builds a
/// set of them.
pub open spec fn built_patterns(ps: Seq<Seq<char>>) -> Option<Seq<Seq<char>>> {
    if ps.len() == 0 {
        None
    } else if compiling(ps).len() == 0 {
        Some(seq![])
    } else if glob_set_builds(compiling(ps)) {
        Some(compiling(ps))
    } else {
        None
    }
}

/// A glob set of the patterns that compile; none for no patterns, or when
/// globset cannot build the set. When patterns are given and none compiles,
/// the set is the empty one.
pub fn build_globset(patterns: &Vec<String>) -> (r: Option<GlobFilter>)
    ensures
        filter_patterns(r) == built_patterns(texts(patterns@)),
        patterns.len() == 0 ==> r is None,
        patterns.len() > 0 && compiling(texts(patterns@)).len() == 0 ==> (r matches Some(f) && f.patterns().len() == 0),
        patterns.len() > 0 && compiling(texts(patterns@)).len() > 0 ==> (r is Some <==> glob_set_builds(
            compiling(texts(patterns@)),
        )),
        r matches Some(f) ==> f.patterns() == compiling(texts(patterns@)),
{
    if patterns.len() == 0 {
        return None;
    }
    let ghost pv = texts(patterns@);
    let mut kept: Vec<String> = Vec::new();
    let mut i: usize = 0;
    while i < patterns.len()
        invariant
            0 <= i <= patterns.len(),
            pv == texts(patterns@),
            texts(kept@) == compiling(pv.take(i as int)),
            forall|k: int| 0 <= k < kept.len() ==> glob_compiles(#[trigger] kept@[k]@),
        decreases patterns.len() - i,
    {
        let ghost before = kept@;
        assert(pv.take(i + 1).drop_last() =~= pv.take(i as int));
        assert(pv[i as int] == patterns@[i as int]@);
        if glob_ok(patterns[i].as_str()) {
            kept.push(patterns[i].clone());
            assert(texts(kept@) =~= texts(before).push(pv[i as int]));
        }
        assert(pv.take(i + 1).last() == pv[i as int]);
        assert(compiling(pv.take(i + 1)) == if glob_compiles(pv[i as int]) {
            compiling(pv.take(i as int)).push(pv[i as int])
        } else {
            compiling(pv.take(i as int))
        }) by {
            reveal(Seq::filter);
        }
        i = i + 1;
    }
    assert(pv.take(patterns.len() as int) =~= pv);
    build_glob_set(kept)
}

/// Whether a search reads a file: the set of wanted paths, when there is
/// one, matches its path, and the set of skipped paths, when there is one,
/// does not.
pub open spec fn allowed(wanted: Option<Seq<Seq<char>>>, skipped: Option<Seq<Seq<char>>>, path: Seq<char>) -> bool {
    &&& (wanted matches Some(ps) ==> any_matches(ps, path))
    &&& (skipped matches Some(ps) ==> !any_matches(ps, path))
}

pub open spec fn filter_patterns(f: Option<GlobFilter>) -> Option<Seq<Seq<char>>> {
    match f {
        Some(g) => Some(g.patterns()),
        None => None,
    }
}

/// Decides whether a search reads the file at `path`.
pub fn path_allowed(wanted: &Option<GlobFilter>, skipped: &Option<GlobFilter>, path: &str) -> (b: bool)
    ensures
        b == allowed(filter_patterns(*wanted), filter_patterns(*skipped), path@),
{
    if let Some(set) = wanted {
        if !set_matches(set, path) {
            return false;
        }
    }
    if let Some(set) = skipped {
        if set_matches(set, path) {
            return false;
        }
    }
    true
}

} // verus!
