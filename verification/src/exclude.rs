//! Skip-pattern exclusion: shell-style patterns, compiled and matched
//! through trusted wrappers, and the verified filtering built on them.

use vstd::prelude::*;

verus! {

/// Whether a pattern text is well-formed.
pub uninterp spec fn glob_pattern_ok(pattern: Seq<char>) -> bool;

/// The pattern text a compiled pattern was built from.
pub uninterp spec fn pattern_source(p: glob::Pattern) -> Seq<char>;

/// Whether a shell-style pattern matches a path -- a function of the two
/// texts alone.
pub uninterp spec fn glob_match(pattern: Seq<char>, path: Seq<char>) -> bool;

#[verifier::external_type_specification]
#[verifier::external_body]
pub struct ExPattern(glob::Pattern);

/// Relies on glob::Pattern::new: compiling succeeds exactly on well-formed
/// pattern texts, and the compiled value stands for its text.
#[verifier::external_body]
fn compile_pattern(pattern: &String) -> (r: Option<glob::Pattern>)
    ensures
        r is Some <==> glob_pattern_ok(pattern@),
        r matches Some(p) ==> pattern_source(p) == pattern@,
{
    glob::Pattern::new(pattern.as_str()).ok()
}

/// Relies on glob::Pattern::matches: whether the compiled pattern matches
/// the path, a function of the pattern text and the path alone.
#[verifier::external_body]
fn pattern_matches(p: &glob::Pattern, path: &String) -> (r: bool)
    ensures
        r == glob_match(pattern_source(*p), path@),
{
    p.matches(path.as_str())
}

/// Compiles every skip pattern; nothing as soon as one is malformed.
pub fn compile_patterns(patterns: &Vec<String>) -> (r: Option<Vec<glob::Pattern>>)
    ensures
        r matches Some(ps) ==> ps@.len() == patterns@.len() && (forall|i: int|
            0 <= i < ps@.len() ==> pattern_source(#[trigger] ps@[i]) == patterns@[i]@),
        r is Some <==> (forall|i: int|
            0 <= i < patterns@.len() ==> glob_pattern_ok((#[trigger] patterns@[i])@)),
{
    let mut ps: Vec<glob::Pattern> = Vec::new();
    let mut i: usize = 0;
    while i < patterns.len()
        invariant
            i <= patterns@.len(),
            ps@.len() == i,
            forall|k: int| 0 <= k < i ==> pattern_source(#[trigger] ps@[k]) == patterns@[k]@,
            forall|k: int| 0 <= k < i ==> glob_pattern_ok((#[trigger] patterns@[k])@),
        decreases patterns@.len() - i,
    {
        match compile_pattern(&patterns[i]) {
            Some(p) => {
                ps.push(p);
            },
            None => {
                return None;
            },
        }
        i = i + 1;
    }
    Some(ps)
}

/// Whether some skip pattern matches the path.
pub open spec fn spec_skipped(path: Seq<char>, sources: Seq<Seq<char>>) -> bool {
    exists|i: int| 0 <= i < sources.len() && glob_match(#[trigger] sources[i], path)
}

/// The pattern texts of a compiled pattern list.
pub open spec fn spec_sources(ps: Seq<glob::Pattern>) -> Seq<Seq<char>> {
    ps.map_values(|p: glob::Pattern| pattern_source(p))
}

/// Whether any of the skip patterns matches the path.
pub fn is_skipped(path: &String, patterns: &Vec<glob::Pattern>) -> (r: bool)
    ensures
        r == spec_skipped(path@, spec_sources(patterns@)),
{
    let ghost sources = spec_sources(patterns@);
    let mut i: usize = 0;
    while i < patterns.len()
        invariant
            i <= patterns@.len(),
            sources == spec_sources(patterns@),
            forall|k: int| 0 <= k < i ==> !glob_match(#[trigger] sources[k], path@),
        decreases patterns@.len() - i,
    {
        if pattern_matches(&patterns[i], path) {
            proof {
                assert(sources[i as int] == pattern_source(patterns@[i as int]));
                assert(glob_match(sources[i as int], path@));
            }
            return true;
        }
        i = i + 1;
    }
    false
}

/// The paths that no skip pattern matches, in their given order.
pub open spec fn spec_kept(paths: Seq<Seq<char>>, sources: Seq<Seq<char>>) -> Seq<Seq<char>>
    decreases paths.len(),
{
    if paths.len() == 0 {
        Seq::empty()
    } else {
        let rest = spec_kept(paths.drop_last(), sources);
        if spec_skipped(paths.last(), sources) {
            rest
        } else {
            rest.push(paths.last())
        }
    }
}

/// Drops every path that a skip pattern matches, keeping the rest in input
/// order.
pub fn filter_skipped(paths: Vec<String>, patterns: &Vec<glob::Pattern>) -> (r: Vec<String>)
    ensures
        r@.map_values(|s: String| s@) == spec_kept(
            paths@.map_values(|s: String| s@),
            spec_sources(patterns@),
        ),
{
    let ghost views = paths@.map_values(|s: String| s@);
    let ghost sources = spec_sources(patterns@);
    let mut r: Vec<String> = Vec::new();
    let mut i: usize = 0;
    proof {
        assert(views.take(0) =~= Seq::<Seq<char>>::empty());
        assert(r@.map_values(|s: String| s@) =~= spec_kept(views.take(0), sources));
    }
    let paths_len = paths.len();
    let mut rest = paths;
    // Walk from the front, taking ownership one path at a time.
    let mut taken: usize = 0;
    while taken < paths_len
        invariant
            taken <= paths_len == views.len(),
            sources == spec_sources(patterns@),
            rest@.len() == views.len() - taken,
            forall|k: int| 0 <= k < rest@.len() ==> (#[trigger] rest@[k])@ == views[taken + k],
            r@.map_values(|s: String| s@) == spec_kept(views.take(taken as int), sources),
        decreases paths_len - taken,
    {
        let p = rest.remove(0);
        proof {
            assert(views.take(taken + 1).drop_last() =~= views.take(taken as int));
            assert(views.take(taken + 1).last() == views[taken as int]);
        }
        let skip = is_skipped(&p, patterns);
        if !skip {
            r.push(p);
            proof {
                assert(r@.map_values(|s: String| s@) =~= spec_kept(
                    views.take(taken + 1),
                    sources,
                ));
            }
        }
        taken = taken + 1;
    }
    proof {
        assert(views.take(views.len() as int) =~= views);
    }
    r
}

} // verus!
