//! The exclusion matcher: a path is skipped when one of its components is
//! exactly an exclusion pattern, or is not valid text.

use vstd::prelude::*;
use crate::text::text_eq;

verus! {

/// The text of a path's components; `None` marks one that is not valid text.
pub open spec fn parts_view(parts: Seq<Option<String>>) -> Seq<Option<Seq<char>>> {
    parts.map_values(
        |o: Option<String>|
            match o {
                Some(s) => Some(s@),
                None => None,
            },
    )
}

/// Whether a single component rules its path out.
pub open spec fn component_excluded(c: Option<Seq<char>>, patterns: Seq<Seq<char>>) -> bool {
    match c {
        Some(t) => patterns.contains(t),
        None => true,
    }
}

/// Whether any component of the path rules it out.
pub open spec fn path_excluded(parts: Seq<Option<Seq<char>>>, patterns: Seq<Seq<char>>) -> bool {
    exists|i: int| 0 <= i < parts.len() && #[trigger] component_excluded(parts[i], patterns)
}

/// Whether `t` equals one of `patterns`.
pub fn matches_any(t: &str, patterns: &Vec<String>) -> (r: bool)
    ensures
        r == patterns@.map_values(|s: String| s@).contains(t@),
{
    let ghost pv = patterns@.map_values(|s: String| s@);
    let mut k: usize = 0;
    while k < patterns.len()
        invariant
            k <= patterns.len(),
            pv == patterns@.map_values(|s: String| s@),
            forall|q: int| 0 <= q < k ==> pv[q] != t@,
        decreases patterns.len() - k,
    {
        if text_eq(t, patterns[k].as_str()) {
            assert(pv[k as int] == t@);
            return true;
        }
        k = k + 1;
    }
    false
}

/// Whether the path with components `parts` is excluded by `patterns`.
pub fn is_excluded(parts: &Vec<Option<String>>, patterns: &Vec<String>) -> (r: bool)
    ensures
        r == path_excluded(parts_view(parts@), patterns@.map_values(|s: String| s@)),
{
    let ghost pv = parts_view(parts@);
    let ghost pats = patterns@.map_values(|s: String| s@);
    let mut i: usize = 0;
    while i < parts.len()
        invariant
            i <= parts.len(),
            pv == parts_view(parts@),
            pats == patterns@.map_values(|s: String| s@),
            forall|q: int| 0 <= q < i ==> !component_excluded(pv[q], pats),
        decreases parts.len() - i,
    {
        let hit = match &parts[i] {
            Some(t) => matches_any(t.as_str(), patterns),
            None => true,
        };
        if hit {
            assert(component_excluded(pv[i as int], pats));
            return true;
        }
        i = i + 1;
    }
    false
}

/// Exclusion is inherited: once a directory's name is an exclusion pattern,
/// every path beneath it, at any depth, is excluded too.
pub proof fn lemma_exclusion_inherited(
    dir: Seq<Option<Seq<char>>>,
    below: Seq<Option<Seq<char>>>,
    patterns: Seq<Seq<char>>,
)
    requires
        dir.len() > 0,
        component_excluded(dir.last(), patterns),
    ensures
        path_excluded(dir + below, patterns),
{
    let i = dir.len() - 1;
    assert((dir + below)[i] == dir.last());
}

} // verus!
