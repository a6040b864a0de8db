//! Exclude patterns: shell-style globs that name what is left out of the
//! index.
use vstd::prelude::*;
use crate::paths::views;
use crate::text::chars_of;

verus! {

/// Whether `glob::Pattern::new` accepts the text as a pattern.
pub uninterp spec fn glob_compiles(pattern: Seq<char>) -> bool;

/// Whether the pattern compiled from `pattern` matches `text`, as
/// `glob::Pattern::matches` decides it with its default options.
pub uninterp spec fn glob_accepts(pattern: Seq<char>, text: Seq<char>) -> bool;

/// Compiles `pattern` with `glob::Pattern::new` and matches it against
/// `text` with `Pattern::matches`. `None` stands for a pattern that does
/// not compile. Both outcomes depend on the two strings alone; the contract
/// names them and claims nothing else about them.
#[verifier::external_body]
fn glob_match(pattern: &str, text: &str) -> (r: Option<bool>)
    ensures
        r is Some <==> glob_compiles(pattern@),
        r matches Some(m) ==> m == glob_accepts(pattern@, text@),
{
    match glob::Pattern::new(pattern) {
        Ok(compiled) => Some(compiled.matches(text)),
        Err(_) => None,
    }
}

/// The pattern is a valid glob and matches the name.
pub open spec fn pattern_matches(pattern: Seq<char>, name: Seq<char>) -> bool {
    glob_compiles(pattern) && glob_accepts(pattern, name)
}

/// Some pattern of the list matches the name. Patterns that are no valid
/// globs match nothing.
pub open spec fn matches_any(patterns: Seq<Seq<char>>, name: Seq<char>) -> bool {
    exists|i: int| 0 <= i < patterns.len() && pattern_matches(#[trigger] patterns[i], name)
}

/// The pattern asks for hidden names and the name is hidden: the pattern
/// begins with `.*` and the name with a dot.
pub open spec fn hides(pattern: Seq<char>, name: Seq<char>) -> bool {
    &&& pattern.len() >= 2
    &&& pattern[0] == '.'
    &&& pattern[1] == '*'
    &&& name.len() >= 1
    &&& name[0] == '.'
}

/// What a glob match says of a name: it is excluded where the pattern
/// compiled and matched.
pub fn match_excludes(matched: Option<bool>) -> (r: bool)
    ensures
        r == (matched == Some(true)),
{
    match matched {
        Some(m) => m,
        None => false,
    }
}

/// Whether a path component is excluded by a pattern, given what the glob
/// match of the two said: where it matched, or where the pattern asks for
/// hidden names and the component is hidden.
pub fn component_excluded(matched: Option<bool>, pattern: &str, component: &str) -> (r: bool)
    ensures
        r == (matched == Some(true) || hides(pattern@, component@)),
{
    if match_excludes(matched) {
        return true;
    }
    let p = chars_of(pattern);
    let c = chars_of(component);
    p.len() >= 2 && p[0] == '.' && p[1] == '*' && c.len() >= 1 && c[0] == '.'
}

/// Whether some exclude pattern matches the name.
pub fn name_excluded(name: &str, patterns: &Vec<String>) -> (r: bool)
    ensures
        r == matches_any(views(patterns@), name@),
{
    let mut i: usize = 0;
    while i < patterns.len()
        invariant
            i <= patterns.len(),
            forall|k: int| 0 <= k < i ==> !pattern_matches(#[trigger] views(patterns@)[k], name@),
        decreases patterns.len() - i,
    {
        assert(views(patterns@)[i as int] == patterns@[i as int]@);
        if match_excludes(glob_match(patterns[i].as_str(), name)) {
            return true;
        }
        i += 1;
    }
    false
}

/// Some component of the list is excluded by some pattern: the pattern
/// matches it, or asks for hidden names while the component is hidden.
pub open spec fn excludes_some(patterns: Seq<Seq<char>>, parts: Seq<Seq<char>>) -> bool {
    exists|i: int, j: int|
        0 <= i < patterns.len() && 0 <= j < parts.len() && (pattern_matches(
            #[trigger] patterns[i],
            #[trigger] parts[j],
        ) || hides(patterns[i], parts[j]))
}

/// Whether some of the components is excluded by some of the patterns.
pub fn components_excluded(parts: &Vec<String>, patterns: &Vec<String>) -> (r: bool)
    ensures
        r == excludes_some(views(patterns@), views(parts@)),
{
    let ghost ps = views(patterns@);
    let ghost cs = views(parts@);
    let mut i: usize = 0;
    while i < patterns.len()
        invariant
            i <= patterns.len(),
            ps == views(patterns@),
            cs == views(parts@),
            forall|a: int, b: int|
                0 <= a < i && 0 <= b < cs.len() ==> !(pattern_matches(
                    #[trigger] ps[a],
                    #[trigger] cs[b],
                ) || hides(ps[a], cs[b])),
        decreases patterns.len() - i,
    {
        let mut j: usize = 0;
        while j < parts.len()
            invariant
                i < patterns.len(),
                j <= parts.len(),
                ps == views(patterns@),
                cs == views(parts@),
                forall|b: int|
                    0 <= b < j ==> !(pattern_matches(ps[i as int], #[trigger] cs[b]) || hides(
                        ps[i as int],
                        cs[b],
                    )),
            decreases parts.len() - j,
        {
            assert(ps[i as int] == patterns@[i as int]@);
            assert(cs[j as int] == parts@[j as int]@);
            let matched = glob_match(patterns[i].as_str(), parts[j].as_str());
            if component_excluded(matched, patterns[i].as_str(), parts[j].as_str()) {
                return true;
            }
            j += 1;
        }
        i += 1;
    }
    false
}

} // verus!
