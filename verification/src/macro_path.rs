use vstd::prelude::*;

use crate::markup::str_eq;

verus! {

/// The path of a macro invocation: whether it starts with `::`, and its
/// segment names.
pub struct MacroPath {
    pub leading_colon: bool,
    pub segments: Vec<String>,
}

/// Whether a macro path names the macro `name` of this crate: it is the
/// bare identifier `name`, or it ends in `collage::name`.
pub open spec fn names_macro(path: MacroPath, name: Seq<char>) -> bool {
    let segs = path.segments@;
    ||| !path.leading_colon && segs.len() == 1 && segs[0]@ == name
    ||| segs.len() >= 2 && segs[segs.len() - 1]@ == name && segs[segs.len() - 2]@ == "collage"@
}

fn path_names_macro(path: &MacroPath, name: &str) -> (r: bool)
    ensures
        r == names_macro(*path, name@),
{
    let n = path.segments.len();
    if !path.leading_colon && n == 1 && str_eq(path.segments[0].as_str(), name) {
        return true;
    }
    n >= 2 && str_eq(path.segments[n - 1].as_str(), name) && str_eq(
        path.segments[n - 2].as_str(),
        "collage",
    )
}

/// Whether a macro invocation is a nested `markup!`.
pub fn is_markup(path: &MacroPath) -> (r: bool)
    ensures
        r == names_macro(*path, "markup"@),
{
    path_names_macro(path, "markup")
}

/// Whether a macro invocation is a nested `markup_part!`.
pub fn is_markup_part(path: &MacroPath) -> (r: bool)
    ensures
        r == names_macro(*path, "markup_part"@),
{
    path_names_macro(path, "markup_part")
}

/// Whether an interpolated `match` needs a final `_ => {}` arm, so that a
/// value no arm matches renders nothing: when none of its arms is a
/// wildcard (`wild_arms[i]` tells whether arm `i` is `_`).
pub fn needs_fallback_arm(wild_arms: &Vec<bool>) -> (r: bool)
    ensures
        r == !wild_arms@.contains(true),
{
    let mut i: usize = 0;
    while i < wild_arms.len()
        invariant
            0 <= i <= wild_arms.len(),
            forall|j: int| 0 <= j < i ==> !wild_arms@[j],
        decreases wild_arms.len() - i,
    {
        if wild_arms[i] {
            assert(wild_arms@[i as int] == true);
            return false;
        }
        i = i + 1;
    }
    true
}

} // verus!
