//! The greeting formatter: interpolates a caller-supplied name into a
//! fixed template. Total over all input strings, no side effects.

use vstd::prelude::*;
use vstd::string::StringExecFns;

verus! {

/// The text that precedes the interpolated name.
pub open spec fn greet_prefix() -> Seq<char> {
    "Hello, "@
}

/// The text that follows the interpolated name.
pub open spec fn greet_suffix() -> Seq<char> {
    "! You have been greeted by the backend!"@
}

/// The greeting produced for a given name: the name interpolated into
/// the fixed template.
pub open spec fn spec_greet(name: Seq<char>) -> Seq<char> {
    greet_prefix() + name + greet_suffix()
}

/// Formats the greeting for `name`. Accepts any string, including the
/// empty one, and echoes it unchanged between the template's two halves.
pub fn greet(name: &str) -> (r: String)
    ensures
        r@ == spec_greet(name@),
{
    let mut r = String::from_str("Hello, ");
    r.append(name);
    r.append("! You have been greeted by the backend!");
    proof {
        assert(r@ =~= spec_greet(name@));
    }
    r
}

/// The greeting always contains the name as an exact contiguous
/// substring, and is never empty.
pub proof fn lemma_greet_contains_name(name: Seq<char>)
    ensures
        spec_greet(name).len() > 0,
        spec_greet(name).subrange(
            greet_prefix().len() as int,
            greet_prefix().len() + name.len() as int,
        ) == name,
{
    reveal_strlit("Hello, ");
    reveal_strlit("! You have been greeted by the backend!");
    assert(spec_greet(name).subrange(
        greet_prefix().len() as int,
        greet_prefix().len() + name.len() as int,
    ) =~= name);
}

} // verus!
