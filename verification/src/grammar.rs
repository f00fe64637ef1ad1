//! Spec-level description of the language: which characters are symbols,
//! bracket depth, and what it means for source text to be well formed.

use vstd::prelude::*;

verus! {

/// Whether `c` is one of the six single-symbol leaf instructions.
pub open spec fn is_leaf_symbol(c: char) -> bool {
    c == '>' || c == '<' || c == '+' || c == '-' || c == '.' || c == ','
}

/// Whether `c` is one of the eight recognized symbols of the language.
pub open spec fn is_symbol(c: char) -> bool {
    is_leaf_symbol(c) || c == '[' || c == ']'
}

/// Bracket depth after the first `i` characters of `s`: the number of `[`
/// minus the number of `]` among them.
pub open spec fn depth_at(s: Seq<char>, i: int) -> int
    decreases i,
{
    if i <= 0 {
        0
    } else if s[i - 1] == '[' {
        depth_at(s, i - 1) + 1
    } else if s[i - 1] == ']' {
        depth_at(s, i - 1) - 1
    } else {
        depth_at(s, i - 1)
    }
}

/// The characters of `s` at positions `a..b` form an unbroken run of
/// instructions as seen from position `a`: every character is a symbol, and
/// every `]` closes a `[` opened at or after `a` (the depth right before it
/// exceeds the depth at `a`).
pub open spec fn run_clean(s: Seq<char>, a: int, b: int) -> bool {
    forall|j: int|
        a <= j < b ==> is_symbol(s[j]) && (s[j] == ']' ==> depth_at(s, j) > depth_at(s, a))
}

/// Well-formed source text: every character is a symbol, brackets are
/// properly nested, and every `[` is matched.
pub open spec fn balanced(s: Seq<char>) -> bool {
    run_clean(s, 0, s.len() as int) && depth_at(s, s.len() as int) == 0
}

/// Law: source text holding any character outside the eight recognized
/// symbols is not balanced, so a parse of it fails.
pub proof fn lemma_foreign_char_not_balanced(s: Seq<char>, i: int)
    requires
        0 <= i < s.len(),
        !is_symbol(s[i]),
    ensures
        !balanced(s),
{
    if balanced(s) {
        assert(is_symbol(s[i]));
    }
}

} // verus!
