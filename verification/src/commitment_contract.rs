//! Stable names and string-level helpers for the fixed-width committed-state
//! profile. These helpers are independent of the AST and IR so every
//! compiler layer recognizes exactly the same nominal wrappers.

use vstd::prelude::*;
use crate::assembler::syntax::{trim, trim_chars};
use crate::text::{chars_slice, str_chars, string_from_chars, string_push_str};

verus! {

pub const COMMITMENT_TYPE: &'static str = "Commitment";
pub const OPENING_TYPE: &'static str = "Opening";
pub const COMMIT_FUNCTION: &'static str = "commitment::commit";
pub const OPEN_FUNCTION: &'static str = "commitment::open";
pub const PACKED_HASH_SCRATCH_BYTES: usize = 512;

/// Bracket depths (angle, square, paren) after scanning `s[0..i]`, and
/// whether a comma at depth zero has been seen.
pub open spec fn comma_scan(s: Seq<char>, i: int) -> (int, int, int, bool)
    decreases i,
{
    if i <= 0 {
        (0, 0, 0, false)
    } else {
        let (a, q, p, found) = comma_scan(s, i - 1);
        let c = s[i - 1];
        if found {
            (a, q, p, true)
        } else if c == '<' {
            (a + 1, q, p, false)
        } else if c == '>' {
            (if a > 0 { a - 1 } else { 0 }, q, p, false)
        } else if c == '[' {
            (a, q + 1, p, false)
        } else if c == ']' {
            (a, if q > 0 { q - 1 } else { 0 }, p, false)
        } else if c == '(' {
            (a, q, p + 1, false)
        } else if c == ')' {
            (a, q, if p > 0 { p - 1 } else { 0 }, false)
        } else if c == ',' && a == 0 && q == 0 && p == 0 {
            (a, q, p, true)
        } else {
            (a, q, p, false)
        }
    }
}

/// Whether `s` holds a comma outside every `<>`, `[]` and `()` pair.
pub open spec fn spec_has_top_level_comma(s: Seq<char>) -> bool {
    comma_scan(s, s.len() as int).3
}

/// The argument of `wrapper<arg>`: `name` minus the wrapper, the angle
/// brackets and surrounding whitespace; `None` unless it is one non-empty
/// argument.
pub open spec fn spec_unary_type_argument(name: Seq<char>, wrapper: Seq<char>) -> Option<Seq<char>> {
    let w = wrapper.len() as int;
    if name.len() < w + 2 || name.subrange(0, w) != wrapper || name[w] != '<' || name[name.len() - 1] != '>' {
        None
    } else {
        let inner = trim(name.subrange(w + 1, name.len() - 1));
        if inner.len() == 0 || spec_has_top_level_comma(inner) {
            None
        } else {
            Some(inner)
        }
    }
}

/// Whether `value` holds a comma at bracket depth zero.
pub fn has_top_level_comma(value: &[char]) -> (r: bool)
    ensures
        r == spec_has_top_level_comma(value@),
{
    let mut angle: usize = 0;
    let mut square: usize = 0;
    let mut paren: usize = 0;
    let mut i: usize = 0;
    while i < value.len()
        invariant
            i <= value@.len(),
            angle <= i && square <= i && paren <= i,
            comma_scan(value@, i as int) == (angle as int, square as int, paren as int, false),
        decreases value@.len() - i,
    {
        let c = value[i];
        if c == '<' {
            angle = angle + 1;
        } else if c == '>' {
            angle = if angle > 0 { angle - 1 } else { 0 };
        } else if c == '[' {
            square = square + 1;
        } else if c == ']' {
            square = if square > 0 { square - 1 } else { 0 };
        } else if c == '(' {
            paren = paren + 1;
        } else if c == ')' {
            paren = if paren > 0 { paren - 1 } else { 0 };
        } else if c == ',' && angle == 0 && square == 0 && paren == 0 {
            assert(comma_scan(value@, i + 1).3);
            assert forall|j: int| i + 1 <= j <= value@.len() implies comma_scan(value@, j).3 by {
                lemma_found_persists(value@, i + 1, j);
            }
            return true;
        }
        i = i + 1;
    }
    false
}

/// Once a top-level comma is seen, later prefixes still report it.
pub proof fn lemma_found_persists(s: Seq<char>, i: int, j: int)
    requires
        0 <= i <= j,
        comma_scan(s, i).3,
    ensures
        comma_scan(s, j).3,
    decreases j - i,
{
    if i < j {
        lemma_found_persists(s, i, j - 1);
    }
}

fn unary_type_argument(name: &str, wrapper: &str) -> (r: Option<String>)
    ensures
        r matches Some(v) ==> spec_unary_type_argument(name@, wrapper@) == Some(v@),
        r is None ==> spec_unary_type_argument(name@, wrapper@) is None,
{
    let n = str_chars(name);
    let w = str_chars(wrapper);
    if n.len() < 2 || n.len() - 2 < w.len() {
        return None;
    }
    let head = chars_slice(n.as_slice(), 0, w.len());
    if !crate::text::chars_eq(head.as_slice(), w.as_slice()) || n[w.len()] != '<' || n[n.len() - 1] != '>' {
        return None;
    }
    let body = chars_slice(n.as_slice(), w.len() + 1, n.len() - 1);
    let inner = trim_chars(body.as_slice());
    if inner.len() == 0 || has_top_level_comma(inner.as_slice()) {
        return None;
    }
    Some(string_from_chars(inner.as_slice()))
}

/// The state type wrapped by `Commitment<...>`.
pub fn commitment_inner_type(name: &str) -> (r: Option<String>)
    ensures
        r matches Some(v) ==> spec_unary_type_argument(name@, "Commitment"@) == Some(v@),
        r is None ==> spec_unary_type_argument(name@, "Commitment"@) is None,
{
    unary_type_argument(name, COMMITMENT_TYPE)
}

/// The value type wrapped by `Opening<...>`.
pub fn opening_inner_type(name: &str) -> (r: Option<String>)
    ensures
        r matches Some(v) ==> spec_unary_type_argument(name@, "Opening"@) == Some(v@),
        r is None ==> spec_unary_type_argument(name@, "Opening"@) is None,
{
    unary_type_argument(name, OPENING_TYPE)
}

/// The type name `Commitment<inner>`.
pub fn commitment_type(inner: &str) -> (r: String)
    ensures
        r@ == "Commitment"@ + "<"@ + inner@ + ">"@,
{
    let mut s = String::new();
    string_push_str(&mut s, COMMITMENT_TYPE);
    string_push_str(&mut s, "<");
    string_push_str(&mut s, inner);
    string_push_str(&mut s, ">");
    assert(s@ =~= "Commitment"@ + "<"@ + inner@ + ">"@);
    s
}

} // verus!
