//! Which range texts can be handed to the range parser of `node_semver`.
//!
//! That parser reads a range as comparators separated by blanks, and
//! alternatives separated by `||`. It gives up with a panic, not an error,
//! on two forms of comparator: `=` before a version whose major part is a
//! wildcard, and `~` before a version whose major part is a wildcard or
//! whose minor part is a wildcard followed by a numeric patch part. A text
//! is safe when no place where a comparator can begin shows one of them.

use crate::text::is_digit;
use vstd::prelude::*;

verus! {

/// A space or a tab.
pub open spec fn is_blank(c: char) -> bool {
    c == ' ' || c == '\t'
}

/// A character that stands for "any number" in a version.
pub open spec fn is_wildcard(c: char) -> bool {
    c == 'x' || c == 'X' || c == '*'
}

/// The first place at or after `p` that holds no blank.
pub open spec fn after_blanks(s: Seq<char>, p: int) -> int
    decreases s.len() - p,
{
    if 0 <= p < s.len() && is_blank(s[p]) {
        after_blanks(s, p + 1)
    } else {
        p
    }
}

/// The first place at or after `p` that holds no digit.
pub open spec fn after_digits(s: Seq<char>, p: int) -> int
    decreases s.len() - p,
{
    if 0 <= p < s.len() && is_digit(s[p]) {
        after_digits(s, p + 1)
    } else {
        p
    }
}

/// The place after `c`, where `c` stands at `p`; else `p`.
pub open spec fn after_char(s: Seq<char>, p: int, c: char) -> int {
    if 0 <= p < s.len() && s[p] == c {
        p + 1
    } else {
        p
    }
}

/// Where the numbers of a version begin that is written from `p` on: after
/// blanks, an optional `v` and blanks again.
pub open spec fn version_start(s: Seq<char>, p: int) -> int {
    after_blanks(s, after_char(s, after_blanks(s, p), 'v'))
}

/// The version written from `q` on has a wildcard as its major part.
pub open spec fn has_wildcard_major(s: Seq<char>, q: int) -> bool {
    0 <= q < s.len() && is_wildcard(s[q])
}

/// The version written from `q` on has a numeric major part, a wildcard as
/// its minor part and a numeric patch part.
pub open spec fn has_gap(s: Seq<char>, q: int) -> bool {
    let r = after_digits(s, q);
    &&& 0 <= q < r
    &&& r + 3 < s.len()
    &&& s[r] == '.'
    &&& is_wildcard(s[r + 1])
    &&& s[r + 2] == '.'
    &&& is_digit(s[r + 3])
}

/// A comparator that begins at `p` is one of the two forms on which the
/// parser gives up.
pub open spec fn breaks_parser_at(s: Seq<char>, p: int) -> bool {
    &&& 0 <= p < s.len()
    &&& {
        ||| s[p] == '=' && has_wildcard_major(s, version_start(s, p + 1))
        ||| s[p] == '~' && {
            let q = version_start(s, after_char(s, after_blanks(s, p + 1), '>'));
            has_wildcard_major(s, q) || has_gap(s, q)
        }
    }
}

/// A comparator can begin at `p`: at the start of the text, after a blank or
/// after a `|`.
pub open spec fn can_begin_at(s: Seq<char>, p: int) -> bool {
    0 <= p < s.len() && (p == 0 || is_blank(s[p - 1]) || s[p - 1] == '|')
}

/// A range text that the parser reads without giving up.
pub open spec fn is_safe_range(s: Seq<char>) -> bool {
    forall|p: int| #[trigger] can_begin_at(s, p) ==> !breaks_parser_at(s, p)
}

/// Whether `c` is a blank.
fn char_is_blank(c: char) -> (r: bool)
    ensures
        r == is_blank(c),
{
    c == ' ' || c == '\t'
}

/// Whether `c` is a wildcard.
fn char_is_wildcard(c: char) -> (r: bool)
    ensures
        r == is_wildcard(c),
{
    c == 'x' || c == 'X' || c == '*'
}

/// The first place at or after `p` that holds no blank.
fn skip_blanks(text: &Vec<char>, p: usize) -> (q: usize)
    requires
        p <= text.len(),
    ensures
        p <= q <= text.len(),
        q == after_blanks(text@, p as int),
{
    let mut q: usize = p;
    while q < text.len() && char_is_blank(text[q])
        invariant
            p <= q <= text.len(),
            after_blanks(text@, p as int) == after_blanks(text@, q as int),
        decreases text.len() - q,
    {
        q += 1;
    }
    q
}

/// The first place at or after `p` that holds no digit.
fn skip_digits(text: &Vec<char>, p: usize) -> (q: usize)
    requires
        p <= text.len(),
    ensures
        p <= q <= text.len(),
        q == after_digits(text@, p as int),
{
    let mut q: usize = p;
    while q < text.len() && crate::text::char_is_digit(text[q])
        invariant
            p <= q <= text.len(),
            after_digits(text@, p as int) == after_digits(text@, q as int),
        decreases text.len() - q,
    {
        q += 1;
    }
    q
}

/// The place after `c`, where `c` stands at `p`; else `p`.
fn skip_char(text: &Vec<char>, p: usize, c: char) -> (q: usize)
    requires
        p <= text.len(),
    ensures
        p <= q <= text.len(),
        q == after_char(text@, p as int, c),
{
    if p < text.len() && text[p] == c {
        p + 1
    } else {
        p
    }
}

/// Where the numbers of a version begin that is written from `p` on.
fn find_version_start(text: &Vec<char>, p: usize) -> (q: usize)
    requires
        p <= text.len(),
    ensures
        p <= q <= text.len(),
        q == version_start(text@, p as int),
{
    let a = skip_blanks(text, p);
    let b = skip_char(text, a, 'v');
    skip_blanks(text, b)
}

/// Whether the version written from `q` on breaks a `~` comparator.
fn breaks_tilde(text: &Vec<char>, q: usize) -> (r: bool)
    requires
        q <= text.len(),
    ensures
        r == (has_wildcard_major(text@, q as int) || has_gap(text@, q as int)),
{
    if q < text.len() && char_is_wildcard(text[q]) {
        return true;
    }
    let r = skip_digits(text, q);
    r > q && text.len() - r > 3 && text[r] == '.' && char_is_wildcard(text[r + 1]) && text[r + 2]
        == '.' && crate::text::char_is_digit(text[r + 3])
}

/// Whether a comparator that begins at `p` breaks the parser.
fn breaks_at(text: &Vec<char>, p: usize) -> (r: bool)
    requires
        p < text.len(),
    ensures
        r == breaks_parser_at(text@, p as int),
{
    if text[p] == '=' {
        let q = find_version_start(text, p + 1);
        q < text.len() && char_is_wildcard(text[q])
    } else if text[p] == '~' {
        let a = skip_blanks(text, p + 1);
        let b = skip_char(text, a, '>');
        let q = find_version_start(text, b);
        breaks_tilde(text, q)
    } else {
        false
    }
}

/// Whether the parser reads `text` without giving up.
pub fn range_is_safe(text: &Vec<char>) -> (r: bool)
    ensures
        r == is_safe_range(text@),
{
    let mut p: usize = 0;
    while p < text.len()
        invariant
            p <= text.len(),
            forall|k: int| 0 <= k < p && #[trigger] can_begin_at(text@, k) ==> !breaks_parser_at(
                text@,
                k,
            ),
        decreases text.len() - p,
    {
        let begins = p == 0 || char_is_blank(text[p - 1]) || text[p - 1] == '|';
        if begins && breaks_at(text, p) {
            assert(can_begin_at(text@, p as int));
            return false;
        }
        p += 1;
    }
    true
}

/// A text of version characters behind `>=` is safe: a comparator can begin
/// at its start only, and there it begins with `>`.
pub proof fn lemma_floor_range_is_safe(floor: Seq<char>)
    requires
        crate::text::is_version_text(floor),
    ensures
        is_safe_range(seq!['>', '='] + floor),
{
    let s = seq!['>', '='] + floor;
    assert forall|p: int| #[trigger] can_begin_at(s, p) implies !breaks_parser_at(s, p) by {
        if p >= 3 {
            assert(s[p - 1] == floor[p - 3]);
            assert(crate::text::is_version_char(floor[p - 3]));
        }
    }
}

} // verus!
