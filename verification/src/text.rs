//! Character-level helpers on strings.

use vstd::prelude::*;

verus! {

/// An ASCII decimal digit.
pub open spec fn is_digit(c: char) -> bool {
    '0' <= c && c <= '9'
}

/// A character that may stand in a version text: an ASCII letter or digit,
/// `.`, `-` or `+`.
pub open spec fn is_version_char(c: char) -> bool {
    is_digit(c) || ('a' <= c && c <= 'z') || ('A' <= c && c <= 'Z') || c == '.' || c == '-'
        || c == '+'
}

/// The characters of `s`, in order.
pub fn chars_of(s: &str) -> (out: Vec<char>)
    ensures
        out@ == s@,
{
    let mut out: Vec<char> = Vec::new();
    for c in it: s.chars()
        invariant
            it.seq() == s@,
            out@ == it.seq().take(it.index() as int),
    {
        out.push(c);
    }
    out
}

/// Whether `c` is an ASCII decimal digit.
pub fn char_is_digit(c: char) -> (r: bool)
    ensures
        r == is_digit(c),
{
    '0' <= c && c <= '9'
}

/// Whether `c` may stand in a version text.
pub fn char_is_version_char(c: char) -> (r: bool)
    ensures
        r == is_version_char(c),
{
    char_is_digit(c) || ('a' <= c && c <= 'z') || ('A' <= c && c <= 'Z') || c == '.' || c == '-'
        || c == '+'
}

/// Whether `prefix` stands at the start of `text`.
pub fn starts_with(text: &Vec<char>, prefix: &Vec<char>) -> (r: bool)
    ensures
        r == prefix@.is_prefix_of(text@),
{
    if prefix.len() > text.len() {
        return false;
    }
    let mut i: usize = 0;
    while i < prefix.len()
        invariant
            i <= prefix.len() <= text.len(),
            forall|j: int| 0 <= j < i ==> prefix@[j] == text@[j],
        decreases prefix.len() - i,
    {
        if prefix[i] != text[i] {
            assert(prefix@[i as int] != text@.subrange(0, prefix@.len() as int)[i as int]);
            return false;
        }
        i += 1;
    }
    assert(prefix@ =~= text@.subrange(0, prefix@.len() as int));
    true
}

/// Whether two stretches of `text` hold the same characters.
pub fn same_stretch(text: &Vec<char>, from: usize, to: usize, other_from: usize, other_to: usize) -> (r:
    bool)
    requires
        from <= to <= text.len(),
        other_from <= other_to <= text.len(),
    ensures
        r == (text@.subrange(from as int, to as int) == text@.subrange(
            other_from as int,
            other_to as int,
        )),
{
    let ghost left = text@.subrange(from as int, to as int);
    let ghost right = text@.subrange(other_from as int, other_to as int);
    if to - from != other_to - other_from {
        assert(left.len() != right.len());
        return false;
    }
    let mut i: usize = 0;
    while i < to - from
        invariant
            from <= to <= text.len(),
            other_from <= other_to <= text.len(),
            to - from == other_to - other_from,
            i <= to - from,
            left == text@.subrange(from as int, to as int),
            right == text@.subrange(other_from as int, other_to as int),
            forall|j: int| 0 <= j < i ==> left[j] == right[j],
        decreases to - from - i,
    {
        if text[from + i] != text[other_from + i] {
            assert(left[i as int] != right[i as int]);
            return false;
        }
        i += 1;
    }
    assert(left =~= right);
    true
}

/// Index of the last `c` in `text`, if there is one.
pub fn last_index_of(text: &Vec<char>, c: char) -> (r: Option<usize>)
    ensures
        match r {
            Some(i) => i < text.len() && text@[i as int] == c && forall|j: int|
                i < j < text.len() ==> text@[j] != c,
            None => !text@.contains(c),
        },
{
    let mut i: usize = text.len();
    while i > 0
        invariant
            i <= text.len(),
            forall|j: int| i <= j < text.len() ==> text@[j] != c,
        decreases i,
    {
        i -= 1;
        if text[i] == c {
            return Some(i);
        }
    }
    None
}

/// Index of the last `c` in `s`, or -1 where `s` holds none.
pub open spec fn last_index(s: Seq<char>, c: char) -> int
    decreases s.len(),
{
    if s.len() == 0 {
        -1
    } else if s.last() == c {
        s.len() - 1
    } else {
        last_index(s.drop_last(), c)
    }
}

/// Index at which the last pair `c c` begins in `s`, or -1 where `s` holds
/// none.
pub open spec fn last_pair_index(s: Seq<char>, c: char) -> int
    decreases s.len(),
{
    if s.len() < 2 {
        -1
    } else if s[s.len() - 2] == c && s[s.len() - 1] == c {
        s.len() - 2
    } else {
        last_pair_index(s.drop_last(), c)
    }
}

/// `s` without its leading spaces.
pub open spec fn trim_start(s: Seq<char>) -> Seq<char>
    decreases s.len(),
{
    if s.len() > 0 && s[0] == ' ' {
        trim_start(s.skip(1))
    } else {
        s
    }
}

/// `s` without its trailing spaces.
pub open spec fn trim_end(s: Seq<char>) -> Seq<char>
    decreases s.len(),
{
    if s.len() > 0 && s.last() == ' ' {
        trim_end(s.drop_last())
    } else {
        s
    }
}

/// `s` without the spaces at either end.
pub open spec fn trimmed(s: Seq<char>) -> Seq<char> {
    trim_end(trim_start(s))
}

/// `s` is made of ASCII decimal digits, at least one.
pub open spec fn is_numeral(s: Seq<char>) -> bool {
    s.len() > 0 && forall|i: int| 0 <= i < s.len() ==> is_digit(#[trigger] s[i])
}

/// `s` is made of version characters only.
pub open spec fn is_version_text(s: Seq<char>) -> bool {
    forall|i: int| 0 <= i < s.len() ==> is_version_char(#[trigger] s[i])
}

/// Index, within the stretch `text[from..to]`, of its last `c`.
pub fn last_index_in(text: &Vec<char>, c: char, from: usize, to: usize) -> (r: Option<usize>)
    requires
        from <= to <= text.len(),
    ensures
        match r {
            Some(i) => i < to - from && last_index(text@.subrange(from as int, to as int), c) == i,
            None => last_index(text@.subrange(from as int, to as int), c) == -1,
        },
{
    let ghost stretch = text@.subrange(from as int, to as int);
    let mut end: usize = to;
    while end > from
        invariant
            from <= end <= to <= text.len(),
            stretch == text@.subrange(from as int, to as int),
            last_index(stretch, c) == last_index(text@.subrange(from as int, end as int), c),
        decreases end,
    {
        let ghost current = text@.subrange(from as int, end as int);
        assert(current.last() == text@[end - 1]);
        if text[end - 1] == c {
            return Some(end - 1 - from);
        }
        assert(current.drop_last() =~= text@.subrange(from as int, end - 1));
        end -= 1;
    }
    None
}

/// Index, within the stretch `text[from..to]`, at which its last pair `c c`
/// begins.
pub fn last_pair_index_in(text: &Vec<char>, c: char, from: usize, to: usize) -> (r: Option<usize>)
    requires
        from <= to <= text.len(),
    ensures
        match r {
            Some(i) => i + 1 < to - from && last_pair_index(
                text@.subrange(from as int, to as int),
                c,
            ) == i,
            None => last_pair_index(text@.subrange(from as int, to as int), c) == -1,
        },
{
    let ghost stretch = text@.subrange(from as int, to as int);
    let mut end: usize = to;
    while end - from >= 2
        invariant
            from <= end <= to <= text.len(),
            stretch == text@.subrange(from as int, to as int),
            last_pair_index(stretch, c) == last_pair_index(
                text@.subrange(from as int, end as int),
                c,
            ),
        decreases end,
    {
        let ghost current = text@.subrange(from as int, end as int);
        assert(current[current.len() - 1] == text@[end - 1]);
        assert(current[current.len() - 2] == text@[end - 2]);
        if text[end - 2] == c && text[end - 1] == c {
            return Some(end - 2 - from);
        }
        assert(current.drop_last() =~= text@.subrange(from as int, end - 1));
        end -= 1;
    }
    None
}

/// Start of the stretch `text[from..to]` once its leading spaces are gone.
pub fn skip_spaces(text: &Vec<char>, from: usize, to: usize) -> (start: usize)
    requires
        from <= to <= text.len(),
    ensures
        from <= start <= to,
        text@.subrange(start as int, to as int) == trim_start(
            text@.subrange(from as int, to as int),
        ),
{
    let mut start: usize = from;
    while start < to && text[start] == ' '
        invariant
            from <= start <= to <= text.len(),
            trim_start(text@.subrange(from as int, to as int)) == trim_start(
                text@.subrange(start as int, to as int),
            ),
        decreases to - start,
    {
        assert(text@.subrange(start as int, to as int).skip(1) =~= text@.subrange(
            start + 1,
            to as int,
        ));
        start += 1;
    }
    start
}

/// End of the stretch `text[from..to]` once its trailing spaces are gone.
pub fn drop_spaces(text: &Vec<char>, from: usize, to: usize) -> (end: usize)
    requires
        from <= to <= text.len(),
    ensures
        from <= end <= to,
        text@.subrange(from as int, end as int) == trim_end(text@.subrange(from as int, to as int)),
{
    let mut end: usize = to;
    while end > from && text[end - 1] == ' '
        invariant
            from <= end <= to <= text.len(),
            trim_end(text@.subrange(from as int, to as int)) == trim_end(
                text@.subrange(from as int, end as int),
            ),
        decreases end,
    {
        assert(text@.subrange(from as int, end as int).drop_last() =~= text@.subrange(
            from as int,
            end - 1,
        ));
        end -= 1;
    }
    end
}

/// Whether the stretch `text[from..to]` is a numeral.
pub fn stretch_is_numeral(text: &Vec<char>, from: usize, to: usize) -> (r: bool)
    requires
        from <= to <= text.len(),
    ensures
        r == is_numeral(text@.subrange(from as int, to as int)),
{
    let ghost stretch = text@.subrange(from as int, to as int);
    if from == to {
        return false;
    }
    let mut i: usize = from;
    while i < to
        invariant
            from <= i <= to <= text.len(),
            stretch == text@.subrange(from as int, to as int),
            forall|j: int| 0 <= j < i - from ==> is_digit(#[trigger] stretch[j]),
        decreases to - i,
    {
        if !char_is_digit(text[i]) {
            assert(!is_digit(stretch[i - from]));
            return false;
        }
        i += 1;
    }
    true
}

/// Whether the stretch `text[from..to]` is made of version characters only.
pub fn stretch_is_version_text(text: &Vec<char>, from: usize, to: usize) -> (r: bool)
    requires
        from <= to <= text.len(),
    ensures
        r == is_version_text(text@.subrange(from as int, to as int)),
{
    let ghost stretch = text@.subrange(from as int, to as int);
    let mut i: usize = from;
    while i < to
        invariant
            from <= i <= to <= text.len(),
            stretch == text@.subrange(from as int, to as int),
            forall|j: int| 0 <= j < i - from ==> is_version_char(#[trigger] stretch[j]),
        decreases to - i,
    {
        if !char_is_version_char(text[i]) {
            assert(!is_version_char(stretch[i - from]));
            return false;
        }
        i += 1;
    }
    true
}

/// Whether `text` is made of version characters only.
pub fn has_version_text(text: &Vec<char>) -> (r: bool)
    ensures
        r == is_version_text(text@),
{
    let mut i: usize = 0;
    while i < text.len()
        invariant
            i <= text.len(),
            forall|j: int| 0 <= j < i ==> is_version_char(#[trigger] text@[j]),
        decreases text.len() - i,
    {
        if !char_is_version_char(text[i]) {
            return false;
        }
        i += 1;
    }
    true
}

/// Whether `text` holds `c`.
pub fn holds_char(text: &Vec<char>, c: char) -> (r: bool)
    ensures
        r == text@.contains(c),
{
    last_index_of(text, c).is_some()
}

/// Whether two texts are the same.
pub fn same_text(a: &str, b: &str) -> (r: bool)
    ensures
        r == (a@ == b@),
{
    let left = a.to_owned();
    let right = b.to_owned();
    left == right
}

} // verus!
