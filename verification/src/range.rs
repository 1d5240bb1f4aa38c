//! Range specifiers and what they are reduced to before a version is
//! resolved: an optional aliased package and either "any version", a floor
//! or a text of comparators.

use crate::text::{
    chars_of, drop_spaces, is_numeral, is_version_char, is_version_text, last_index,
    last_index_in, last_pair_index, last_pair_index_in, skip_spaces, starts_with,
    stretch_is_numeral, stretch_is_version_text, trim_end, trim_start, trimmed,
};
use vstd::prelude::*;
use vstd::string::*;

verus! {

/// What a range specifier asks for, once normalized.
#[derive(Clone, Debug)]
pub enum VersionRange {
    /// Any version; the latest one is preferred.
    Any,
    /// The versions that are no lower than the one written in this text.
    Floor(String),
    /// The versions that satisfy the comparators written in this text, such
    /// as `<2.0.0` or `>=1.2.0 <2.0.0`.
    Comparators(String),
}

/// Mathematical model of a [`VersionRange`].
pub enum RangeView {
    Any,
    Floor(Seq<char>),
    Comparators(Seq<char>),
}

impl View for VersionRange {
    type V = RangeView;

    open spec fn view(&self) -> RangeView {
        match self {
            VersionRange::Any => RangeView::Any,
            VersionRange::Floor(text) => RangeView::Floor(text@),
            VersionRange::Comparators(text) => RangeView::Comparators(text@),
        }
    }
}

/// A normalized range specifier.
#[derive(Clone, Debug)]
pub struct Normalized {
    /// The package that a registry alias points to, where the specifier is
    /// one and names a package.
    pub package: Option<String>,
    /// The range of versions asked for.
    pub range: VersionRange,
}

/// Mathematical model of a [`Normalized`].
pub struct NormalizedView {
    pub package: Option<Seq<char>>,
    pub range: RangeView,
}

impl View for Normalized {
    type V = NormalizedView;

    open spec fn view(&self) -> NormalizedView {
        NormalizedView {
            package: match self.package {
                Some(name) => Some(name@),
                None => None,
            },
            range: self.range@,
        }
    }
}

/// The text that opens a registry alias.
pub open spec fn alias_marker() -> Seq<char> {
    seq!['n', 'p', 'm', ':']
}

/// The specifier is a registry alias: `npm:<name>@<range>`.
pub open spec fn is_alias(spec: Seq<char>) -> bool {
    alias_marker().is_prefix_of(spec)
}

/// The package that an alias points to: what stands between the marker and
/// the last `@`, where that is not empty.
pub open spec fn aliased_package(spec: Seq<char>) -> Option<Seq<char>> {
    let body = spec.skip(4);
    if is_alias(spec) && last_index(body, '@') > 0 {
        Some(body.take(last_index(body, '@')))
    } else {
        None
    }
}

/// The part of a specifier that holds the range: for an alias what follows
/// its last `@` (all that follows the marker where it has none), else the
/// whole specifier.
pub open spec fn range_portion(spec: Seq<char>) -> Seq<char> {
    if is_alias(spec) {
        let body = spec.skip(4);
        body.skip(last_index(body, '@') + 1)
    } else {
        spec
    }
}

/// The last of the alternatives that `||` separates.
pub open spec fn last_alternative(range: Seq<char>) -> Seq<char> {
    if last_pair_index(range, '|') >= 0 {
        range.skip(last_pair_index(range, '|') + 2)
    } else {
        range
    }
}

/// `s` without a leading caret or tilde.
pub open spec fn without_marker(s: Seq<char>) -> Seq<char> {
    if s.len() > 0 && (s[0] == '^' || s[0] == '~') {
        s.skip(1)
    } else {
        s
    }
}

/// The alternative of a range text that counts: the last one, without the
/// spaces around it.
pub open spec fn chosen_alternative(range: Seq<char>) -> Seq<char> {
    trimmed(last_alternative(range))
}

/// What is left of a range text for the floor: the chosen alternative
/// without a leading caret or tilde.
pub open spec fn floor_text(range: Seq<char>) -> Seq<char> {
    without_marker(chosen_alternative(range))
}

/// The range that a range text stands for. `*` is any version. A bare
/// numeral `n`, with or without a leading caret or tilde, is the floor
/// `n.0.0`, and any other text of version characters behind such a marker
/// or none is the floor that it writes. Every other text, one that holds an
/// operator or more than one comparator, stands for its comparators as they
/// are written.
pub open spec fn range_of(range: Seq<char>) -> RangeView {
    let body = floor_text(range);
    if body == seq!['*'] {
        RangeView::Any
    } else if is_numeral(body) {
        RangeView::Floor(body + seq!['.', '0', '.', '0'])
    } else if is_version_text(body) {
        RangeView::Floor(body)
    } else {
        RangeView::Comparators(chosen_alternative(range))
    }
}

/// A range specifier, normalized.
pub open spec fn normalized(spec: Seq<char>) -> NormalizedView {
    NormalizedView { package: aliased_package(spec), range: range_of(range_portion(spec)) }
}

/// Normalizes a range specifier: takes the range out of a registry alias,
/// keeps the last alternative, drops a leading caret or tilde before a
/// version, reads `*` as any version, completes a bare numeral, and leaves
/// a text of comparators as it is written.
pub fn normalize(spec: &str) -> (r: Normalized)
    ensures
        r@ == normalized(spec@),
{
    let chars = chars_of(spec);
    let n = chars.len();
    let marker = chars_of("npm:");
    proof {
        reveal_strlit("npm:");
        assert("npm:"@ =~= alias_marker());
        assert(chars@.subrange(0, n as int) =~= spec@);
    }
    let mut from: usize = 0;
    let mut package: Option<String> = None;
    if starts_with(&chars, &marker) {
        let ghost body = spec@.skip(4);
        assert(chars@.subrange(4, n as int) =~= body);
        match last_index_in(&chars, '@', 4, n) {
            Some(k) => {
                if k > 0 {
                    package = Some(String::from_str(spec.substring_char(4, 4 + k)));
                    assert(spec@.subrange(4, 4 + k) =~= body.take(k as int));
                }
                from = 4 + k + 1;
            },
            None => {
                from = 4;
            },
        }
        assert(chars@.subrange(from as int, n as int) =~= range_portion(spec@));
    }
    let ghost portion = range_portion(spec@);
    assert(chars@.subrange(from as int, n as int) == portion);
    let portion_from = from;
    match last_pair_index_in(&chars, '|', from, n) {
        Some(k) => {
            from = from + k + 2;
            assert(chars@.subrange(from as int, n as int) =~= portion.skip(k + 2));
        },
        None => {},
    }
    assert(chars@.subrange(from as int, n as int) == last_alternative(portion));
    from = skip_spaces(&chars, from, n);
    let to = drop_spaces(&chars, from, n);
    assert(chars@.subrange(from as int, to as int) == chosen_alternative(portion));
    assert(spec@.subrange(from as int, to as int) == chosen_alternative(portion));
    let alternative_from = from;
    if from < to && (chars[from] == '^' || chars[from] == '~') {
        assert(chars@.subrange(from as int, to as int).skip(1) =~= chars@.subrange(
            from + 1,
            to as int,
        ));
        from = from + 1;
    }
    let ghost body = floor_text(portion);
    assert(chars@.subrange(from as int, to as int) == body);
    assert(spec@.subrange(from as int, to as int) == body);
    if to - from == 1 && chars[from] == '*' {
        assert(body =~= seq!['*']);
        return Normalized { package, range: VersionRange::Any };
    }
    assert(body != seq!['*']) by {
        if body == seq!['*'] {
            assert(body.len() == 1);
            assert(body[0] == '*');
        }
    }
    if stretch_is_numeral(&chars, from, to) {
        let mut floor = String::from_str(spec.substring_char(from, to));
        floor.append(".0.0");
        proof {
            reveal_strlit(".0.0");
            assert(".0.0"@ =~= seq!['.', '0', '.', '0']);
        }
        Normalized { package, range: VersionRange::Floor(floor) }
    } else if stretch_is_version_text(&chars, from, to) {
        let floor = String::from_str(spec.substring_char(from, to));
        Normalized { package, range: VersionRange::Floor(floor) }
    } else {
        let text = String::from_str(spec.substring_char(alternative_from, to));
        Normalized { package, range: VersionRange::Comparators(text) }
    }
}

/// In `head + [c] + tail`, where `tail` holds no `c`, the last `c` is the
/// one in the middle.
pub proof fn lemma_last_index_of_tail(head: Seq<char>, c: char, tail: Seq<char>)
    requires
        !tail.contains(c),
    ensures
        last_index(head + seq![c] + tail, c) == head.len(),
    decreases tail.len(),
{
    let s = head + seq![c] + tail;
    if tail.len() == 0 {
        assert(s.last() == c);
    } else {
        assert(tail[tail.len() - 1] != c);
        let shorter = tail.drop_last();
        assert(!shorter.contains(c)) by {
            if shorter.contains(c) {
                let k = choose|k: int| 0 <= k < shorter.len() && shorter[k] == c;
                assert(tail[k] == c);
            }
        }
        lemma_last_index_of_tail(head, c, shorter);
        assert(s.drop_last() =~= head + seq![c] + shorter);
    }
}

/// A text without `c` holds no pair `c c`.
pub proof fn lemma_no_last_pair(s: Seq<char>, c: char)
    requires
        !s.contains(c),
    ensures
        last_pair_index(s, c) == -1,
    decreases s.len(),
{
    if s.len() >= 2 {
        assert(s[s.len() - 1] != c);
        let shorter = s.drop_last();
        assert(!shorter.contains(c)) by {
            if shorter.contains(c) {
                let k = choose|k: int| 0 <= k < shorter.len() && shorter[k] == c;
                assert(s[k] == c);
            }
        }
        lemma_no_last_pair(shorter, c);
    }
}

/// A text of version characters is its own floor text, and so is the text
/// with a caret or a tilde put before it.
pub proof fn lemma_floor_text_of_version_text(text: Seq<char>)
    requires
        is_version_text(text),
    ensures
        floor_text(text) == text,
        floor_text(seq!['^'] + text) == text,
        floor_text(seq!['~'] + text) == text,
{
    let caret = seq!['^'] + text;
    let tilde = seq!['~'] + text;
    assert forall|s: Seq<char>| s == text || s == caret || s == tilde implies !s.contains('|')
        && trimmed(s) == s by {
        assert forall|i: int| 0 <= i < s.len() implies s[i] != '|' && s[i] != ' ' by {
            if s == text {
                assert(is_version_char(text[i]));
            } else if i > 0 {
                assert(s[i] == text[i - 1]);
                assert(is_version_char(text[i - 1]));
            }
        }
        if s.len() > 0 {
            assert(s[0] != ' ');
            assert(s[s.len() - 1] != ' ');
        }
        assert(trim_start(s) == s);
        assert(trim_end(s) == s);
    }
    lemma_no_last_pair(text, '|');
    lemma_no_last_pair(caret, '|');
    lemma_no_last_pair(tilde, '|');
    if text.len() > 0 {
        assert(is_version_char(text[0]));
    }
    assert(caret.skip(1) =~= text);
    assert(tilde.skip(1) =~= text);
}

/// A caret or a tilde before a version text changes nothing: with or without
/// it, the text normalizes to the same floor. A numeral is completed to a
/// full version, and any other version text is the floor as it stands.
pub proof fn lemma_marker_is_dropped(text: Seq<char>)
    requires
        is_version_text(text),
    ensures
        normalized(seq!['^'] + text) == normalized(text),
        normalized(seq!['~'] + text) == normalized(text),
        normalized(text).package is None,
        is_numeral(text) ==> normalized(text).range == RangeView::Floor(
            text + seq!['.', '0', '.', '0'],
        ),
        !is_numeral(text) ==> normalized(text).range == RangeView::Floor(text),
{
    lemma_floor_text_of_version_text(text);
    let caret = seq!['^'] + text;
    let tilde = seq!['~'] + text;
    assert(!is_alias(caret)) by {
        if is_alias(caret) {
            assert(caret.subrange(0, 4)[0] == 'n');
        }
    }
    assert(!is_alias(tilde)) by {
        if is_alias(tilde) {
            assert(tilde.subrange(0, 4)[0] == 'n');
        }
    }
    assert(!is_alias(text)) by {
        if is_alias(text) {
            assert(text.subrange(0, 4)[3] == ':');
            assert(is_version_char(text[3]));
        }
    }
    assert(text != seq!['*']) by {
        if text == seq!['*'] {
            assert(is_version_char(text[0]));
        }
    }
}

/// A registry alias `npm:<name>@<range>` normalizes to the package `name` and
/// to what `range` normalizes to by itself.
pub proof fn lemma_alias_is_unwrapped(name: Seq<char>, range: Seq<char>)
    requires
        name.len() > 0,
        !range.contains('@'),
        !is_alias(range),
    ensures
        normalized(alias_marker() + name + seq!['@'] + range).package == Some(name),
        normalized(alias_marker() + name + seq!['@'] + range).range == normalized(range).range,
{
    let spec = alias_marker() + name + seq!['@'] + range;
    assert(is_alias(spec)) by {
        assert(spec.subrange(0, 4) =~= alias_marker());
    }
    let body = spec.skip(4);
    assert(body =~= name + seq!['@'] + range);
    lemma_last_index_of_tail(name, '@', range);
    assert(body.take(name.len() as int) =~= name);
    assert(body.skip(name.len() as int + 1) =~= range);
}

} // verus!
