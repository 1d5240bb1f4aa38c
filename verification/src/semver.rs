//! Semantic versions: their model, their precedence, and the boundary to the
//! `node_semver` crate, which parses version texts and decides comparisons
//! and range membership.

use crate::comparators::{is_safe_range, lemma_floor_range_is_safe, range_is_safe};
use vstd::prelude::*;
use vstd::string::*;

verus! {

/// One dot-separated part of a pre-release or build tag.
#[derive(Clone, Debug)]
pub enum Identifier {
    /// A part made of digits only.
    Numeric(u64),
    /// A part that holds letters, digits or hyphens.
    AlphaNumeric(String),
}

/// Mathematical model of an [`Identifier`].
pub enum IdentifierView {
    Numeric(nat),
    AlphaNumeric(Seq<char>),
}

impl View for Identifier {
    type V = IdentifierView;

    open spec fn view(&self) -> IdentifierView {
        match self {
            Identifier::Numeric(n) => IdentifierView::Numeric(*n as nat),
            Identifier::AlphaNumeric(s) => IdentifierView::AlphaNumeric(s@),
        }
    }
}

/// A semantic version: `major.minor.patch`, an optional pre-release tag and
/// optional build metadata.
#[derive(Clone, Debug)]
pub struct Version {
    pub major: u64,
    pub minor: u64,
    pub patch: u64,
    pub pre_release: Vec<Identifier>,
    pub build: Vec<Identifier>,
}

/// Mathematical model of a [`Version`].
pub struct VersionView {
    pub major: nat,
    pub minor: nat,
    pub patch: nat,
    pub pre_release: Seq<IdentifierView>,
    pub build: Seq<IdentifierView>,
}

/// The models of a run of identifiers, in order.
pub open spec fn identifier_views(ids: Seq<Identifier>) -> Seq<IdentifierView> {
    Seq::new(ids.len(), |i: int| ids[i]@)
}

impl View for Version {
    type V = VersionView;

    open spec fn view(&self) -> VersionView {
        VersionView {
            major: self.major as nat,
            minor: self.minor as nat,
            patch: self.patch as nat,
            pre_release: identifier_views(self.pre_release@),
            build: identifier_views(self.build@),
        }
    }
}

impl VersionView {
    /// A version with a pre-release tag.
    pub open spec fn is_prerelease(self) -> bool {
        self.pre_release.len() > 0
    }
}

/// How one version ranks against another.
#[derive(Clone, Copy, Debug, PartialEq, Eq, Structural)]
pub enum Precedence {
    Lower,
    Same,
    Higher,
}

impl Precedence {
    /// The rank seen from the other side.
    pub open spec fn flip(self) -> Precedence {
        match self {
            Precedence::Lower => Precedence::Higher,
            Precedence::Same => Precedence::Same,
            Precedence::Higher => Precedence::Lower,
        }
    }
}

/// Rank of two numbers.
pub open spec fn number_precedence(a: nat, b: nat) -> Precedence {
    if a < b {
        Precedence::Lower
    } else if a == b {
        Precedence::Same
    } else {
        Precedence::Higher
    }
}

/// Rank of two texts: character by character, a proper prefix ranks lower.
pub open spec fn text_precedence(a: Seq<char>, b: Seq<char>) -> Precedence
    decreases a.len(),
{
    if a.len() == 0 {
        if b.len() == 0 {
            Precedence::Same
        } else {
            Precedence::Lower
        }
    } else if b.len() == 0 {
        Precedence::Higher
    } else if a[0] as nat != b[0] as nat {
        number_precedence(a[0] as nat, b[0] as nat)
    } else {
        text_precedence(a.drop_first(), b.drop_first())
    }
}

/// Rank of two identifiers: numbers by value, texts by their characters, and
/// any number below any text.
pub open spec fn identifier_precedence(a: IdentifierView, b: IdentifierView) -> Precedence {
    match (a, b) {
        (IdentifierView::Numeric(x), IdentifierView::Numeric(y)) => number_precedence(x, y),
        (IdentifierView::Numeric(_), IdentifierView::AlphaNumeric(_)) => Precedence::Lower,
        (IdentifierView::AlphaNumeric(_), IdentifierView::Numeric(_)) => Precedence::Higher,
        (IdentifierView::AlphaNumeric(x), IdentifierView::AlphaNumeric(y)) => text_precedence(x, y),
    }
}

/// Rank of two pre-release tags: identifier by identifier, a proper prefix
/// ranks lower.
pub open spec fn tag_precedence(a: Seq<IdentifierView>, b: Seq<IdentifierView>) -> Precedence
    decreases a.len(),
{
    if a.len() == 0 {
        if b.len() == 0 {
            Precedence::Same
        } else {
            Precedence::Lower
        }
    } else if b.len() == 0 {
        Precedence::Higher
    } else if identifier_precedence(a[0], b[0]) != Precedence::Same {
        identifier_precedence(a[0], b[0])
    } else {
        tag_precedence(a.drop_first(), b.drop_first())
    }
}

/// Semantic-version precedence: by major, minor and patch number; among
/// versions with the same three, a release ranks above every pre-release, and
/// two pre-releases rank by their tags. Build metadata plays no part.
pub open spec fn precedence(a: VersionView, b: VersionView) -> Precedence {
    if a.major != b.major {
        number_precedence(a.major, b.major)
    } else if a.minor != b.minor {
        number_precedence(a.minor, b.minor)
    } else if a.patch != b.patch {
        number_precedence(a.patch, b.patch)
    } else if !a.is_prerelease() {
        if b.is_prerelease() {
            Precedence::Higher
        } else {
            Precedence::Same
        }
    } else if !b.is_prerelease() {
        Precedence::Lower
    } else {
        tag_precedence(a.pre_release, b.pre_release)
    }
}

/// `a` ranks no higher than `b`.
pub open spec fn at_most(a: VersionView, b: VersionView) -> bool {
    precedence(a, b) != Precedence::Higher
}

/// Three ranks that fit together: where two of the pairs rank the same way,
/// or one of them ranks `Same`, the third pair follows.
pub open spec fn ranks_chain(first: Precedence, second: Precedence, outer: Precedence) -> bool {
    &&& first == Precedence::Same ==> outer == second
    &&& second == Precedence::Same ==> outer == first
    &&& first == second ==> outer == first
}

/// Swapping the sides of a text comparison flips the rank.
pub proof fn lemma_text_precedence_flips(a: Seq<char>, b: Seq<char>)
    ensures
        text_precedence(b, a) == text_precedence(a, b).flip(),
    decreases a.len(),
{
    if a.len() > 0 && b.len() > 0 {
        lemma_text_precedence_flips(a.drop_first(), b.drop_first());
    }
}

/// A text ranks the same as itself.
pub proof fn lemma_text_precedence_reflexive(a: Seq<char>)
    ensures
        text_precedence(a, a) == Precedence::Same,
    decreases a.len(),
{
    if a.len() > 0 {
        lemma_text_precedence_reflexive(a.drop_first());
    }
}

/// Text ranks chain.
pub proof fn lemma_text_precedence_chains(a: Seq<char>, b: Seq<char>, c: Seq<char>)
    ensures
        ranks_chain(text_precedence(a, b), text_precedence(b, c), text_precedence(a, c)),
    decreases a.len(),
{
    if a.len() > 0 && b.len() > 0 && c.len() > 0 {
        lemma_text_precedence_chains(a.drop_first(), b.drop_first(), c.drop_first());
    }
}

/// Identifier precedence is a total order: swapping the sides flips the rank,
/// an identifier ranks the same as itself, and ranks chain.
pub proof fn lemma_identifier_precedence(a: IdentifierView, b: IdentifierView, c: IdentifierView)
    ensures
        identifier_precedence(b, a) == identifier_precedence(a, b).flip(),
        identifier_precedence(a, a) == Precedence::Same,
        ranks_chain(
            identifier_precedence(a, b),
            identifier_precedence(b, c),
            identifier_precedence(a, c),
        ),
{
    if let IdentifierView::AlphaNumeric(x) = a {
        lemma_text_precedence_reflexive(x);
        if let IdentifierView::AlphaNumeric(y) = b {
            lemma_text_precedence_flips(x, y);
            if let IdentifierView::AlphaNumeric(z) = c {
                lemma_text_precedence_chains(x, y, z);
            }
        }
    }
}

/// Swapping the sides of a tag comparison flips the rank.
pub proof fn lemma_tag_precedence_flips(a: Seq<IdentifierView>, b: Seq<IdentifierView>)
    ensures
        tag_precedence(b, a) == tag_precedence(a, b).flip(),
    decreases a.len(),
{
    if a.len() > 0 && b.len() > 0 {
        lemma_identifier_precedence(a[0], b[0], b[0]);
        lemma_tag_precedence_flips(a.drop_first(), b.drop_first());
    }
}

/// A tag ranks the same as itself.
pub proof fn lemma_tag_precedence_reflexive(a: Seq<IdentifierView>)
    ensures
        tag_precedence(a, a) == Precedence::Same,
    decreases a.len(),
{
    if a.len() > 0 {
        lemma_identifier_precedence(a[0], a[0], a[0]);
        lemma_tag_precedence_reflexive(a.drop_first());
    }
}

/// Tag ranks chain.
pub proof fn lemma_tag_precedence_chains(
    a: Seq<IdentifierView>,
    b: Seq<IdentifierView>,
    c: Seq<IdentifierView>,
)
    ensures
        ranks_chain(tag_precedence(a, b), tag_precedence(b, c), tag_precedence(a, c)),
    decreases a.len(),
{
    if a.len() > 0 && b.len() > 0 && c.len() > 0 {
        lemma_identifier_precedence(a[0], b[0], c[0]);
        lemma_tag_precedence_chains(a.drop_first(), b.drop_first(), c.drop_first());
    }
}

/// Version precedence is a total order on versions taken without their build
/// metadata: swapping the sides flips the rank, a version ranks the same as
/// itself, and ranks chain.
pub proof fn lemma_precedence(a: VersionView, b: VersionView, c: VersionView)
    ensures
        precedence(b, a) == precedence(a, b).flip(),
        precedence(a, a) == Precedence::Same,
        ranks_chain(precedence(a, b), precedence(b, c), precedence(a, c)),
{
    lemma_tag_precedence_flips(a.pre_release, b.pre_release);
    lemma_tag_precedence_reflexive(a.pre_release);
    lemma_tag_precedence_chains(a.pre_release, b.pre_release, c.pre_release);
}

/// "No higher than" is transitive.
pub proof fn lemma_at_most_transitive(a: VersionView, b: VersionView, c: VersionView)
    requires
        at_most(a, b),
        at_most(b, c),
    ensures
        at_most(a, c),
{
    lemma_precedence(a, b, c);
}

/// What `node_semver::Version::parse` makes of a text: the version it reads,
/// or `None` where it reports an error.
pub uninterp spec fn parsed_version(text: Seq<char>) -> Option<VersionView>;

/// Whether the range that `node_semver::Range::parse` reads from `range`
/// holds `version`; `false` where the text is no range.
pub uninterp spec fn range_admits(range: Seq<char>, version: VersionView) -> bool;

/// Calls `node_semver::Version::parse` and copies the fields of what it
/// returns. The contract only names the outcome: the same text always parses
/// the same way.
#[verifier::external_body]
fn parse_with_semver(text: &str) -> (r: Option<Version>)
    ensures
        r matches Some(v) ==> parsed_version(text@) == Some(v@),
        r is None ==> parsed_version(text@) is None,
{
    let lower = |id: node_semver::Identifier| match id {
        node_semver::Identifier::Numeric(n) => Identifier::Numeric(n),
        node_semver::Identifier::AlphaNumeric(s) => Identifier::AlphaNumeric(s),
    };
    node_semver::Version::parse(text).ok().map(|v| Version {
        major: v.major,
        minor: v.minor,
        patch: v.patch,
        pre_release: v.pre_release.into_iter().map(lower).collect(),
        build: v.build.into_iter().map(lower).collect(),
    })
}

/// Calls `Ord::cmp` of `node_semver::Version` on copies of the two versions.
/// The contract states what that comparison decides: major, minor and patch
/// number in turn, then a release above a pre-release, then the pre-release
/// tags identifier by identifier.
#[verifier::external_body]
fn rank_with_semver(a: &Version, b: &Version) -> (r: Precedence)
    ensures
        r == precedence(a@, b@),
{
    let lift = |id: &Identifier| match id {
        Identifier::Numeric(n) => node_semver::Identifier::Numeric(*n),
        Identifier::AlphaNumeric(s) => node_semver::Identifier::AlphaNumeric(s.clone()),
    };
    let outer = |v: &Version| node_semver::Version {
        pre_release: v.pre_release.iter().map(lift).collect(),
        build: v.build.iter().map(lift).collect(),
        ..node_semver::Version::new(v.major, v.minor, v.patch)
    };
    match outer(a).cmp(&outer(b)) {
        std::cmp::Ordering::Less => Precedence::Lower,
        std::cmp::Ordering::Equal => Precedence::Same,
        std::cmp::Ordering::Greater => Precedence::Higher,
    }
}

/// Calls `node_semver::Range::parse` on `range` and `Range::satisfies` on a
/// copy of `version`. The contract only names the outcome. The range parser
/// panics where a comparator is `=` before a wildcard major part, or `~`
/// before a wildcard major part or a wildcard minor part with a numeric
/// patch part; the required form leaves those texts out.
#[verifier::external_body]
fn admits_with_semver(range: &str, version: &Version) -> (r: bool)
    requires
        is_safe_range(range@),
    ensures
        r == range_admits(range@, version@),
{
    let lift = |id: &Identifier| match id {
        Identifier::Numeric(n) => node_semver::Identifier::Numeric(*n),
        Identifier::AlphaNumeric(s) => node_semver::Identifier::AlphaNumeric(s.clone()),
    };
    let outer = node_semver::Version {
        pre_release: version.pre_release.iter().map(lift).collect(),
        build: version.build.iter().map(lift).collect(),
        ..node_semver::Version::new(version.major, version.minor, version.patch)
    };
    match node_semver::Range::parse(range) {
        Ok(parsed) => parsed.satisfies(&outer),
        Err(_) => false,
    }
}

/// The range text that asks for the versions from `floor` upwards.
pub open spec fn floor_range(floor: Seq<char>) -> Seq<char> {
    seq!['>', '='] + floor
}

/// Whether `version` is admitted by the floor written in `floor`: the text
/// is made of version characters, and the range `>=floor` holds the version.
/// A floor written in other characters admits nothing.
pub open spec fn floor_admits(floor: Seq<char>, version: VersionView) -> bool {
    crate::text::is_version_text(floor) && range_admits(floor_range(floor), version)
}

/// Whether `version` is admitted by the range written in `range`, read as
/// the range parser reads it. A text on which the parser gives up admits
/// nothing.
pub open spec fn comparators_admit(range: Seq<char>, version: VersionView) -> bool {
    is_safe_range(range) && range_admits(range, version)
}

impl Version {
    /// Reads a version from its text, `None` where the text is no version.
    pub fn parse(text: &str) -> (r: Option<Version>)
        ensures
            r matches Some(v) ==> parsed_version(text@) == Some(v@),
            r is None ==> parsed_version(text@) is None,
    {
        parse_with_semver(text)
    }

    /// How this version ranks against `other`.
    pub fn rank(&self, other: &Version) -> (r: Precedence)
        ensures
            r == precedence(self@, other@),
    {
        rank_with_semver(self, other)
    }

    /// Whether this version carries a pre-release tag.
    pub fn is_prerelease(&self) -> (r: bool)
        ensures
            r == self@.is_prerelease(),
    {
        self.pre_release.len() > 0
    }
}

impl Version {
    /// Whether this version is admitted by the floor written in `floor`.
    pub fn meets_floor(&self, floor: &str) -> (r: bool)
        ensures
            r == floor_admits(floor@, self@),
    {
        let chars = crate::text::chars_of(floor);
        if !crate::text::has_version_text(&chars) {
            return false;
        }
        let mut range = String::from_str(">=");
        range.append(floor);
        proof {
            reveal_strlit(">=");
            assert(">="@ =~= seq!['>', '=']);
            assert(range@ =~= floor_range(floor@));
            lemma_floor_range_is_safe(floor@);
        }
        admits_with_semver(range.as_str(), self)
    }

    /// Whether this version is admitted by the range written in `range`:
    /// comparators such as `<2.0.0` or `>=1.2.0 <2.0.0`, read as the range
    /// parser reads them.
    pub fn satisfies(&self, range: &str) -> (r: bool)
        ensures
            r == comparators_admit(range@, self@),
    {
        let chars = crate::text::chars_of(range);
        if !range_is_safe(&chars) {
            return false;
        }
        admits_with_semver(range, self)
    }
}

} // verus!
