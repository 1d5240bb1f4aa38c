//! Picks the version to install from a package's published versions and a
//! range specifier.

use crate::error::InstallError;
use crate::model::{texts_of, PackageIndex};
use crate::range::{normalize, normalized, RangeView, VersionRange};
use crate::semver::{
    at_most, comparators_admit, floor_admits, lemma_precedence, parsed_version, precedence,
    Precedence, Version, VersionView,
};
use crate::text::{chars_of, holds_char};
use vstd::prelude::*;

verus! {

/// A published version that can be installed.
#[derive(Clone, Debug)]
pub struct Candidate {
    /// The version, parsed.
    pub version: Version,
    /// Whether the requested range admits it.
    pub admitted: bool,
}

/// Mathematical model of a [`Candidate`].
pub struct CandidateView {
    pub version: VersionView,
    pub admitted: bool,
}

impl View for Candidate {
    type V = CandidateView;

    open spec fn view(&self) -> CandidateView {
        CandidateView { version: self.version@, admitted: self.admitted }
    }
}

/// The models of a surveyed listing: one place per published key, `None`
/// where the key is no version.
pub open spec fn survey_views(entries: Seq<Option<Candidate>>) -> Seq<Option<CandidateView>> {
    Seq::new(
        entries.len(),
        |i: int|
            match entries[i] {
                Some(c) => Some(c@),
                None => None,
            },
    )
}

/// The first admitted candidate of the listing stands at `i`.
pub open spec fn is_first_admitted(entries: Seq<Option<CandidateView>>, i: int) -> bool {
    &&& 0 <= i < entries.len()
    &&& entries[i] matches Some(c) && c.admitted
    &&& forall|j: int| 0 <= j < i ==> !((#[trigger] entries[j]) matches Some(c) && c.admitted)
}

/// Some candidate of the listing is admitted.
pub open spec fn any_admitted(entries: Seq<Option<CandidateView>>) -> bool {
    exists|j: int| 0 <= j < entries.len() && ((#[trigger] entries[j]) matches Some(c) && c.admitted)
}

/// The latest candidate of the listing stands at `m`: no candidate ranks
/// higher, and every candidate listed after it ranks lower.
pub open spec fn is_latest(entries: Seq<Option<CandidateView>>, m: int) -> bool {
    &&& 0 <= m < entries.len()
    &&& entries[m] is Some
    &&& forall|j: int|
        0 <= j < entries.len() && (#[trigger] entries[j]) is Some ==> at_most(
            entries[j]->0.version,
            entries[m]->0.version,
        )
    &&& forall|j: int|
        m < j < entries.len() && (#[trigger] entries[j]) is Some ==> precedence(
            entries[j]->0.version,
            entries[m]->0.version,
        ) == Precedence::Lower
}

/// The selection rule. The first admitted candidate in listing order is
/// chosen. Where none is admitted the latest candidate is chosen, which is
/// the only one where there is only one. Nothing is chosen only where the
/// listing holds no candidate.
pub open spec fn is_selected(entries: Seq<Option<CandidateView>>, choice: Option<int>) -> bool {
    match choice {
        Some(i) => if any_admitted(entries) {
            is_first_admitted(entries, i)
        } else {
            is_latest(entries, i)
        },
        None => forall|j: int| 0 <= j < entries.len() ==> (#[trigger] entries[j]) is None,
    }
}

/// The rule selects at most one place.
pub proof fn lemma_selection_is_unique(
    entries: Seq<Option<CandidateView>>,
    first: Option<int>,
    second: Option<int>,
)
    requires
        is_selected(entries, first),
        is_selected(entries, second),
    ensures
        first == second,
{
    match (first, second) {
        (Some(a), Some(b)) => {
            if !any_admitted(entries) && a != b {
                lemma_precedence(entries[a]->0.version, entries[b]->0.version, entries[a]->0.version);
                if a < b {
                    assert(entries[b] is Some);
                } else {
                    assert(entries[a] is Some);
                }
            }
        },
        (Some(a), None) => {
            assert(entries[a] is None);
        },
        (None, Some(b)) => {
            assert(entries[b] is None);
        },
        (None, None) => {},
    }
}

/// Where the listing holds exactly one candidate, that one is selected,
/// whether the range admits it or not.
pub proof fn lemma_single_candidate_is_selected(entries: Seq<Option<CandidateView>>, k: int)
    requires
        0 <= k < entries.len(),
        entries[k] is Some,
        forall|j: int| 0 <= j < entries.len() && j != k ==> (#[trigger] entries[j]) is None,
    ensures
        is_selected(entries, Some(k)),
{
    lemma_precedence(entries[k]->0.version, entries[k]->0.version, entries[k]->0.version);
    if any_admitted(entries) {
        let j = choose|j: int|
            0 <= j < entries.len() && ((#[trigger] entries[j]) matches Some(c) && c.admitted);
        assert(j == k);
    }
}

/// Applies the selection rule to a surveyed listing.
pub fn select_version(entries: &Vec<Option<Candidate>>) -> (choice: Option<usize>)
    ensures
        is_selected(
            survey_views(entries@),
            match choice {
                Some(i) => Some(i as int),
                None => None,
            },
        ),
{
    let ghost views = survey_views(entries@);
    let mut latest: Option<usize> = None;
    let mut i: usize = 0;
    while i < entries.len()
        invariant
            i <= entries.len(),
            views == survey_views(entries@),
            forall|j: int| 0 <= j < i ==> !((#[trigger] views[j]) matches Some(c) && c.admitted),
            match latest {
                Some(m) => {
                    &&& m < i
                    &&& views[m as int] is Some
                    &&& forall|j: int|
                        0 <= j < i && (#[trigger] views[j]) is Some ==> at_most(
                            views[j]->0.version,
                            views[m as int]->0.version,
                        )
                    &&& forall|j: int|
                        m < j < i && (#[trigger] views[j]) is Some ==> precedence(
                            views[j]->0.version,
                            views[m as int]->0.version,
                        ) == Precedence::Lower
                },
                None => forall|j: int| 0 <= j < i ==> (#[trigger] views[j]) is None,
            },
        decreases entries.len() - i,
    {
        match &entries[i] {
            Some(candidate) => {
                assert(views[i as int] == Some(candidate@));
                if candidate.admitted {
                    assert(any_admitted(views));
                    return Some(i);
                }
                match latest {
                    Some(m) => {
                        if let Some(held) = &entries[m] {
                            assert(views[m as int] == Some(held@));
                            let rank = candidate.version.rank(&held.version);
                            proof {
                                let new = candidate@.version;
                                let old_latest = held@.version;
                                lemma_precedence(new, old_latest, new);
                                assert forall|j: int|
                                    0 <= j < i && (#[trigger] views[j]) is Some && rank
                                        != Precedence::Lower implies at_most(
                                    views[j]->0.version,
                                    new,
                                ) by {
                                    lemma_precedence(views[j]->0.version, old_latest, new);
                                }
                            }
                            if rank != Precedence::Lower {
                                latest = Some(i);
                            }
                        } else {
                            assert(views[m as int] is None);
                        }
                    },
                    None => {
                        proof {
                            lemma_precedence(
                                candidate@.version,
                                candidate@.version,
                                candidate@.version,
                            );
                        }
                        latest = Some(i);
                    },
                }
            },
            None => {
                assert(views[i as int] is None);
            },
        }
        i += 1;
    }
    proof {
        if any_admitted(views) {
            let j = choose|j: int|
                0 <= j < views.len() && ((#[trigger] views[j]) matches Some(c) && c.admitted);
            assert(false);
        }
    }
    latest
}

/// Whether a range admits a version. A floor admits the versions from it
/// upwards; comparators admit the versions that satisfy them; the range "any
/// version" admits none by itself, so that the latest candidate is chosen.
pub open spec fn admits(range: RangeView, version: VersionView) -> bool {
    match range {
        RangeView::Any => false,
        RangeView::Floor(floor) => floor_admits(floor, version),
        RangeView::Comparators(text) => comparators_admit(text, version),
    }
}

/// What a published key amounts to under a range: a candidate where the key
/// is dotted and parses as a version, admitted where the range admits that
/// version.
pub open spec fn candidate_of(key: Seq<char>, range: RangeView) -> Option<CandidateView> {
    if key.contains('.') && parsed_version(key) is Some {
        let version = parsed_version(key)->0;
        Some(CandidateView { version, admitted: admits(range, version) })
    } else {
        None
    }
}

/// A listing surveyed under a range, key by key.
pub open spec fn surveyed(published: Seq<Seq<char>>, range: RangeView) -> Seq<
    Option<CandidateView>,
> {
    Seq::new(published.len(), |i: int| candidate_of(published[i], range))
}

/// Surveys the published keys under a range: parses each one and asks
/// whether the range admits it.
pub fn survey(published: &Vec<String>, range: &VersionRange) -> (entries: Vec<Option<Candidate>>)
    ensures
        survey_views(entries@) == surveyed(texts_of(published@), range@),
{
    let mut entries: Vec<Option<Candidate>> = Vec::new();
    let mut i: usize = 0;
    while i < published.len()
        invariant
            i <= published.len(),
            entries.len() == i,
            forall|j: int|
                0 <= j < i ==> (#[trigger] survey_views(entries@)[j]) == candidate_of(
                    published@[j]@,
                    range@,
                ),
        decreases published.len() - i,
    {
        let key = published[i].as_str();
        let key_chars = chars_of(key);
        let parsed = if holds_char(&key_chars, '.') {
            Version::parse(key)
        } else {
            None
        };
        let entry = match parsed {
            Some(version) => {
                let admitted = match range {
                    VersionRange::Any => false,
                    VersionRange::Floor(floor) => version.meets_floor(floor.as_str()),
                    VersionRange::Comparators(text) => version.satisfies(text.as_str()),
                };
                Some(Candidate { version, admitted })
            },
            None => None,
        };
        let ghost before = entries@;
        entries.push(entry);
        proof {
            assert forall|j: int| 0 <= j < i + 1 implies (#[trigger] survey_views(entries@)[j])
                == candidate_of(published@[j]@, range@) by {
                if j < i {
                    assert(survey_views(before)[j] == candidate_of(published@[j]@, range@));
                    assert(entries@[j] == before[j]);
                }
            }
        }
        i += 1;
    }
    assert(survey_views(entries@) =~= surveyed(texts_of(published@), range@));
    entries
}

/// The place in the listing `published` that the specifier `spec` resolves
/// to, or `None` where nothing can be resolved.
pub open spec fn resolves_to(published: Seq<Seq<char>>, spec: Seq<char>, place: Option<int>) -> bool {
    is_selected(surveyed(published, normalized(spec).range), place)
}

/// Resolves a range specifier against a package's index to the one version
/// to install: the first published version, in the registry's order, that
/// the normalized range admits; where there is none, the latest published
/// version. Fails only where no published key is a version.
pub fn resolve(index: &PackageIndex, range_spec: &str) -> (r: Result<String, InstallError>)
    ensures
        match r {
            Ok(version) => exists|i: int|
                0 <= i < index@.published_versions.len() && resolves_to(
                    index@.published_versions,
                    range_spec@,
                    Some(i),
                ) && version@ == #[trigger] index@.published_versions[i],
            Err(e) => e == InstallError::Resolution && resolves_to(
                index@.published_versions,
                range_spec@,
                None,
            ),
        },
{
    let wanted = normalize(range_spec);
    let entries = survey(&index.published_versions, &wanted.range);
    match select_version(&entries) {
        Some(i) => {
            assert(0 <= i < entries.len()) by {
                if any_admitted(survey_views(entries@)) {
                } else {
                }
            }
            let version = index.published_versions[i].clone();
            assert(version@ == index@.published_versions[i as int]);
            Ok(version)
        },
        None => Err(InstallError::Resolution),
    }
}

/// Resolution is a function of the listing and the specifier: two outcomes
/// for the same listing and specifier are the same place.
pub proof fn lemma_resolution_is_deterministic(
    published: Seq<Seq<char>>,
    spec: Seq<char>,
    first: Option<int>,
    second: Option<int>,
)
    requires
        resolves_to(published, spec, first),
        resolves_to(published, spec, second),
    ensures
        first == second,
{
    lemma_selection_is_unique(surveyed(published, normalized(spec).range), first, second);
}

/// Where the range admits some published version, the version chosen is
/// admitted, and no version listed before it is: the fallback is not used.
pub proof fn lemma_admitted_version_is_resolved(
    published: Seq<Seq<char>>,
    spec: Seq<char>,
    place: int,
)
    requires
        resolves_to(published, spec, Some(place)),
        exists|j: int|
            0 <= j < published.len() && (#[trigger] candidate_of(
                published[j],
                normalized(spec).range,
            ) matches Some(c) && c.admitted),
    ensures
        0 <= place < published.len(),
        candidate_of(published[place], normalized(spec).range) matches Some(c) && admits(
            normalized(spec).range,
            c.version,
        ),
        forall|j: int|
            0 <= j < place ==> !(#[trigger] candidate_of(
                published[j],
                normalized(spec).range,
            ) matches Some(c) && c.admitted),
{
    let range = normalized(spec).range;
    let entries = surveyed(published, range);
    let j = choose|j: int|
        0 <= j < published.len() && (#[trigger] candidate_of(published[j], range) matches Some(
            c,
        ) && c.admitted);
    assert(entries[j] == candidate_of(published[j], range));
    assert(any_admitted(entries));
    assert(entries[place] == candidate_of(published[place], range));
    assert forall|k: int| 0 <= k < place implies !(#[trigger] candidate_of(
        published[k],
        range,
    ) matches Some(c) && c.admitted) by {
        assert(entries[k] == candidate_of(published[k], range));
    }
}

/// Where the range admits no published version, and always where the range
/// is "any version", the latest published version is chosen.
pub proof fn lemma_fallback_is_latest(published: Seq<Seq<char>>, spec: Seq<char>, place: int)
    requires
        resolves_to(published, spec, Some(place)),
        normalized(spec).range is Any || !any_admitted(
            surveyed(published, normalized(spec).range),
        ),
    ensures
        is_latest(surveyed(published, normalized(spec).range), place),
{
    let entries = surveyed(published, normalized(spec).range);
    if any_admitted(entries) {
        let j = choose|j: int|
            0 <= j < entries.len() && ((#[trigger] entries[j]) matches Some(c) && c.admitted);
        assert(false);
    }
}

/// Where exactly one published key is a version, every specifier resolves to
/// it.
pub proof fn lemma_only_version_is_resolved(published: Seq<Seq<char>>, spec: Seq<char>, k: int)
    requires
        0 <= k < published.len(),
        candidate_of(published[k], normalized(spec).range) is Some,
        forall|j: int|
            0 <= j < published.len() && j != k ==> candidate_of(
                #[trigger] published[j],
                normalized(spec).range,
            ) is None,
    ensures
        resolves_to(published, spec, Some(k)),
{
    let entries = surveyed(published, normalized(spec).range);
    assert forall|j: int| 0 <= j < entries.len() && j != k implies (#[trigger] entries[j])
        is None by {
        assert(candidate_of(published[j], normalized(spec).range) is None);
    }
    lemma_single_candidate_is_selected(entries, k);
}

} // verus!
