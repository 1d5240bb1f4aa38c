//! The walk over the dependency graph: which names are claimed, what a visit
//! does next, and which children a resolved package adds.

use crate::error::InstallError;
use crate::model::{
    request_views, DependencyRequest, RequestView, ResolvedPackage, RootManifest,
};
use crate::range::{aliased_package, normalize};
use crate::text::same_text;
use vstd::prelude::*;

verus! {

/// Some request of the run is for `name`.
pub open spec fn names(requests: Seq<RequestView>, name: Seq<char>) -> bool {
    exists|i: int| 0 <= i < requests.len() && (#[trigger] requests[i]).name == name
}

/// No two requests of the run are for the same name.
pub open spec fn distinct_names(requests: Seq<RequestView>) -> bool {
    forall|i: int, j: int|
        0 <= i < j < requests.len() ==> (#[trigger] requests[i]).name != (
        #[trigger] requests[j]).name
}

/// The packages whose processing has begun, each with the request that
/// claimed its name. Entries are only ever added.
pub struct VisitedSet {
    claims: Vec<DependencyRequest>,
}

impl View for VisitedSet {
    type V = Seq<RequestView>;

    closed spec fn view(&self) -> Seq<RequestView> {
        request_views(self.claims@)
    }
}

impl VisitedSet {
    /// A name is claimed at most once.
    pub closed spec fn well_formed(&self) -> bool {
        distinct_names(request_views(self.claims@))
    }

    /// A set without claims.
    pub fn new() -> (set: VisitedSet)
        ensures
            set.well_formed(),
            set@ == Seq::<RequestView>::empty(),
    {
        let set = VisitedSet { claims: Vec::new() };
        assert(set@ =~= Seq::<RequestView>::empty());
        set
    }

    /// The number of claimed names.
    pub fn len(&self) -> (n: usize)
        ensures
            n == self@.len(),
    {
        self.claims.len()
    }

    /// In a well-formed set no two claims are for the same name.
    pub proof fn lemma_claims_are_distinct(&self)
        requires
            self.well_formed(),
        ensures
            distinct_names(self@),
    {
    }

    /// Whether `name` is claimed.
    pub fn contains(&self, name: &str) -> (r: bool)
        ensures
            r == names(self@, name@),
    {
        let mut i: usize = 0;
        while i < self.claims.len()
            invariant
                i <= self.claims.len(),
                forall|j: int| 0 <= j < i ==> (#[trigger] self@[j]).name != name@,
            decreases self.claims.len() - i,
        {
            if same_text(self.claims[i].name.as_str(), name) {
                assert(self@[i as int].name == name@);
                return true;
            }
            i += 1;
        }
        false
    }

    /// Claims the name of `request` unless it is claimed already, in one
    /// step. Returns whether this call claimed it.
    pub fn claim(&mut self, request: DependencyRequest) -> (claimed: bool)
        requires
            old(self).well_formed(),
        ensures
            final(self).well_formed(),
            claimed == !names(old(self)@, request@.name),
            final(self)@ == if claimed {
                old(self)@.push(request@)
            } else {
                old(self)@
            },
    {
        if self.contains(request.name.as_str()) {
            return false;
        }
        let ghost before = self@;
        self.claims.push(request);
        proof {
            assert(self@ =~= before.push(request@));
            assert forall|i: int, j: int| 0 <= i < j < self@.len() implies (#[trigger] self@[i]).name
                != (#[trigger] self@[j]).name by {
                if j == before.len() {
                    assert(before[i].name != request@.name);
                }
            }
        }
        true
    }
}

/// The states of one visit.
#[derive(Clone, Copy, Debug, PartialEq, Eq, Structural)]
pub enum VisitState {
    /// The request has not been looked at.
    Pending,
    /// The name is claimed; index and manifest are being fetched.
    Resolving,
    /// The manifest is there and the archive is being installed. The visits
    /// of the children run beside the install, and `children_joined` says
    /// whether all of them have finished already.
    Installing { children_joined: bool },
    /// The install has finished; visits of children are still under way.
    Expanding,
    /// The visit is complete.
    Done,
    /// The visit has failed, and the run with it.
    Failed,
}

/// What can happen to a visit.
#[derive(Clone, Copy, Debug, PartialEq, Eq, Structural)]
pub enum VisitEvent {
    /// The name was free and is now claimed by this visit.
    Claimed,
    /// The name was claimed before.
    AlreadyVisited,
    /// The manifest of the resolved version has arrived.
    Resolved,
    /// The archive install has finished.
    Installed,
    /// All visits of children have finished.
    ChildrenJoined,
    /// Something failed.
    Failure,
}

impl VisitState {
    /// `Done` and `Failed` end a visit.
    pub open spec fn is_terminal(self) -> bool {
        self == VisitState::Done || self == VisitState::Failed
    }

    /// The state that follows `self` on `event`. A visit that has ended stays
    /// as it is; a failure ends any other visit; an event that the state does
    /// not wait for changes nothing. Install and expansion may finish in
    /// either order, and the visit is done when both have.
    pub open spec fn after(self, event: VisitEvent) -> VisitState {
        if self.is_terminal() {
            self
        } else {
            match (self, event) {
                (_, VisitEvent::Failure) => VisitState::Failed,
                (VisitState::Pending, VisitEvent::Claimed) => VisitState::Resolving,
                (VisitState::Pending, VisitEvent::AlreadyVisited) => VisitState::Done,
                (VisitState::Resolving, VisitEvent::Resolved) => VisitState::Installing {
                    children_joined: false,
                },
                (
                    VisitState::Installing { children_joined: false },
                    VisitEvent::ChildrenJoined,
                ) => VisitState::Installing { children_joined: true },
                (
                    VisitState::Installing { children_joined: false },
                    VisitEvent::Installed,
                ) => VisitState::Expanding,
                (
                    VisitState::Installing { children_joined: true },
                    VisitEvent::Installed,
                ) => VisitState::Done,
                (VisitState::Expanding, VisitEvent::ChildrenJoined) => VisitState::Done,
                _ => self,
            }
        }
    }

    /// Moves a visit on by one event.
    pub fn advance(self, event: VisitEvent) -> (next: VisitState)
        ensures
            next == self.after(event),
    {
        match (self, event) {
            (VisitState::Done, _) => VisitState::Done,
            (VisitState::Failed, _) => VisitState::Failed,
            (_, VisitEvent::Failure) => VisitState::Failed,
            (VisitState::Pending, VisitEvent::Claimed) => VisitState::Resolving,
            (VisitState::Pending, VisitEvent::AlreadyVisited) => VisitState::Done,
            (VisitState::Resolving, VisitEvent::Resolved) => VisitState::Installing {
                children_joined: false,
            },
            (
                VisitState::Installing { children_joined: false },
                VisitEvent::ChildrenJoined,
            ) => VisitState::Installing { children_joined: true },
            (
                VisitState::Installing { children_joined: false },
                VisitEvent::Installed,
            ) => VisitState::Expanding,
            (
                VisitState::Installing { children_joined: true },
                VisitEvent::Installed,
            ) => VisitState::Done,
            (VisitState::Expanding, VisitEvent::ChildrenJoined) => VisitState::Done,
            (state, _) => state,
        }
    }
}

/// How a visit starts.
#[derive(Debug)]
pub enum Visit {
    /// The name was claimed before: the request is satisfied by what was
    /// resolved for it, and nothing is fetched or installed.
    Satisfied,
    /// The name is claimed by this visit: fetch the index of this package,
    /// then resolve, fetch the manifest and install.
    Resolve(String),
}

impl Visit {
    /// What the start of a visit means for its state.
    pub fn event(&self) -> (event: VisitEvent)
        ensures
            event == match self {
                Visit::Satisfied => VisitEvent::AlreadyVisited,
                Visit::Resolve(_) => VisitEvent::Claimed,
            },
    {
        match self {
            Visit::Satisfied => VisitEvent::AlreadyVisited,
            Visit::Resolve(_) => VisitEvent::Claimed,
        }
    }
}

/// The package whose index a request is resolved against: the package that
/// its specifier aliases, or else the requested name.
pub open spec fn index_name(request: RequestView) -> Seq<char> {
    match aliased_package(request.range_spec) {
        Some(name) => name,
        None => request.name,
    }
}

/// The requests among `children` whose names are not claimed in `visited`,
/// in order.
pub open spec fn unvisited(visited: Seq<RequestView>, children: Seq<RequestView>) -> Seq<
    RequestView,
> {
    children.filter(|child: RequestView| !names(visited, child.name))
}

/// Appends a copy of each request of `listed` to `requests`.
fn append_copies(requests: &mut Vec<DependencyRequest>, listed: &Vec<DependencyRequest>)
    ensures
        request_views(final(requests)@) == request_views(old(requests)@) + request_views(listed@),
{
    let ghost before = request_views(requests@);
    let ghost all = request_views(listed@);
    assert(before + all.take(0) =~= before);
    let mut i: usize = 0;
    while i < listed.len()
        invariant
            i <= listed.len(),
            all == request_views(listed@),
            request_views(requests@) == before + all.take(i as int),
        decreases listed.len() - i,
    {
        let ghost shown = request_views(requests@);
        requests.push(listed[i].duplicate());
        assert(request_views(requests@) =~= shown.push(all[i as int]));
        assert(before + all.take(i + 1) =~= (before + all.take(i as int)).push(all[i as int]));
        i += 1;
    }
    assert(all.take(listed.len() as int) =~= all);
}

/// The orchestrator of a run: it owns the set of claimed names.
pub struct GraphWalker {
    visited: VisitedSet,
}

impl GraphWalker {
    /// The claims made so far, in the order in which they were made.
    pub closed spec fn claims(&self) -> Seq<RequestView> {
        self.visited@
    }

    /// No name is claimed twice.
    pub closed spec fn well_formed(&self) -> bool {
        self.visited.well_formed()
    }

    /// A walker that has visited nothing.
    pub fn new() -> (walker: GraphWalker)
        ensures
            walker.well_formed(),
            walker.claims() == Seq::<RequestView>::empty(),
    {
        GraphWalker { visited: VisitedSet::new() }
    }

    /// The requests that a run starts from: the runtime dependencies of the
    /// root manifest, then its development dependencies, which are walked
    /// like the others. Without a manifest the run fails before anything is
    /// fetched.
    pub fn seed(manifest: Option<&RootManifest>) -> (roots: Result<
        Vec<DependencyRequest>,
        InstallError,
    >)
        ensures
            match (manifest, roots) {
                (Some(m), Ok(requests)) => request_views(requests@) == m@.dependencies
                    + m@.dev_dependencies,
                (None, Err(e)) => e == InstallError::Manifest,
                _ => false,
            },
    {
        match manifest {
            Some(m) => {
                let mut roots: Vec<DependencyRequest> = Vec::new();
                let ghost nothing = Seq::<RequestView>::empty();
                assert(request_views(roots@) =~= nothing);
                append_copies(&mut roots, &m.dependencies);
                append_copies(&mut roots, &m.dev_dependencies);
                assert(nothing + m@.dependencies =~= m@.dependencies);
                Ok(roots)
            },
            None => Err(InstallError::Manifest),
        }
    }

    /// Starts the visit of `request`: checks whether its name is claimed and
    /// claims it if not, in one step. Only the visit that claims a name
    /// resolves and installs the package.
    pub fn begin(&mut self, request: &DependencyRequest) -> (visit: Visit)
        requires
            old(self).well_formed(),
        ensures
            final(self).well_formed(),
            match visit {
                Visit::Satisfied => names(old(self).claims(), request@.name) && final(self).claims() == old(self).claims(),
                Visit::Resolve(package) => !names(old(self).claims(), request@.name) && final(self).claims() == old(self).claims().push(request@) && package@ == index_name(
                    request@,
                ),
            },
    {
        if self.visited.claim(request.duplicate()) {
            let wanted = normalize(request.range_spec.as_str());
            match wanted.package {
                Some(package) => Visit::Resolve(package),
                None => Visit::Resolve(request.name.clone()),
            }
        } else {
            Visit::Satisfied
        }
    }

    /// Whether the name is claimed.
    pub fn has_visited(&self, name: &str) -> (r: bool)
        ensures
            r == names(self.claims(), name@),
    {
        self.visited.contains(name)
    }

    /// The dependencies of a resolved package that are not claimed yet, each
    /// as a request of its own: runtime dependencies first, development
    /// dependencies after them. Nothing is claimed here; each child claims
    /// its name when its own visit begins.
    pub fn expand(&self, package: &ResolvedPackage) -> (children: Vec<DependencyRequest>)
        ensures
            request_views(children@) == unvisited(self.claims(), package@.combined_dependencies()),
    {
        let mut children: Vec<DependencyRequest> = Vec::new();
        let ghost nothing = Seq::<RequestView>::empty();
        proof {
            reveal(Seq::filter);
            assert(request_views(children@) =~= nothing);
            assert(unvisited(self.claims(), nothing) =~= nothing);
        }
        self.gather(&package.dependencies, &mut children, Ghost(nothing));
        assert(nothing + request_views(package.dependencies@) =~= request_views(
            package.dependencies@,
        ));
        self.gather(
            &package.dev_dependencies,
            &mut children,
            Ghost(request_views(package.dependencies@)),
        );
        children
    }

    /// Adds to `children` the requests of `listed` whose names are not
    /// claimed.
    fn gather(
        &self,
        listed: &Vec<DependencyRequest>,
        children: &mut Vec<DependencyRequest>,
        Ghost(before): Ghost<Seq<RequestView>>,
    )
        requires
            request_views(old(children)@) == unvisited(self.claims(), before),
        ensures
            request_views(final(children)@) == unvisited(
                self.claims(),
                before + request_views(listed@),
            ),
    {
        let ghost keep = |child: RequestView| !names(self.claims(), child.name);
        let ghost all = request_views(listed@);
        assert(before + all.take(0) =~= before);
        let mut i: usize = 0;
        while i < listed.len()
            invariant
                i <= listed.len(),
                all == request_views(listed@),
                keep == |child: RequestView| !names(self.claims(), child.name),
                request_views(children@) == (before + all.take(i as int)).filter(keep),
            decreases listed.len() - i,
        {
            let ghost done = before + all.take(i as int);
            let ghost shown = request_views(children@);
            proof {
                assert(before + all.take(i + 1) =~= done.push(all[i as int]));
                assert(done.push(all[i as int]).drop_last() =~= done);
                reveal(Seq::filter);
            }
            if !self.visited.contains(listed[i].name.as_str()) {
                children.push(listed[i].duplicate());
                assert(request_views(children@) =~= shown.push(all[i as int]));
            }
            i += 1;
        }
        assert(all.take(listed.len() as int) =~= all);
    }

    /// The number of packages of this run: the number of claimed names.
    pub fn installed(&self) -> (n: usize)
        ensures
            n == self.claims().len(),
    {
        self.visited.len()
    }
}

/// The claims that stand after the visits of `begun` were started one after
/// another on a walker that held the claims `start`. Visits start under
/// exclusive access, so every interleaving of concurrent visits is such a
/// sequence.
pub open spec fn claims_after(start: Seq<RequestView>, begun: Seq<RequestView>) -> Seq<RequestView>
    decreases begun.len(),
{
    if begun.len() == 0 {
        start
    } else {
        let before = claims_after(start, begun.drop_last());
        if names(before, begun.last().name) {
            before
        } else {
            before.push(begun.last())
        }
    }
}

/// The visit started as number `i` of `begun` is the one that claims its
/// name, and so the one that resolves and installs the package.
pub open spec fn is_resolving_visit(start: Seq<RequestView>, begun: Seq<RequestView>, i: int) -> bool {
    !names(claims_after(start, begun.take(i)), begun[i].name)
}

/// A name that is claimed stays claimed, and the name of every visit that was
/// started is claimed.
pub proof fn lemma_claims_grow(start: Seq<RequestView>, begun: Seq<RequestView>, upto: int)
    requires
        0 <= upto <= begun.len(),
    ensures
        forall|name: Seq<char>|
            names(claims_after(start, begun.take(upto)), name) ==> names(
                claims_after(start, begun),
                name,
            ),
        forall|i: int|
            0 <= i < begun.len() ==> names(claims_after(start, begun), (#[trigger] begun[i]).name),
    decreases begun.len(),
{
    if begun.len() == 0 {
        assert(begun.take(upto) =~= begun);
    } else {
        let shorter = begun.drop_last();
        let before = claims_after(start, shorter);
        let after = claims_after(start, begun);
        assert forall|name: Seq<char>| names(before, name) implies names(after, name) by {
            let k = choose|k: int| 0 <= k < before.len() && (#[trigger] before[k]).name == name;
            assert(after[k].name == name);
        }
        if upto == begun.len() {
            assert(begun.take(upto) =~= begun);
            lemma_claims_grow(start, shorter, 0);
        } else {
            assert(begun.take(upto) =~= shorter.take(upto));
            lemma_claims_grow(start, shorter, upto);
        }
        assert forall|i: int| 0 <= i < begun.len() implies names(
            after,
            (#[trigger] begun[i]).name,
        ) by {
            if i < shorter.len() {
                assert(shorter[i] == begun[i]);
                assert(names(before, shorter[i].name));
            } else if !names(before, begun.last().name) {
                assert(after[after.len() - 1].name == begun[i].name);
            }
        }
    }
}

/// Of all visits of one name, at most one resolves and installs the package,
/// however many parents ask for it and in whatever order their visits start:
/// a visit whose name was begun before is satisfied without fetching.
pub proof fn lemma_name_resolved_at_most_once(
    start: Seq<RequestView>,
    begun: Seq<RequestView>,
    i: int,
    j: int,
)
    requires
        0 <= i < j < begun.len(),
        begun[i].name == begun[j].name,
    ensures
        !is_resolving_visit(start, begun, j),
{
    let earlier = begun.take(j);
    lemma_claims_grow(start, earlier, 0);
    assert(earlier[i] == begun[i]);
}

/// Starting visits keeps claimed names distinct and never removes or changes
/// a claim.
pub proof fn lemma_claims_stay(start: Seq<RequestView>, begun: Seq<RequestView>)
    requires
        distinct_names(start),
    ensures
        distinct_names(claims_after(start, begun)),
        start.is_prefix_of(claims_after(start, begun)),
    decreases begun.len(),
{
    if begun.len() > 0 {
        let shorter = begun.drop_last();
        lemma_claims_stay(start, shorter);
        let before = claims_after(start, shorter);
        let after = claims_after(start, begun);
        if !names(before, begun.last().name) {
            assert forall|a: int, b: int| 0 <= a < b < after.len() implies (#[trigger] after[a]).name
                != (#[trigger] after[b]).name by {
                if b == before.len() {
                    assert(before[a].name != begun.last().name);
                } else {
                    assert(before[a].name != before[b].name);
                }
            }
        }
    }
}

} // verus!
