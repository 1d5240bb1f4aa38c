//! The registry client without its transport: which address a resource is
//! asked at, what is kept of the answers, and what follows from each answer.

use crate::cache::{
    empty_store, nothing_stored, store_get, store_insert, stored, stored_after, Resource,
    ResourceView,
};
use crate::error::InstallError;
use crate::model::ArchiveRef;
use elsa::FrozenMap;
use vstd::prelude::*;
use crate::text::same_text;
use vstd::string::*;

verus! {

/// The public registry.
pub const REGISTRY_URL: &'static str = "http://registry.npmjs.org";

/// The header that identifies the client to the registry.
pub const CLIENT_HEADER: &'static str = "User-Agent";

/// The value sent under [`CLIENT_HEADER`] with every request.
pub const CLIENT_NAME: &'static str = "Razee (Node Package Manger in Rust)";

/// The alias under which the registry serves a package's latest manifest.
pub const LATEST_ALIAS: &'static str = "latest";

/// The kinds of resources that the registry serves.
#[derive(Clone, Copy, Debug, PartialEq, Eq, Structural)]
pub enum ResourceKind {
    Index,
    Manifest,
    Archive,
}

/// The kind of a resource.
pub open spec fn kind_of(resource: ResourceView) -> ResourceKind {
    match resource {
        ResourceView::Index(_) => ResourceKind::Index,
        ResourceView::Manifest(_) => ResourceKind::Manifest,
        ResourceView::Archive(_) => ResourceKind::Archive,
    }
}

/// A GET request for one resource.
#[derive(Clone, Debug)]
pub struct Request {
    /// The kind of resource asked for.
    pub kind: ResourceKind,
    /// The key under which the answer is kept.
    pub key: String,
    /// The address to ask.
    pub url: String,
    /// The address to ask once more where the first one is refused.
    pub fallback: Option<String>,
}

impl Request {
    /// The header that goes out with this request, as name and value: every
    /// request identifies the client.
    pub fn header(&self) -> (pair: (&'static str, &'static str))
        ensures
            pair.0@ == CLIENT_HEADER@,
            pair.1@ == CLIENT_NAME@,
    {
        (CLIENT_HEADER, CLIENT_NAME)
    }
}

/// Mathematical model of a [`Request`].
pub struct RequestModel {
    pub kind: ResourceKind,
    pub key: Seq<char>,
    pub url: Seq<char>,
    pub fallback: Option<Seq<char>>,
}

impl View for Request {
    type V = RequestModel;

    open spec fn view(&self) -> RequestModel {
        RequestModel {
            kind: self.kind,
            key: self.key@,
            url: self.url@,
            fallback: match self.fallback {
                Some(url) => Some(url@),
                None => None,
            },
        }
    }
}

/// The address of a package's index.
pub open spec fn package_url(registry: Seq<char>, name: Seq<char>) -> Seq<char> {
    registry + seq!['/'] + name
}

/// The address of the manifest of one version of a package.
pub open spec fn dependency_url(registry: Seq<char>, name: Seq<char>, version: Seq<char>) -> Seq<
    char,
> {
    registry + seq!['/'] + name + seq!['/'] + version
}

/// The request for a package's index. It has no fallback.
pub open spec fn package_request(registry: Seq<char>, name: Seq<char>) -> RequestModel {
    RequestModel {
        kind: ResourceKind::Index,
        key: package_url(registry, name),
        url: package_url(registry, name),
        fallback: None,
    }
}

/// The request for the manifest of one version. Where it is refused, the
/// manifest under the latest alias is asked for instead, once.
pub open spec fn dependency_request(
    registry: Seq<char>,
    name: Seq<char>,
    version: Seq<char>,
) -> RequestModel {
    RequestModel {
        kind: ResourceKind::Manifest,
        key: dependency_url(registry, name, version),
        url: dependency_url(registry, name, version),
        fallback: Some(dependency_url(registry, name, LATEST_ALIAS@)),
    }
}

/// The request for an archive. It has no fallback.
pub open spec fn tarball_request(url: Seq<char>) -> RequestModel {
    RequestModel { kind: ResourceKind::Archive, key: url, url, fallback: None }
}

/// What came back for a request.
#[derive(Debug)]
pub enum Reply {
    /// The transport gave up.
    Unreachable,
    /// The registry answered with a status other than success.
    Refused,
    /// The registry answered with success, but the body is no document of
    /// the expected shape.
    Malformed,
    /// The registry answered with success and this document.
    Document(Resource),
}

/// Mathematical model of a [`Reply`].
pub enum ReplyView {
    Unreachable,
    Refused,
    Malformed,
    Document(ResourceView),
}

impl View for Reply {
    type V = ReplyView;

    open spec fn view(&self) -> ReplyView {
        match self {
            Reply::Unreachable => ReplyView::Unreachable,
            Reply::Refused => ReplyView::Refused,
            Reply::Malformed => ReplyView::Malformed,
            Reply::Document(resource) => ReplyView::Document(resource@),
        }
    }
}

/// What the client wants next for a resource.
#[derive(Debug)]
pub enum Fetch<'a> {
    /// The resource is in the cache: nothing is sent.
    Cached(&'a Resource),
    /// The resource has to be asked for: reserve this request, send it and
    /// settle the reply.
    Wanted(Request),
}

/// What follows from a reply.
#[derive(Debug)]
pub enum Progress {
    /// The resource is in the cache now, under the request's key.
    Stored,
    /// Send this request instead.
    Retry(Request),
    /// The fetch has failed.
    Failed(InstallError),
}

/// Mathematical model of a [`Progress`].
pub enum ProgressView {
    Stored,
    Retry(RequestModel),
    Failed(InstallError),
}

impl View for Progress {
    type V = ProgressView;

    open spec fn view(&self) -> ProgressView {
        match self {
            Progress::Stored => ProgressView::Stored,
            Progress::Retry(request) => ProgressView::Retry(request@),
            Progress::Failed(e) => ProgressView::Failed(*e),
        }
    }
}

/// What follows from a reply to a request: a document of the kind asked for
/// is stored; a body of another shape is a parse error; a transport failure
/// is a network error; a refusal leads to the fallback where the request has
/// one, and is a network error where it has none.
pub open spec fn progress_after(request: RequestModel, reply: ReplyView) -> ProgressView {
    match reply {
        ReplyView::Document(document) => if kind_of(document) == request.kind {
            ProgressView::Stored
        } else {
            ProgressView::Failed(InstallError::Parse)
        },
        ReplyView::Malformed => ProgressView::Failed(InstallError::Parse),
        ReplyView::Unreachable => ProgressView::Failed(InstallError::Network),
        ReplyView::Refused => match request.fallback {
            Some(url) => ProgressView::Retry(
                RequestModel { kind: request.kind, key: request.key, url, fallback: None },
            ),
            None => ProgressView::Failed(InstallError::Network),
        },
    }
}

/// What the caches hold after a reply to a request: a document of the kind
/// asked for is entered under the request's key, unless the key has a value
/// already; nothing else changes.
pub open spec fn cached_after(
    before: Map<Seq<char>, ResourceView>,
    kind: ResourceKind,
    request: RequestModel,
    reply: ReplyView,
) -> Map<Seq<char>, ResourceView> {
    match reply {
        ReplyView::Document(document) => if kind == request.kind && kind_of(document)
            == request.kind {
            stored_after(before, request.key, document)
        } else {
            before
        },
        _ => before,
    }
}

/// A cache is write-once: a reply never changes or removes what a key holds.
pub proof fn lemma_cache_is_write_once(
    before: Map<Seq<char>, ResourceView>,
    kind: ResourceKind,
    request: RequestModel,
    reply: ReplyView,
    key: Seq<char>,
)
    requires
        before.contains_key(key),
    ensures
        cached_after(before, kind, request, reply).contains_key(key),
        cached_after(before, kind, request, reply)[key] == before[key],
{
}

/// Two documents offered under one key: the first one stays, whatever the
/// second one holds.
pub proof fn lemma_first_writer_wins(
    before: Map<Seq<char>, ResourceView>,
    request: RequestModel,
    first: ResourceView,
    second: ResourceView,
)
    requires
        !before.contains_key(request.key),
        kind_of(first) == request.kind,
    ensures
        cached_after(
            cached_after(before, request.kind, request, ReplyView::Document(first)),
            request.kind,
            request,
            ReplyView::Document(second),
        )[request.key] == first,
{
}

/// The registry client: the registry's address, one write-once cache for
/// each kind of resource, and the requests that are under way.
pub struct HttpClient {
    registry: String,
    package_cache: FrozenMap<String, Box<Resource>>,
    dependency_cache: FrozenMap<String, Box<Resource>>,
    tarball_cache: FrozenMap<String, Box<Resource>>,
    flights: Vec<Flight>,
}

/// A request that was handed out and whose reply has not been settled.
struct Flight {
    kind: ResourceKind,
    key: String,
}

impl HttpClient {
    /// The address of the registry that this client asks.
    pub closed spec fn registry(&self) -> Seq<char> {
        self.registry@
    }

    /// What the cache for resources of `kind` holds, by key.
    pub closed spec fn cached(&self, kind: ResourceKind) -> Map<Seq<char>, ResourceView> {
        match kind {
            ResourceKind::Index => stored(self.package_cache),
            ResourceKind::Manifest => stored(self.dependency_cache),
            ResourceKind::Archive => stored(self.tarball_cache),
        }
    }

    /// A request for the resource of `kind` under `key` is under way: it was
    /// reserved and its reply has not been settled.
    pub closed spec fn in_flight(&self, kind: ResourceKind, key: Seq<char>) -> bool {
        exists|i: int|
            0 <= i < self.flights@.len() && (#[trigger] self.flights@[i]).kind == kind
                && self.flights@[i].key@ == key
    }

    /// Each cache holds resources of its own kind only, and no request is
    /// under way twice.
    pub closed spec fn well_formed(&self) -> bool {
        &&& forall|kind: ResourceKind, key: Seq<char>| #[trigger]
            self.cached(kind).contains_key(key) ==> kind_of(self.cached(kind)[key]) == kind
        &&& forall|i: int, j: int|
            0 <= i < j < self.flights@.len() ==> !((#[trigger] self.flights@[i]).kind == (
            #[trigger] self.flights@[j]).kind && self.flights@[i].key@ == self.flights@[j].key@)
    }

    /// A client of the public registry with empty caches.
    pub fn new() -> (client: HttpClient)
        ensures
            client.well_formed(),
            client.registry() == REGISTRY_URL@,
            forall|kind: ResourceKind| #[trigger] client.cached(kind) == nothing_stored(),
            forall|kind: ResourceKind, key: Seq<char>| !#[trigger] client.in_flight(kind, key),
    {
        HttpClient::with_registry(REGISTRY_URL)
    }

    /// A client of the registry at `registry` with empty caches.
    pub fn with_registry(registry: &str) -> (client: HttpClient)
        ensures
            client.well_formed(),
            client.registry() == registry@,
            forall|kind: ResourceKind| #[trigger] client.cached(kind) == nothing_stored(),
            forall|kind: ResourceKind, key: Seq<char>| !#[trigger] client.in_flight(kind, key),
    {
        HttpClient {
            registry: String::from_str(registry),
            package_cache: empty_store(),
            dependency_cache: empty_store(),
            tarball_cache: empty_store(),
            flights: Vec::new(),
        }
    }

    /// The address made of the registry's address and the given path
    /// segments.
    fn address(&self, name: &str, version: Option<&str>) -> (url: String)
        ensures
            url@ == match version {
                Some(v) => dependency_url(self.registry(), name@, v@),
                None => package_url(self.registry(), name@),
            },
    {
        let mut url = self.registry.clone();
        url.append("/");
        url.append(name);
        proof {
            reveal_strlit("/");
            assert("/"@ =~= seq!['/']);
        }
        if let Some(v) = version {
            url.append("/");
            url.append(v);
        }
        url
    }

    /// The cache for resources of `kind`.
    fn cache(&self, kind: ResourceKind) -> (store: &FrozenMap<String, Box<Resource>>)
        ensures
            stored(*store) == self.cached(kind),
    {
        match kind {
            ResourceKind::Index => &self.package_cache,
            ResourceKind::Manifest => &self.dependency_cache,
            ResourceKind::Archive => &self.tarball_cache,
        }
    }

    /// The cached resource for a request, if its key has one. A resource
    /// found under a request's key is of the kind that the request asks for.
    pub fn lookup(&self, request: &Request) -> (found: Option<&Resource>)
        requires
            self.well_formed(),
        ensures
            match found {
                Some(resource) => self.cached(request.kind).contains_key(request.key@)
                    && self.cached(request.kind)[request.key@] == resource@ && kind_of(resource@)
                    == request.kind,
                None => !self.cached(request.kind).contains_key(request.key@),
            },
    {
        let found = store_get(self.cache(request.kind), request.key.as_str());
        proof {
            if found is Some {
                assert(self.cached(request.kind).contains_key(request.key@));
            }
        }
        found
    }

    /// Consults the cache for `request` and asks for the resource only where
    /// the cache has none.
    fn consult(&self, request: Request) -> (fetch: Fetch<'_>)
        requires
            self.well_formed(),
        ensures
            match fetch {
                Fetch::Cached(resource) => self.cached(request.kind).contains_key(request.key@)
                    && self.cached(request.kind)[request.key@] == resource@ && kind_of(resource@)
                    == request.kind,
                Fetch::Wanted(wanted) => wanted == request && !self.cached(
                    request.kind,
                ).contains_key(request.key@),
            },
    {
        match self.lookup(&request) {
            Some(resource) => Fetch::Cached(resource),
            None => Fetch::Wanted(request),
        }
    }

    /// Fetches the index of the package `name`: from the cache, or by the
    /// request that is handed back.
    pub fn fetch_package(&self, name: &str) -> (fetch: Fetch<'_>)
        requires
            self.well_formed(),
        ensures
            match fetch {
                Fetch::Cached(resource) => self.cached(ResourceKind::Index).contains_key(
                    package_url(self.registry(), name@),
                ) && self.cached(ResourceKind::Index)[package_url(self.registry(), name@)]
                    == resource@ && resource@ is Index,
                Fetch::Wanted(wanted) => wanted@ == package_request(self.registry(), name@)
                    && !self.cached(ResourceKind::Index).contains_key(
                    package_url(self.registry(), name@),
                ),
            },
    {
        let url = self.address(name, None);
        self.consult(
            Request { kind: ResourceKind::Index, key: url.clone(), url, fallback: None },
        )
    }

    /// Fetches the manifest of the version `version` of the package `name`:
    /// from the cache, or by the request that is handed back.
    pub fn fetch_dependency(&self, name: &str, version: &str) -> (fetch: Fetch<'_>)
        requires
            self.well_formed(),
        ensures
            match fetch {
                Fetch::Cached(resource) => self.cached(ResourceKind::Manifest).contains_key(
                    dependency_url(self.registry(), name@, version@),
                ) && self.cached(ResourceKind::Manifest)[dependency_url(
                    self.registry(),
                    name@,
                    version@,
                )] == resource@ && resource@ is Manifest,
                Fetch::Wanted(wanted) => wanted@ == dependency_request(
                    self.registry(),
                    name@,
                    version@,
                ) && !self.cached(ResourceKind::Manifest).contains_key(
                    dependency_url(self.registry(), name@, version@),
                ),
            },
    {
        let url = self.address(name, Some(version));
        let latest = self.address(name, Some(LATEST_ALIAS));
        self.consult(
            Request {
                kind: ResourceKind::Manifest,
                key: url.clone(),
                url,
                fallback: Some(latest),
            },
        )
    }

    /// Fetches the bytes of an archive: from the cache, or by the request
    /// that is handed back.
    pub fn fetch_tarball(&self, archive: &ArchiveRef) -> (fetch: Fetch<'_>)
        requires
            self.well_formed(),
        ensures
            match fetch {
                Fetch::Cached(resource) => self.cached(ResourceKind::Archive).contains_key(
                    archive@.url,
                ) && self.cached(ResourceKind::Archive)[archive@.url] == resource@ && resource@
                    is Archive,
                Fetch::Wanted(wanted) => wanted@ == tarball_request(archive@.url) && !self.cached(
                    ResourceKind::Archive,
                ).contains_key(archive@.url),
            },
    {
        self.consult(
            Request {
                kind: ResourceKind::Archive,
                key: archive.url.clone(),
                url: archive.url.clone(),
                fallback: None,
            },
        )
    }

    /// The place of the request for `kind` and `key` among those under way.
    fn flight_of(&self, kind: ResourceKind, key: &str) -> (place: Option<usize>)
        ensures
            match place {
                Some(i) => i < self.flights@.len() && self.flights@[i as int].kind == kind
                    && self.flights@[i as int].key@ == key@,
                None => !self.in_flight(kind, key@),
            },
    {
        let mut i: usize = 0;
        while i < self.flights.len()
            invariant
                i <= self.flights.len(),
                forall|j: int|
                    0 <= j < i ==> !((#[trigger] self.flights@[j]).kind == kind
                        && self.flights@[j].key@ == key@),
            decreases self.flights.len() - i,
        {
            if self.flights[i].kind == kind && same_text(self.flights[i].key.as_str(), key) {
                return Some(i);
            }
            i += 1;
        }
        None
    }

    /// Reserves `request` for the caller, who then sends it and settles the
    /// reply. The reservation is refused where the resource is cached or a
    /// request for the same key is under way: of several callers that want
    /// one resource at the same time, one does the work, and the others find
    /// its result in the cache.
    pub fn reserve(&mut self, request: &Request) -> (granted: bool)
        requires
            old(self).well_formed(),
        ensures
            final(self).well_formed(),
            final(self).registry() == old(self).registry(),
            forall|kind: ResourceKind| #[trigger] final(self).cached(kind) == old(self).cached(kind),
            granted == (!old(self).in_flight(request.kind, request.key@) && !old(self).cached(
                request.kind,
            ).contains_key(request.key@)),
            forall|kind: ResourceKind, key: Seq<char>| #[trigger]
                final(self).in_flight(kind, key) == (old(self).in_flight(kind, key) || (granted
                    && kind == request.kind && key == request.key@)),
    {
        if self.lookup(request).is_some() {
            return false;
        }
        if self.flight_of(request.kind, request.key.as_str()).is_some() {
            return false;
        }
        let ghost before = self.flights@;
        self.flights.push(Flight { kind: request.kind, key: request.key.clone() });
        proof {
            let added = self.flights@[before.len() as int];
            assert forall|kind: ResourceKind, key: Seq<char>| #[trigger]
                self.in_flight(kind, key) == (old(self).in_flight(kind, key) || (kind
                    == request.kind && key == request.key@)) by {
                if old(self).in_flight(kind, key) {
                    let i = choose|i: int|
                        0 <= i < before.len() && (#[trigger] before[i]).kind == kind
                            && before[i].key@ == key;
                    assert(self.flights@[i] == before[i]);
                }
                if kind == request.kind && key == request.key@ {
                    assert(added.kind == kind && added.key@ == key);
                }
                if self.in_flight(kind, key) {
                    let i = choose|i: int|
                        0 <= i < self.flights@.len() && (#[trigger] self.flights@[i]).kind == kind
                            && self.flights@[i].key@ == key;
                    if i < before.len() {
                        assert(before[i] == self.flights@[i]);
                    }
                }
            }
            assert forall|i: int, j: int| 0 <= i < j < self.flights@.len() implies !((
            #[trigger] self.flights@[i]).kind == (#[trigger] self.flights@[j]).kind
                && self.flights@[i].key@ == self.flights@[j].key@) by {
                assert(self.flights@[i] == before[i]);
                if j < before.len() {
                    assert(self.flights@[j] == before[j]);
                } else if before[i].kind == request.kind && before[i].key@ == request.key@ {
                    assert(old(self).in_flight(request.kind, request.key@));
                }
            }
            assert forall|kind: ResourceKind, key: Seq<char>| #[trigger]
                self.cached(kind).contains_key(key) implies kind_of(self.cached(kind)[key])
                == kind by {
                assert(old(self).cached(kind).contains_key(key));
            }
        }
        true
    }

    /// Ends the flight of the request for `kind` and `key`, if there is one.
    fn release(&mut self, kind: ResourceKind, key: &str)
        requires
            old(self).well_formed(),
        ensures
            final(self).well_formed(),
            final(self).registry() == old(self).registry(),
            forall|k: ResourceKind| #[trigger] final(self).cached(k) == old(self).cached(k),
            forall|k: ResourceKind, other: Seq<char>| #[trigger]
                final(self).in_flight(k, other) == (old(self).in_flight(k, other) && !(k == kind
                    && other == key@)),
    {
        match self.flight_of(kind, key) {
            Some(place) => {
                let ghost before = self.flights@;
                let _ = self.flights.remove(place);
                proof {
                    let after = self.flights@;
                    assert(after =~= before.remove(place as int));
                    assert forall|k: ResourceKind, other: Seq<char>| #[trigger]
                        self.in_flight(k, other) == (old(self).in_flight(k, other) && !(k == kind
                            && other == key@)) by {
                        if self.in_flight(k, other) {
                            let i = choose|i: int|
                                0 <= i < after.len() && (#[trigger] after[i]).kind == k
                                    && after[i].key@ == other;
                            let from = if i < place {
                                i
                            } else {
                                i + 1
                            };
                            assert(before[from] == after[i]);
                        }
                        if old(self).in_flight(k, other) && !(k == kind && other == key@) {
                            let i = choose|i: int|
                                0 <= i < before.len() && (#[trigger] before[i]).kind == k
                                    && before[i].key@ == other;
                            let to = if i < place {
                                i
                            } else {
                                i - 1
                            };
                            assert(after[to] == before[i]);
                        }
                    }
                    assert forall|i: int, j: int| 0 <= i < j < after.len() implies !((
                    #[trigger] after[i]).kind == (#[trigger] after[j]).kind && after[i].key@
                        == after[j].key@) by {
                        let from_i = if i < place {
                            i
                        } else {
                            i + 1
                        };
                        let from_j = if j < place {
                            j
                        } else {
                            j + 1
                        };
                        assert(before[from_i] == after[i]);
                        assert(before[from_j] == after[j]);
                    }
                    assert forall|k: ResourceKind, other: Seq<char>| #[trigger]
                        self.cached(k).contains_key(other) implies kind_of(
                        self.cached(k)[other],
                    ) == k by {
                        assert(old(self).cached(k).contains_key(other));
                    }
                }
            },
            None => {},
        }
    }

    /// Takes the reply to `request` and says what follows. A document of the
    /// kind asked for is entered into the cache under the request's key; if
    /// the key has a value already, that value stays and the new one is
    /// dropped. No entry of any cache is ever changed or removed. The flight
    /// of the request ends unless the request is to be sent again.
    pub fn settle(&mut self, request: Request, reply: Reply) -> (progress: Progress)
        requires
            old(self).well_formed(),
        ensures
            final(self).well_formed(),
            progress@ == progress_after(request@, reply@),
            final(self).registry() == old(self).registry(),
            forall|kind: ResourceKind| #[trigger]
                final(self).cached(kind) == cached_after(
                    old(self).cached(kind),
                    kind,
                    request@,
                    reply@,
                ),
            progress is Stored ==> final(self).cached(request.kind).contains_key(request.key@),
            forall|kind: ResourceKind, key: Seq<char>| #[trigger]
                final(self).in_flight(kind, key) == (old(self).in_flight(kind, key) && !(progress
                    !is Retry && kind == request.kind && key == request.key@)),
    {
        let kind = request.kind;
        match reply {
            Reply::Document(resource) => {
                let fits = match (&resource, kind) {
                    (Resource::Index(_), ResourceKind::Index) => true,
                    (Resource::Manifest(_), ResourceKind::Manifest) => true,
                    (Resource::Archive(_), ResourceKind::Archive) => true,
                    _ => false,
                };
                if !fits {
                    self.release(kind, request.key.as_str());
                    return Progress::Failed(InstallError::Parse);
                }
                let key = request.key.clone();
                let ghost entered = resource@;
                match kind {
                    ResourceKind::Index => store_insert(
                        &mut self.package_cache,
                        request.key,
                        resource,
                    ),
                    ResourceKind::Manifest => store_insert(
                        &mut self.dependency_cache,
                        request.key,
                        resource,
                    ),
                    ResourceKind::Archive => store_insert(
                        &mut self.tarball_cache,
                        request.key,
                        resource,
                    ),
                }
                proof {
                    assert(self.flights@ == old(self).flights@);
                    assert forall|k: ResourceKind, other: Seq<char>| #[trigger]
                        self.cached(k).contains_key(other) implies kind_of(
                        self.cached(k)[other],
                    ) == k by {
                        if k == kind {
                            assert(self.cached(k) == stored_after(
                                old(self).cached(k),
                                key@,
                                entered,
                            ));
                            if other != key@ || old(self).cached(k).contains_key(other) {
                                assert(old(self).cached(k).contains_key(other));
                            }
                        } else {
                            assert(self.cached(k) == old(self).cached(k));
                            assert(old(self).cached(k).contains_key(other));
                        }
                    }
                    assert forall|k: ResourceKind, other: Seq<char>| #[trigger]
                        self.in_flight(k, other) == old(self).in_flight(k, other) by {
                    }
                }
                self.release(kind, key.as_str());
                Progress::Stored
            },
            Reply::Malformed => {
                self.release(kind, request.key.as_str());
                Progress::Failed(InstallError::Parse)
            },
            Reply::Unreachable => {
                self.release(kind, request.key.as_str());
                Progress::Failed(InstallError::Network)
            },
            Reply::Refused => match request.fallback {
                Some(url) => Progress::Retry(
                    Request { kind, key: request.key, url, fallback: None },
                ),
                None => {
                    self.release(kind, request.key.as_str());
                    Progress::Failed(InstallError::Network)
                },
            },
        }
    }
}

} // verus!
