//! The data that flows through a run: requests, registry documents and
//! archive references.

use vstd::prelude::*;

verus! {

/// An edge of the dependency graph: a package name and the range of versions
/// that the parent asks for.
#[derive(Clone, Debug)]
pub struct DependencyRequest {
    pub name: String,
    pub range_spec: String,
}

/// Mathematical model of a [`DependencyRequest`].
pub struct RequestView {
    pub name: Seq<char>,
    pub range_spec: Seq<char>,
}

impl View for DependencyRequest {
    type V = RequestView;

    open spec fn view(&self) -> RequestView {
        RequestView { name: self.name@, range_spec: self.range_spec@ }
    }
}

impl DependencyRequest {
    /// A request for `name` within `range_spec`.
    pub fn new(name: &str, range_spec: &str) -> (r: DependencyRequest)
        ensures
            r@ == (RequestView { name: name@, range_spec: range_spec@ }),
    {
        DependencyRequest { name: name.to_owned(), range_spec: range_spec.to_owned() }
    }

    /// A copy of this request.
    pub fn duplicate(&self) -> (r: DependencyRequest)
        ensures
            r@ == self@,
    {
        DependencyRequest { name: self.name.clone(), range_spec: self.range_spec.clone() }
    }
}

/// The models of a run of requests, in order.
pub open spec fn request_views(requests: Seq<DependencyRequest>) -> Seq<RequestView> {
    Seq::new(requests.len(), |i: int| requests[i]@)
}

/// The texts of a run of strings, in order.
pub open spec fn texts_of(strings: Seq<String>) -> Seq<Seq<char>> {
    Seq::new(strings.len(), |i: int| strings[i]@)
}

/// The registry's listing of a package: every key under which it lists a
/// publication, in the registry's order. Keys that are no versions, such as
/// the entries that date the package itself, are among them.
#[derive(Clone, Debug)]
pub struct PackageIndex {
    pub name: String,
    pub published_versions: Vec<String>,
}

/// Mathematical model of a [`PackageIndex`].
pub struct IndexView {
    pub name: Seq<char>,
    pub published_versions: Seq<Seq<char>>,
}

impl View for PackageIndex {
    type V = IndexView;

    open spec fn view(&self) -> IndexView {
        IndexView { name: self.name@, published_versions: texts_of(self.published_versions@) }
    }
}

/// Where the archive of one package version lies, and what it should hold.
#[derive(Clone, Debug)]
pub struct ArchiveRef {
    pub integrity: String,
    pub url: String,
    pub expected_file_count: Option<u64>,
}

/// Mathematical model of an [`ArchiveRef`].
pub struct ArchiveView {
    pub integrity: Seq<char>,
    pub url: Seq<char>,
    pub expected_file_count: Option<nat>,
}

impl View for ArchiveRef {
    type V = ArchiveView;

    open spec fn view(&self) -> ArchiveView {
        ArchiveView {
            integrity: self.integrity@,
            url: self.url@,
            expected_file_count: match self.expected_file_count {
                Some(n) => Some(n as nat),
                None => None,
            },
        }
    }
}

/// The manifest of one concrete version of a package.
#[derive(Clone, Debug)]
pub struct ResolvedPackage {
    pub name: String,
    pub version: String,
    pub dependencies: Vec<DependencyRequest>,
    pub dev_dependencies: Vec<DependencyRequest>,
    pub archive: ArchiveRef,
}

/// Mathematical model of a [`ResolvedPackage`].
pub struct PackageView {
    pub name: Seq<char>,
    pub version: Seq<char>,
    pub dependencies: Seq<RequestView>,
    pub dev_dependencies: Seq<RequestView>,
    pub archive: ArchiveView,
}

impl View for ResolvedPackage {
    type V = PackageView;

    open spec fn view(&self) -> PackageView {
        PackageView {
            name: self.name@,
            version: self.version@,
            dependencies: request_views(self.dependencies@),
            dev_dependencies: request_views(self.dev_dependencies@),
            archive: self.archive@,
        }
    }
}

impl PackageView {
    /// Runtime and development dependencies, the former first.
    pub open spec fn combined_dependencies(self) -> Seq<RequestView> {
        self.dependencies + self.dev_dependencies
    }
}

/// The manifest of the project whose dependencies are installed.
#[derive(Clone, Debug)]
pub struct RootManifest {
    pub name: String,
    pub dependencies: Vec<DependencyRequest>,
    pub dev_dependencies: Vec<DependencyRequest>,
}

/// Mathematical model of a [`RootManifest`].
pub struct ManifestView {
    pub name: Seq<char>,
    pub dependencies: Seq<RequestView>,
    pub dev_dependencies: Seq<RequestView>,
}

impl View for RootManifest {
    type V = ManifestView;

    open spec fn view(&self) -> ManifestView {
        ManifestView {
            name: self.name@,
            dependencies: request_views(self.dependencies@),
            dev_dependencies: request_views(self.dev_dependencies@),
        }
    }
}

} // verus!
