//! The write-once store behind the registry client: an `elsa::FrozenMap`
//! from resource keys to fetched resources.

use crate::model::{IndexView, PackageIndex, PackageView, ResolvedPackage};
use elsa::FrozenMap;
use vstd::prelude::*;

verus! {

/// A resource fetched from the registry.
#[derive(Clone, Debug)]
pub enum Resource {
    /// The index of a package.
    Index(PackageIndex),
    /// The manifest of one version of a package.
    Manifest(ResolvedPackage),
    /// The bytes of an archive.
    Archive(Vec<u8>),
}

/// Mathematical model of a [`Resource`].
pub enum ResourceView {
    Index(IndexView),
    Manifest(PackageView),
    Archive(Seq<u8>),
}

impl View for Resource {
    type V = ResourceView;

    open spec fn view(&self) -> ResourceView {
        match self {
            Resource::Index(index) => ResourceView::Index(index@),
            Resource::Manifest(package) => ResourceView::Manifest(package@),
            Resource::Archive(bytes) => ResourceView::Archive(bytes@),
        }
    }
}

#[verifier::external_type_specification]
#[verifier::external_body]
#[verifier::reject_recursive_types(K)]
#[verifier::reject_recursive_types(V)]
#[verifier::reject_recursive_types(S)]
pub struct ExFrozenMap<K, V, S>(FrozenMap<K, V, S>);

/// What a store holds: the resource under each key.
pub uninterp spec fn stored(store: FrozenMap<String, Box<Resource>>) -> Map<Seq<char>, ResourceView>;

/// A store without entries.
pub open spec fn nothing_stored() -> Map<Seq<char>, ResourceView> {
    Map::empty()
}

/// What a store holds after `value` was offered under `key`: the first value
/// written under a key stays.
pub open spec fn stored_after(
    before: Map<Seq<char>, ResourceView>,
    key: Seq<char>,
    value: ResourceView,
) -> Map<Seq<char>, ResourceView> {
    if before.contains_key(key) {
        before
    } else {
        before.insert(key, value)
    }
}

/// Calls `FrozenMap::new`, which makes a map without entries.
#[verifier::external_body]
pub(crate) fn empty_store() -> (r: FrozenMap<String, Box<Resource>>)
    ensures
        stored(r) == nothing_stored(),
{
    FrozenMap::new()
}

/// Calls `FrozenMap::get`, which hands out the value under a key, if the map
/// has one.
#[verifier::external_body]
pub(crate) fn store_get<'a>(store: &'a FrozenMap<String, Box<Resource>>, key: &str) -> (r: Option<
    &'a Resource,
>)
    ensures
        match r {
            Some(value) => stored(*store).contains_key(key@) && stored(*store)[key@] == value@,
            None => !stored(*store).contains_key(key@),
        },
{
    store.get(key)
}

/// Calls `FrozenMap::insert`, which enters the value under the key unless the
/// key has a value already, and never changes or removes an entry.
#[verifier::external_body]
pub(crate) fn store_insert(store: &mut FrozenMap<String, Box<Resource>>, key: String, value: Resource)
    ensures
        stored(*final(store)) == stored_after(stored(*old(store)), key@, value@),
{
    store.insert(key, Box::new(value));
}

} // verus!
