//! Installing one package: whether an install is already in place, what an
//! archive holds, and where each of its entries goes.

use crate::error::InstallError;
use crate::model::{texts_of, ArchiveRef};
use crate::paths::{entry_target, install_dir, parent_dir, parent_of, target_path};
use vstd::prelude::*;
use vstd::string::*;

verus! {

/// The file that marks an installed package: its own manifest.
pub const MARKER_FILE: &'static str = "package.json";

/// What is found on disk where a package would be installed.
#[derive(Clone, Copy, Debug, PartialEq, Eq, Structural)]
pub struct InstalledState {
    /// The package's directory exists.
    pub exists: bool,
    /// The number of regular files below that directory.
    pub file_count: u64,
    /// The marker file exists in that directory.
    pub has_marker: bool,
}

/// An install that is in place and verified: the directory exists, and it
/// holds as many files as the archive declares or, where the archive declares
/// no count, the marker file.
pub open spec fn install_in_place(expected_file_count: Option<nat>, state: InstalledState) -> bool {
    state.exists && match expected_file_count {
        Some(n) => state.file_count == n,
        None => state.has_marker,
    }
}

/// What to do first for a package.
#[derive(Clone, Debug)]
pub enum InstallStep {
    /// The install is in place: nothing is fetched and nothing is written.
    Skip,
    /// Fetch the archive at this address and extract it.
    Fetch(String),
}

/// The directory of the package `name` under the install root `root`.
pub fn package_dir(root: &str, name: &str) -> (dir: String)
    ensures
        dir@ == install_dir(root@, name@),
{
    let mut dir = String::from_str(root);
    dir.append("/");
    dir.append(name);
    proof {
        reveal_strlit("/");
        assert("/"@ =~= seq!['/']);
    }
    dir
}

/// The path of the marker file of the package `name` under `root`.
pub fn marker_path(root: &str, name: &str) -> (path: String)
    ensures
        path@ == install_dir(root@, name@) + seq!['/'] + MARKER_FILE@,
{
    let mut path = package_dir(root, name);
    path.append("/");
    path.append(MARKER_FILE);
    proof {
        reveal_strlit("/");
        assert("/"@ =~= seq!['/']);
    }
    path
}

/// Decides whether the package has to be fetched at all, from what is on
/// disk.
pub fn begin_install(archive: &ArchiveRef, state: &InstalledState) -> (step: InstallStep)
    ensures
        match step {
            InstallStep::Skip => install_in_place(archive@.expected_file_count, *state),
            InstallStep::Fetch(url) => !install_in_place(archive@.expected_file_count, *state)
                && url@ == archive@.url,
        },
{
    let in_place = state.exists && match archive.expected_file_count {
        Some(n) => state.file_count == n,
        None => state.has_marker,
    };
    if in_place {
        InstallStep::Skip
    } else {
        InstallStep::Fetch(archive.url.clone())
    }
}

/// Where one entry of an archive goes.
#[derive(Clone, Debug)]
pub struct EntryPlan {
    /// The path of the file.
    pub target: String,
    /// The directory to create before the file is written, if the path has
    /// one.
    pub parent: Option<String>,
}

/// Mathematical model of an [`EntryPlan`].
pub struct EntryPlanView {
    pub target: Seq<char>,
    pub parent: Option<Seq<char>>,
}

impl View for EntryPlan {
    type V = EntryPlanView;

    open spec fn view(&self) -> EntryPlanView {
        EntryPlanView {
            target: self.target@,
            parent: match self.parent {
                Some(dir) => Some(dir@),
                None => None,
            },
        }
    }
}

/// What to do with one entry once its directory is there.
#[derive(Clone, Copy, Debug, PartialEq, Eq, Structural)]
pub enum EntryAction {
    /// The file exists already and is left as it is.
    Keep,
    /// The file is written.
    Write,
}

/// An existing file is never overwritten.
pub fn entry_action(target_exists: bool) -> (action: EntryAction)
    ensures
        action == if target_exists {
            EntryAction::Keep
        } else {
            EntryAction::Write
        },
{
    if target_exists {
        EntryAction::Keep
    } else {
        EntryAction::Write
    }
}

/// The plan for the entry stored as `entry`.
pub open spec fn entry_plan(root: Seq<char>, name: Seq<char>, entry: Seq<char>) -> EntryPlanView {
    EntryPlanView {
        target: target_path(root, name, entry),
        parent: parent_of(target_path(root, name, entry)),
    }
}

/// The plans for all entries of an archive, in the archive's order.
pub open spec fn install_plan(root: Seq<char>, name: Seq<char>, entries: Seq<Seq<char>>) -> Seq<
    EntryPlanView,
> {
    Seq::new(entries.len(), |i: int| entry_plan(root, name, entries[i]))
}

/// The models of a run of plans, in order.
pub open spec fn plan_views(plans: Seq<EntryPlan>) -> Seq<EntryPlanView> {
    Seq::new(plans.len(), |i: int| plans[i]@)
}

/// Plans where each of the stored paths `entries` goes for the package `name`
/// under the install root `root`.
pub fn plan_entries(root: &str, name: &str, entries: &Vec<String>) -> (plans: Vec<EntryPlan>)
    ensures
        plan_views(plans@) == install_plan(root@, name@, texts_of(entries@)),
{
    let mut plans: Vec<EntryPlan> = Vec::new();
    let mut i: usize = 0;
    while i < entries.len()
        invariant
            i <= entries.len(),
            plans.len() == i,
            forall|j: int|
                0 <= j < i ==> (#[trigger] plans@[j])@ == entry_plan(root@, name@, entries@[j]@),
        decreases entries.len() - i,
    {
        let target = entry_target(root, name, entries[i].as_str());
        let parent = parent_dir(target.as_str());
        plans.push(EntryPlan { target, parent });
        i += 1;
    }
    assert(plan_views(plans@) =~= install_plan(root@, name@, texts_of(entries@)));
    plans
}

/// The stored paths of the entries of a gzip-compressed tar archive, in the
/// archive's order; `None` where the bytes are no such archive or a path is
/// not text.
pub uninterp spec fn archive_listing(bytes: Seq<u8>) -> Option<Seq<Seq<char>>>;

/// Reads `bytes` through `flate2::read::GzDecoder` and `tar::Archive`, walks
/// `Archive::entries` and takes each entry's `path`. The contract only names
/// the outcome: the same bytes always list the same paths.
#[verifier::external_body]
fn list_with_tar(bytes: &Vec<u8>) -> (r: Option<Vec<String>>)
    ensures
        r matches Some(paths) ==> archive_listing(bytes@) == Some(texts_of(paths@)),
        r is None ==> archive_listing(bytes@) is None,
{
    let mut archive = tar::Archive::new(flate2::read::GzDecoder::new(bytes.as_slice()));
    let entries = archive.entries().ok()?;
    entries.map(|entry| Some(entry.ok()?.path().ok()?.to_str()?.to_string())).collect()
}

/// The install plan of an archive, or the failure to read it.
pub open spec fn archive_plan(root: Seq<char>, name: Seq<char>, bytes: Seq<u8>) -> Result<
    Seq<EntryPlanView>,
    InstallError,
> {
    match archive_listing(bytes) {
        Some(entries) => Ok(install_plan(root, name, entries)),
        None => Err(InstallError::Extraction),
    }
}

/// Reads the archive `bytes` of the package `name` and plans where each of
/// its entries goes under the install root `root`. An archive that cannot be
/// read in full fails the install.
pub fn plan_archive(root: &str, name: &str, bytes: &Vec<u8>) -> (r: Result<
    Vec<EntryPlan>,
    InstallError,
>)
    ensures
        match r {
            Ok(plans) => archive_plan(root@, name@, bytes@) == Ok::<
                Seq<EntryPlanView>,
                InstallError,
            >(plan_views(plans@)),
            Err(e) => archive_plan(root@, name@, bytes@) == Err::<Seq<EntryPlanView>, InstallError>(
                e,
            ),
        },
{
    match list_with_tar(bytes) {
        Some(entries) => Ok(plan_entries(root, name, &entries)),
        None => Err(InstallError::Extraction),
    }
}

} // verus!
