//! The two collaborator contracts of the core: durable catalog storage and a
//! package-manager backend. Implementations outside this crate (a file-backed
//! store, a shell-invoking installer) are trusted to meet these contracts;
//! [`crate::storage::MemoryStorage`] is a verified storage implementation.

use vstd::prelude::*;
use vstd::string::StringExecFns;

use crate::models::{Category, CategoryView, InstallationTools, PackageData, PackageDataView,
    RawPackageData};

verus! {

pub type StoreResult<T> = Result<T, StoreError>;

/// A persistence-layer fault, carrying a diagnostic message.
#[derive(Debug)]
pub enum StoreError {
    InternalStoreError(String),
}

impl StoreError {
    /// The message carried by this failure.
    pub open spec fn message_spec(&self) -> Seq<char> {
        match self {
            StoreError::InternalStoreError(d) => d@,
        }
    }

    /// The human-readable message of this failure.
    pub fn message(&self) -> (r: String)
        ensures
            r@ == self.message_spec(),
    {
        match self {
            StoreError::InternalStoreError(d) => d.clone(),
        }
    }
}

/// Durable key-value persistence for two independent collections: categories
/// keyed by name and packages keyed by name.
///
/// The abstract state is a pair of maps from name to record. Mutating
/// operations are upserts or deletes on one map that leave the other map
/// unchanged; a failed mutation may leave its own map either unchanged or
/// fully updated (a store may fail after updating memory but before
/// persisting), and reads do not mutate at all.
pub trait PazckagerStorage: Sized {
    /// The stored categories, keyed by category name.
    spec fn categories(&self) -> Map<Seq<char>, CategoryView>;

    /// The stored packages, keyed by package name.
    spec fn packages(&self) -> Map<Seq<char>, PackageDataView>;

    /// Upsert by `category.category_name`.
    fn store_category(&mut self, category: Category) -> (r: StoreResult<()>)
        ensures
            r is Ok ==> final(self).categories()
                == old(self).categories().insert(category@.category_name, category@),
            r is Err ==> final(self).categories() == old(self).categories()
                || final(self).categories()
                    == old(self).categories().insert(category@.category_name, category@),
            final(self).packages() == old(self).packages(),
    ;

    /// All stored categories, each exactly once, in an unspecified order.
    fn get_categories(&self) -> (r: StoreResult<Vec<Category>>)
        ensures
            r matches Ok(v) ==> {
                &&& forall|i: int| 0 <= i < v@.len()
                    ==> self.categories().contains_pair((#[trigger] v@[i])@.category_name, v@[i]@)
                &&& forall|k: Seq<char>| self.categories().contains_key(k)
                    ==> exists|i: int| 0 <= i < v@.len() && (#[trigger] v@[i])@.category_name == k
                &&& forall|i: int, j: int| 0 <= i < j < v@.len()
                    ==> v@[i]@.category_name != v@[j]@.category_name
            },
    ;

    /// Whether a category of that name is stored.
    fn category_exists(&self, category_name: &str) -> (r: StoreResult<bool>)
        ensures
            r matches Ok(b) ==> b == self.categories().contains_key(category_name@),
    ;

    /// Clears the entire category collection.
    fn remove_category(&mut self) -> (r: StoreResult<()>)
        ensures
            r is Ok ==> final(self).categories() == Map::<Seq<char>, CategoryView>::empty(),
            r is Err ==> final(self).categories() == old(self).categories()
                || final(self).categories() == Map::<Seq<char>, CategoryView>::empty(),
            final(self).packages() == old(self).packages(),
    ;

    /// Upsert by `package.package_name`.
    fn store_package(&mut self, package: PackageData) -> (r: StoreResult<()>)
        ensures
            r is Ok ==> final(self).packages()
                == old(self).packages().insert(package@.package_name, package@),
            r is Err ==> final(self).packages() == old(self).packages()
                || final(self).packages()
                    == old(self).packages().insert(package@.package_name, package@),
            final(self).categories() == old(self).categories(),
    ;

    /// Upsert by `package.package_name`; present besides
    /// [`Self::store_package`] to make mutations of already-stored records
    /// explicit at call sites.
    fn update_package(&mut self, package: PackageData) -> (r: StoreResult<()>)
        ensures
            r is Ok ==> final(self).packages()
                == old(self).packages().insert(package@.package_name, package@),
            r is Err ==> final(self).packages() == old(self).packages()
                || final(self).packages()
                    == old(self).packages().insert(package@.package_name, package@),
            final(self).categories() == old(self).categories(),
    ;

    /// All stored packages, each exactly once, in an unspecified order.
    fn get_packages(&self) -> (r: StoreResult<Vec<PackageData>>)
        ensures
            r matches Ok(v) ==> {
                &&& forall|i: int| 0 <= i < v@.len()
                    ==> self.packages().contains_pair((#[trigger] v@[i])@.package_name, v@[i]@)
                &&& forall|k: Seq<char>| self.packages().contains_key(k)
                    ==> exists|i: int| 0 <= i < v@.len() && (#[trigger] v@[i])@.package_name == k
                &&& forall|i: int, j: int| 0 <= i < j < v@.len()
                    ==> v@[i]@.package_name != v@[j]@.package_name
            },
    ;

    /// Whether a package of that name is stored.
    fn package_exists(&self, package_name: &str) -> (r: StoreResult<bool>)
        ensures
            r matches Ok(b) ==> b == self.packages().contains_key(package_name@),
    ;

    /// The stored package of that name; fails if absent.
    fn get_package(&self, package_name: &str) -> (r: StoreResult<PackageData>)
        ensures
            r matches Ok(p) ==> self.packages().contains_key(package_name@)
                && p@ == self.packages()[package_name@]
                && p@.package_name == package_name@,
            !self.packages().contains_key(package_name@) ==> r is Err,
    ;

    /// Exactly the stored packages whose `category_name` equals the given
    /// one, each once, in an unspecified order; empty (not an error) when
    /// none match.
    fn get_packages_by_category(&self, category_name: &str) -> (r: StoreResult<Vec<PackageData>>)
        ensures
            r matches Ok(v) ==> {
                &&& forall|i: int| 0 <= i < v@.len()
                    ==> self.packages().contains_pair((#[trigger] v@[i])@.package_name, v@[i]@)
                        && v@[i]@.category_name == category_name@
                &&& forall|k: Seq<char>|
                    self.packages().contains_key(k)
                        && (#[trigger] self.packages()[k]).category_name == category_name@
                    ==> exists|i: int| 0 <= i < v@.len() && (#[trigger] v@[i])@.package_name == k
                &&& forall|i: int, j: int| 0 <= i < j < v@.len()
                    ==> v@[i]@.package_name != v@[j]@.package_name
            },
    ;

    /// Deletes the single package of that name; a no-op when it is absent.
    fn remove_package(&mut self, package_name: &str) -> (r: StoreResult<()>)
        ensures
            r is Ok ==> final(self).packages() == old(self).packages().remove(package_name@),
            r is Err ==> final(self).packages() == old(self).packages()
                || final(self).packages() == old(self).packages().remove(package_name@),
            final(self).categories() == old(self).categories(),
    ;
}

/// Storing a category and re-reading it by its name yields a value equal in
/// all fields to what was stored: the round trip of
/// [`PazckagerStorage::store_category`] followed by a lookup in the stored
/// map.
pub proof fn lemma_category_round_trip(m: Map<Seq<char>, CategoryView>, c: CategoryView)
    ensures
        m.insert(c.category_name, c).contains_key(c.category_name),
        m.insert(c.category_name, c)[c.category_name] == c,
{
}

/// Storing a package and re-reading it by its name yields a value equal in
/// all fields to what was stored: the round trip of
/// [`PazckagerStorage::store_package`] followed by
/// [`PazckagerStorage::get_package`].
pub proof fn lemma_package_round_trip(m: Map<Seq<char>, PackageDataView>, p: PackageDataView)
    ensures
        m.insert(p.package_name, p).contains_key(p.package_name),
        m.insert(p.package_name, p)[p.package_name] == p,
{
}

pub type ToolResult<T> = Result<T, ToolError>;

/// A fault of the external package-manager tool, carrying a diagnostic
/// message.
#[derive(Debug)]
pub enum ToolError {
    InstallingPackage(String),
    DeletingPackage(String),
    UpdatingPackage(String),
}

impl ToolError {
    /// The message of this failure: the kind of operation that failed,
    /// followed by the diagnostic detail.
    pub open spec fn message_spec(&self) -> Seq<char> {
        match self {
            ToolError::InstallingPackage(d) => "Error installing package: "@ + d@,
            ToolError::DeletingPackage(d) => "Error deleting package: "@ + d@,
            ToolError::UpdatingPackage(d) => "Error updating package: "@ + d@,
        }
    }

    /// The human-readable message of this failure.
    pub fn message(&self) -> (r: String)
        ensures
            r@ == self.message_spec(),
    {
        match self {
            ToolError::InstallingPackage(d) => {
                let mut m = String::from_str("Error installing package: ");
                m.append(d.as_str());
                m
            },
            ToolError::DeletingPackage(d) => {
                let mut m = String::from_str("Error deleting package: ");
                m.append(d.as_str());
                m
            },
            ToolError::UpdatingPackage(d) => {
                let mut m = String::from_str("Error updating package: ");
                m.append(d.as_str());
                m
            },
        }
    }
}

/// One package-manager backend, able to install, delete and update packages
/// on the host system and to report the packages it currently tracks.
///
/// The three mutating operations invoke an external tool whose outcome this
/// contract cannot pin down: nothing is promised of their results, only that
/// the backend keeps its identity. Reporting is best-effort: a backend that
/// fails to invoke or parse returns an empty list rather than an error.
pub trait InstallationTool: Sized {
    /// The stable identifier of this backend, the dispatch key of the core's
    /// registry.
    spec fn type_spec(&self) -> InstallationTools;

    /// Returns [`Self::type_spec`].
    fn get_type(&self) -> (r: InstallationTools)
        ensures
            r == self.type_spec(),
    ;

    /// Installs the named package through the external tool.
    fn install_package(&mut self, package_name: &str) -> (r: ToolResult<()>)
        ensures
            final(self).type_spec() == old(self).type_spec(),
    ;

    /// Removes the named package through the external tool.
    fn delete_package(&mut self, package_name: &str) -> (r: ToolResult<()>)
        ensures
            final(self).type_spec() == old(self).type_spec(),
    ;

    /// Updates the named package through the external tool.
    fn update_package(&mut self, package_name: &str) -> (r: ToolResult<()>)
        ensures
            final(self).type_spec() == old(self).type_spec(),
    ;

    /// The packages this backend currently tracks; empty on any failure.
    fn get_packages(&self) -> (r: Vec<RawPackageData>);
}

} // verus!
