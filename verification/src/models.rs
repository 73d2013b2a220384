//! The catalog's data model: categories, package records, the identifiers of
//! the supported package-manager backends, and the builder of the core.

use vstd::prelude::*;
use vstd::string::StringExecFns;

use crate::err::Error;
use crate::tools_of;
use crate::traits::{InstallationTool, PazckagerStorage};
use crate::PazckagerCore;

verus! {

/// Identifier of a package-manager backend; the dispatch key of the core's
/// installer registry.
#[derive(Clone, Copy, PartialEq, Eq, Hash, Debug, Structural)]
pub enum InstallationTools {
    Pacman,
    Yay,
}

/// What `str::to_lowercase` returns for the given characters.
pub uninterp spec fn lower_of(s: Seq<char>) -> Seq<char>;

/// Relies on str::to_lowercase: the result depends on the characters alone.
#[verifier::external_body]
fn lowercase(s: &str) -> (r: String)
    ensures
        r@ == lower_of(s@),
{
    s.to_lowercase()
}

impl InstallationTools {
    /// Parses a backend name, case-insensitively. Both the `pacman` and the
    /// `yay` spelling select the pacman backend.
    pub fn from_name(s: &str) -> (r: Result<InstallationTools, String>)
        ensures
            r is Ok <==> lower_of(s@) == "pacman"@ || lower_of(s@) == "yay"@,
            r matches Ok(t) ==> t == InstallationTools::Pacman,
            r matches Err(m) ==> m@ == "Tool is not supported"@,
    {
        let lowered = lowercase(s);
        if lowered == String::from_str("pacman") || lowered == String::from_str("yay") {
            Ok(InstallationTools::Pacman)
        } else {
            Err(String::from_str("Tool is not supported"))
        }
    }
}

impl core::str::FromStr for InstallationTools {
    type Err = String;

    fn from_str(s: &str) -> Result<InstallationTools, String> {
        InstallationTools::from_name(s)
    }
}

/// A category record of the catalog, keyed by `category_name`.
#[derive(PartialEq, Eq, Debug)]
pub struct Category {
    pub category_name: String,
    pub additional_info: Option<String>,
}

/// The mathematical value of a [`Category`].
#[verifier::ext_equal]
pub ghost struct CategoryView {
    pub category_name: Seq<char>,
    pub additional_info: Option<Seq<char>>,
}

impl View for Category {
    type V = CategoryView;

    open spec fn view(&self) -> CategoryView {
        CategoryView {
            category_name: self.category_name@,
            additional_info: match self.additional_info {
                Some(s) => Some(s@),
                None => None,
            },
        }
    }
}

impl Clone for Category {
    fn clone(&self) -> (res: Self)
        ensures
            res@ == self@,
    {
        Category {
            category_name: self.category_name.clone(),
            additional_info: match &self.additional_info {
                Some(s) => Some(s.clone()),
                None => None,
            },
        }
    }
}

/// A tracked package of the catalog, keyed by `package_name`.
#[derive(PartialEq, Eq, Debug)]
pub struct PackageData {
    pub package_name: String,
    pub installation_tool: InstallationTools,
    pub category_name: String,
    pub installed: bool,
}

/// The mathematical value of a [`PackageData`].
#[verifier::ext_equal]
pub ghost struct PackageDataView {
    pub package_name: Seq<char>,
    pub installation_tool: InstallationTools,
    pub category_name: Seq<char>,
    pub installed: bool,
}

impl View for PackageData {
    type V = PackageDataView;

    open spec fn view(&self) -> PackageDataView {
        PackageDataView {
            package_name: self.package_name@,
            installation_tool: self.installation_tool,
            category_name: self.category_name@,
            installed: self.installed,
        }
    }
}

impl Clone for PackageData {
    fn clone(&self) -> (res: Self)
        ensures
            res@ == self@,
    {
        PackageData {
            package_name: self.package_name.clone(),
            installation_tool: self.installation_tool,
            category_name: self.category_name.clone(),
            installed: self.installed,
        }
    }
}

/// A package as reported by a package-manager backend: the tool knows the
/// name and itself, but neither a category assignment nor a persisted
/// installed flag.
#[derive(PartialEq, Eq, Debug)]
pub struct RawPackageData {
    pub package_name: String,
    pub installation_tool: InstallationTools,
    pub category_name: String,
}

/// The mathematical value of a [`RawPackageData`].
#[verifier::ext_equal]
pub ghost struct RawPackageDataView {
    pub package_name: Seq<char>,
    pub installation_tool: InstallationTools,
    pub category_name: Seq<char>,
}

impl View for RawPackageData {
    type V = RawPackageDataView;

    open spec fn view(&self) -> RawPackageDataView {
        RawPackageDataView {
            package_name: self.package_name@,
            installation_tool: self.installation_tool,
            category_name: self.category_name@,
        }
    }
}

impl Clone for RawPackageData {
    fn clone(&self) -> (res: Self)
        ensures
            res@ == self@,
    {
        RawPackageData {
            package_name: self.package_name.clone(),
            installation_tool: self.installation_tool,
            category_name: self.category_name.clone(),
        }
    }
}

impl RawPackageData {
    /// Completes a reported package into a full catalog record, with the
    /// given installed flag.
    pub fn to_package_data(self, installed: bool) -> (res: PackageData)
        ensures
            res@.package_name == self@.package_name,
            res@.installation_tool == self@.installation_tool,
            res@.category_name == self@.category_name,
            res@.installed == installed,
    {
        PackageData {
            package_name: self.package_name,
            installation_tool: self.installation_tool,
            category_name: self.category_name,
            installed,
        }
    }
}

/// Accumulates a storage implementation and backends keyed by their own
/// type identifier, then constructs the core.
pub struct PazckagerCoreBuilder<T: PazckagerStorage, I: InstallationTool> {
    store: T,
    package_installers: Vec<(InstallationTools, I)>,
}

impl<T: PazckagerStorage, I: InstallationTool> PazckagerCoreBuilder<T, I> {
    /// The storage implementation handed to [`Self::new`].
    pub closed spec fn spec_store(&self) -> T {
        self.store
    }

    /// The accumulated registry, in registration order.
    pub closed spec fn installers_spec(&self) -> Seq<(InstallationTools, I)> {
        self.package_installers@
    }

    /// The identifiers of the accumulated backends.
    pub open spec fn tools(&self) -> Seq<InstallationTools> {
        tools_of(self.installers_spec())
    }

    /// No two registry pairs share a tool identifier.
    pub open spec fn wf(&self) -> bool {
        forall|a: int, b: int|
            0 <= a < b < self.installers_spec().len() ==> (#[trigger] self.installers_spec()[a]).0
                != (#[trigger] self.installers_spec()[b]).0
    }

    /// A builder with the given storage and no backend registered yet.
    pub fn new(store: T) -> (r: Self)
        ensures
            r.wf(),
            r.spec_store() == store,
            r.installers_spec() == Seq::<(InstallationTools, I)>::empty(),
    {
        PazckagerCoreBuilder { store, package_installers: Vec::new() }
    }

    /// Registers a backend under its own type identifier, replacing any
    /// backend previously registered under the same identifier.
    pub fn with_installer(self, installation_tool: I) -> (r: Self)
        requires
            self.wf(),
        ensures
            r.wf(),
            r.spec_store() == self.spec_store(),
            r.installers_spec().len() > 0,
            r.installers_spec().last() == (installation_tool.type_spec(), installation_tool),
            forall|t: InstallationTools|
                #[trigger] r.tools().contains(t) <==> self.tools().contains(t) || t
                    == installation_tool.type_spec(),
            self.tools().contains(installation_tool.type_spec()) ==> exists|i: int|
                0 <= i < self.installers_spec().len() && (#[trigger] self.installers_spec()[i]).0
                    == installation_tool.type_spec() && r.installers_spec()
                    == self.installers_spec().remove(i).push(
                    (installation_tool.type_spec(), installation_tool),
                ),
            !self.tools().contains(installation_tool.type_spec()) ==> r.installers_spec()
                == self.installers_spec().push((installation_tool.type_spec(), installation_tool)),
    {
        let ghost s0 = self.package_installers@;
        proof {
            assert(self.installers_spec() == s0);
        }
        let mut this = self;
        let t = installation_tool.get_type();
        let ghost mut removed_at: Option<int> = None;
        match crate::find_tool(&this.package_installers, t) {
            Some(i) => {
                proof {
                    removed_at = Some(i as int);
                }
                let _replaced = this.package_installers.remove(i);
                proof {
                    let s1 = this.package_installers@;
                    assert forall|a: int, b: int| 0 <= a < b < s1.len() implies (
                    #[trigger] s1[a]).0 != (#[trigger] s1[b]).0 by {
                        if a < i as int {
                            assert(s1[a] == s0[a]);
                        } else {
                            assert(s1[a] == s0[a + 1]);
                        }
                        if b < i as int {
                            assert(s1[b] == s0[b]);
                        } else {
                            assert(s1[b] == s0[b + 1]);
                        }
                    }
                    assert forall|j: int| 0 <= j < s1.len() implies (#[trigger] s1[j]).0 != t by {
                        if j < i as int {
                            assert(s1[j] == s0[j]);
                        } else {
                            assert(s1[j] == s0[j + 1]);
                        }
                    }
                    assert forall|t2: InstallationTools| #![all_triggers]
                        tools_of(s1).contains(t2) <==> tools_of(s0).contains(t2) && t2 != t by {
                        crate::lemma_tools_of_contains(s1, t2);
                        crate::lemma_tools_of_contains(s0, t2);
                        if t2 != t && exists|j: int| 0 <= j < s0.len() && (#[trigger] s0[j]).0
                            == t2 {
                            let j = choose|j: int| 0 <= j < s0.len() && (#[trigger] s0[j]).0 == t2;
                            if j < i as int {
                                assert(s1[j] == s0[j]);
                            } else {
                                assert(s1[j - 1] == s0[j]);
                            }
                        }
                        if exists|j: int| 0 <= j < s1.len() && (#[trigger] s1[j]).0 == t2 {
                            let j = choose|j: int| 0 <= j < s1.len() && (#[trigger] s1[j]).0 == t2;
                            if j < i as int {
                                assert(s0[j] == s1[j]);
                            } else {
                                assert(s0[j + 1] == s1[j]);
                            }
                        }
                    }
                }
            },
            None => {
                proof {
                    assert forall|t2: InstallationTools| #![all_triggers]
                        tools_of(s0).contains(t2) ==> t2 != t by {
                        crate::lemma_tools_of_contains(s0, t2);
                    }
                }
            },
        }
        let ghost s1 = this.package_installers@;
        this.package_installers.push((t, installation_tool));
        proof {
            let s2 = this.package_installers@;
            assert(this.installers_spec() == s2);
            assert forall|a: int, b: int| 0 <= a < b < s2.len() implies (#[trigger] s2[a]).0 != (
            #[trigger] s2[b]).0 by {
                if b < s1.len() {
                    assert(s2[a] == s1[a]);
                    assert(s2[b] == s1[b]);
                } else {
                    assert(s2[a] == s1[a]);
                    assert(s2[b] == (t, installation_tool));
                }
            }
            assert forall|t2: InstallationTools| #![all_triggers]
                tools_of(s2).contains(t2) <==> tools_of(s0).contains(t2) || t2 == t by {
                crate::lemma_tools_of_contains(s2, t2);
                crate::lemma_tools_of_contains(s1, t2);
                crate::lemma_tools_of_contains(s0, t2);
                assert(s2[s2.len() - 1].0 == t);
                if exists|j: int| 0 <= j < s1.len() && (#[trigger] s1[j]).0 == t2 {
                    let j = choose|j: int| 0 <= j < s1.len() && (#[trigger] s1[j]).0 == t2;
                    assert(s2[j] == s1[j]);
                }
                if exists|j: int| 0 <= j < s2.len() && (#[trigger] s2[j]).0 == t2 {
                    let j = choose|j: int| 0 <= j < s2.len() && (#[trigger] s2[j]).0 == t2;
                    if j < s1.len() {
                        assert(s1[j] == s2[j]);
                    }
                }
            }
            match removed_at {
                Some(ri) => {
                    assert(s0[ri].0 == t);
                    crate::lemma_tools_of_contains(s0, t);
                    assert(s2 == s0.remove(ri).push((t, installation_tool)));
                },
                None => {
                    assert(!tools_of(s0).contains(t));
                    assert(s2 == s0.push((t, installation_tool)));
                },
            }
        }
        this
    }

    /// Constructs the core; fails when no backend was registered, and seeds
    /// the default category otherwise.
    pub fn build(self) -> (r: Result<PazckagerCore<T, I>, BuilderError>)
        ensures
            r matches Err(BuilderError::NoPackageInstaller) <==> self.installers_spec().len() == 0,
            r matches Ok(c) ==> {
                &&& c.wf()
                &&& c.tools() == tools_of(self.installers_spec())
                &&& c.packages() == self.spec_store().packages()
                &&& c.categories() == crate::seeded(self.spec_store().categories())
                &&& c.categories().contains_key("default"@)
            },
            r matches Err(BuilderError::PazckagerCore(e)) ==> e is Store,
    {
        if self.package_installers.is_empty() {
            Err(BuilderError::NoPackageInstaller)
        } else {
            match PazckagerCore::new(self.store, self.package_installers) {
                Ok(c) => Ok(c),
                Err(e) => Err(BuilderError::PazckagerCore(e)),
            }
        }
    }
}

/// An error of core construction.
#[derive(Debug)]
pub enum BuilderError {
    /// The builder was asked to build with zero backends registered.
    NoPackageInstaller,
    /// Construction reached the core and failed there.
    PazckagerCore(Error),
}

impl BuilderError {
    /// The message of this error; a core failure keeps its own message,
    /// prefixed with its source.
    pub open spec fn message_spec(&self) -> Seq<char> {
        match self {
            BuilderError::NoPackageInstaller => "Colud not find a package installer"@,
            BuilderError::PazckagerCore(e) => "Pazckager core error: "@ + e.message_spec(),
        }
    }

    /// The human-readable message of this error.
    pub fn message(&self) -> (r: String)
        ensures
            r@ == self.message_spec(),
    {
        match self {
            BuilderError::NoPackageInstaller => String::from_str("Colud not find a package installer"),
            BuilderError::PazckagerCore(e) => {
                let mut m = String::from_str("Pazckager core error: ");
                m.append(e.message().as_str());
                m
            },
        }
    }
}

} // verus!
