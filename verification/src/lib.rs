//! A local package-tracking library: it records which packages belong to
//! which categories, delegates install, update and delete operations to a
//! package-manager backend behind the `InstallationTool` contract, and keeps
//! the catalog behind the `PazckagerStorage` contract.
//!
//! The core holds one storage implementation and a registry of backends
//! keyed by tool identifier; it owns every validation and dispatch rule.
//! A single core instance per process is assumed: nothing guards two
//! processes mutating the same backing store.

use vstd::prelude::*;
use vstd::string::StringExecFns;

pub mod err;
pub mod models;
pub mod pacman;
pub mod storage;
pub mod traits;

use err::Error;
use models::{Category, CategoryView, InstallationTools, PackageData, PackageDataView,
    RawPackageData, RawPackageDataView};
use traits::{InstallationTool, PazckagerStorage};

verus! {

/// The category a new package lands in: the given one, with a missing or
/// empty name standing for the default category.
pub open spec fn resolved_category(opt: Option<String>) -> Seq<char> {
    match opt {
        None => "default"@,
        Some(c) => if c@.len() == 0 {
            "default"@
        } else {
            c@
        },
    }
}

/// The catalog record a discovered package is imported as: assigned to the
/// default category and marked installed.
pub open spec fn import_entry(r: RawPackageDataView) -> PackageDataView {
    PackageDataView {
        package_name: r.package_name,
        installation_tool: r.installation_tool,
        category_name: "default"@,
        installed: true,
    }
}

/// The package map after importing a discovered list in order: each
/// discovered package is inserted only when its name is not yet present, so
/// the first occurrence wins and no existing entry is overwritten.
pub open spec fn spec_import(
    m: Map<Seq<char>, PackageDataView>,
    raws: Seq<RawPackageDataView>,
) -> Map<Seq<char>, PackageDataView>
    decreases raws.len(),
{
    if raws.len() == 0 {
        m
    } else {
        let prev = spec_import(m, raws.drop_last());
        if prev.contains_key(raws.last().package_name) {
            prev
        } else {
            prev.insert(raws.last().package_name, import_entry(raws.last()))
        }
    }
}

/// The views of the given discovered records.
pub open spec fn raw_views(s: Seq<RawPackageData>) -> Seq<RawPackageDataView> {
    s.map_values(|r: RawPackageData| r@)
}

/// An import touches no entry that was already present, and every entry it
/// adds is a discovered package keyed by its own name, assigned to the
/// default category and marked installed.
pub proof fn lemma_import_frame(
    m: Map<Seq<char>, PackageDataView>,
    raws: Seq<RawPackageDataView>,
    k: Seq<char>,
)
    ensures
        m.contains_key(k) ==> spec_import(m, raws).contains_key(k) && spec_import(m, raws)[k]
            == m[k],
        spec_import(m, raws).contains_key(k) && !m.contains_key(k) ==> {
            let e = spec_import(m, raws)[k];
            e.package_name == k && e.category_name == "default"@ && e.installed == true
        },
    decreases raws.len(),
{
    if raws.len() > 0 {
        lemma_import_frame(m, raws.drop_last(), k);
    }
}

/// Every discovered name is present after the import.
pub proof fn lemma_import_covers(
    m: Map<Seq<char>, PackageDataView>,
    raws: Seq<RawPackageDataView>,
    i: int,
)
    requires
        0 <= i < raws.len(),
    ensures
        spec_import(m, raws).contains_key(raws[i].package_name),
    decreases raws.len(),
{
    if i < raws.len() - 1 {
        lemma_import_covers(m, raws.drop_last(), i);
        assert(raws.drop_last()[i] == raws[i]);
    }
}

proof fn lemma_import_absorbed(m: Map<Seq<char>, PackageDataView>, raws: Seq<RawPackageDataView>)
    requires
        forall|i: int| 0 <= i < raws.len() ==> m.contains_key((#[trigger] raws[i]).package_name),
    ensures
        spec_import(m, raws) == m,
    decreases raws.len(),
{
    if raws.len() > 0 {
        let t = raws.drop_last();
        assert forall|i: int| 0 <= i < t.len() implies m.contains_key(
            (#[trigger] t[i]).package_name,
        ) by {
            assert(t[i] == raws[i]);
        }
        lemma_import_absorbed(m, t);
        assert(m.contains_key(raws[raws.len() - 1].package_name));
    }
}

/// Importing the same discovered list twice yields the same catalog as
/// importing it once: the sync reconciliation is idempotent.
pub proof fn lemma_sync_idempotent(
    m: Map<Seq<char>, PackageDataView>,
    raws: Seq<RawPackageDataView>,
)
    ensures
        spec_import(spec_import(m, raws), raws) == spec_import(m, raws),
{
    let m1 = spec_import(m, raws);
    assert forall|i: int| 0 <= i < raws.len() implies m1.contains_key(
        (#[trigger] raws[i]).package_name,
    ) by {
        lemma_import_covers(m, raws, i);
    }
    lemma_import_absorbed(m1, raws);
}

/// The package map after setting the `installed` flag of the named entries,
/// in order; a name that is not present is passed over.
spec fn spec_mark(
    m: Map<Seq<char>, PackageDataView>,
    names: Seq<Seq<char>>,
    flag: bool,
) -> Map<Seq<char>, PackageDataView>
    decreases names.len(),
{
    if names.len() == 0 {
        m
    } else {
        let prev = spec_mark(m, names.drop_last(), flag);
        let k = names.last();
        if prev.contains_key(k) {
            prev.insert(k, PackageDataView { installed: flag, ..prev[k] })
        } else {
            prev
        }
    }
}

proof fn lemma_mark_frame(
    m: Map<Seq<char>, PackageDataView>,
    names: Seq<Seq<char>>,
    flag: bool,
    k: Seq<char>,
)
    ensures
        spec_mark(m, names, flag).contains_key(k) <==> m.contains_key(k),
        m.contains_key(k) && !names.contains(k) ==> spec_mark(m, names, flag)[k] == m[k],
        m.contains_key(k) && names.contains(k) ==> spec_mark(m, names, flag)[k]
            == (PackageDataView { installed: flag, ..m[k] }),
    decreases names.len(),
{
    if names.len() > 0 {
        lemma_mark_frame(m, names.drop_last(), flag, k);
        if names.last() != k && names.contains(k) {
            let t = choose|t: int| 0 <= t < names.len() && names[t] == k;
            assert(names.drop_last()[t] == k);
        }
        if names.drop_last().contains(k) {
            let t = choose|t: int| 0 <= t < names.drop_last().len() && names.drop_last()[t] == k;
            assert(names[t] == k);
        }
    }
}

/// The tool identifiers of a registry's pairs, in registration order.
pub open spec fn tools_of<I>(s: Seq<(InstallationTools, I)>) -> Seq<InstallationTools> {
    s.map_values(|p: (InstallationTools, I)| p.0)
}

/// A tool identifier is among a registry's keys exactly when one of its
/// pairs carries it.
pub proof fn lemma_tools_of_contains<I>(s: Seq<(InstallationTools, I)>, t: InstallationTools)
    ensures
        tools_of(s).contains(t) <==> exists|j: int| 0 <= j < s.len() && (#[trigger] s[j]).0 == t,
{
    if exists|j: int| 0 <= j < s.len() && (#[trigger] s[j]).0 == t {
        let j = choose|j: int| 0 <= j < s.len() && (#[trigger] s[j]).0 == t;
        assert(tools_of(s)[j] == t);
    }
    if tools_of(s).contains(t) {
        let j = choose|j: int| 0 <= j < tools_of(s).len() && tools_of(s)[j] == t;
        assert(s[j].0 == t);
    }
}

/// The category every core guarantees: seeded at construction when absent.
pub open spec fn default_category() -> CategoryView {
    CategoryView { category_name: "default"@, additional_info: None }
}

/// The given category map, with the default category seeded when absent.
pub open spec fn seeded(m: Map<Seq<char>, CategoryView>) -> Map<Seq<char>, CategoryView> {
    if m.contains_key("default"@) {
        m
    } else {
        m.insert("default"@, default_category())
    }
}

/// The index of the registry pair registered under the given tool, if any.
pub(crate) fn find_tool<I>(installers: &Vec<(InstallationTools, I)>, tool: InstallationTools) -> (r:
    Option<usize>)
    ensures
        match r {
            Some(i) => i < installers@.len() && installers@[i as int].0 == tool,
            None => forall|j: int|
                0 <= j < installers@.len() ==> (#[trigger] installers@[j]).0 != tool,
        },
{
    let mut i: usize = 0;
    while i < installers.len()
        invariant
            i <= installers@.len(),
            forall|j: int| 0 <= j < i ==> (#[trigger] installers@[j]).0 != tool,
        decreases installers@.len() - i,
    {
        if installers[i].0 == tool {
            return Some(i);
        }
        i = i + 1;
    }
    None
}

/// The orchestration core: one storage implementation and a registry of
/// package-manager backends, with every package and category business rule.
pub struct PazckagerCore<T: PazckagerStorage, I: InstallationTool> {
    store: T,
    package_installers: Vec<(InstallationTools, I)>,
}

impl<T: PazckagerStorage, I: InstallationTool> PazckagerCore<T, I> {
    /// The stored categories, keyed by name.
    pub closed spec fn categories(&self) -> Map<Seq<char>, CategoryView> {
        self.store.categories()
    }

    /// The stored packages, keyed by name.
    pub closed spec fn packages(&self) -> Map<Seq<char>, PackageDataView> {
        self.store.packages()
    }

    /// The identifiers of the registered backends, in registration order.
    pub closed spec fn tools(&self) -> Seq<InstallationTools> {
        tools_of(self.package_installers@)
    }

    /// Whether a backend is registered under the given identifier.
    pub open spec fn tool_registered(&self, t: InstallationTools) -> bool {
        self.tools().contains(t)
    }

    /// A core always holds at least one registered backend; the builder
    /// refuses to construct one otherwise.
    pub open spec fn wf(&self) -> bool {
        self.tools().len() > 0
    }

    /// Constructs the core, seeding the default category when it is absent
    /// from storage.
    pub(crate) fn new(store: T, package_installers: Vec<(InstallationTools, I)>) -> (r: Result<
        Self,
        Error,
    >)
        requires
            package_installers@.len() > 0,
        ensures
            r matches Ok(c) ==> c.wf() && c.tools() == tools_of(package_installers@)
                && c.packages() == store.packages() && c.categories() == seeded(store.categories())
                && c.categories().contains_key("default"@),
            r matches Err(e) ==> e is Store,
    {
        let mut store = store;
        let default_exists = match store.category_exists("default") {
            Ok(b) => b,
            Err(e) => return Err(Error::Store(e)),
        };
        if !default_exists {
            let seed = Category {
                category_name: String::from_str("default"),
                additional_info: None,
            };
            proof {
                assert(seed@ == default_category());
            }
            match store.store_category(seed) {
                Ok(_) => {},
                Err(e) => return Err(Error::Store(e)),
            }
        }
        Ok(PazckagerCore { store, package_installers })
    }

    /// Installs a stored package through its backend and records the
    /// success: on success the stored record's `installed` flag is set; an
    /// installer failure propagates unchanged and leaves the catalog
    /// untouched.
    pub fn install_package(&mut self, package_name: String) -> (r: Result<(), Error>)
        requires
            old(self).wf(),
        ensures
            final(self).wf(),
            final(self).tools() == old(self).tools(),
            match r {
                Ok(()) => {
                    &&& old(self).packages().contains_key(package_name@)
                    &&& old(self).tool_registered(
                        old(self).packages()[package_name@].installation_tool,
                    )
                    &&& final(self).packages() == old(self).packages().insert(
                        package_name@,
                        (PackageDataView {
                            installed: true,
                            ..old(self).packages()[package_name@]
                        }),
                    )
                    &&& final(self).categories() == old(self).categories()
                },
                Err(e) => match e {
                    Error::PackageDoesNotExists => {
                        &&& !old(self).packages().contains_key(package_name@)
                        &&& final(self).packages() == old(self).packages()
                        &&& final(self).categories() == old(self).categories()
                    },
                    Error::InstallationToolDoesNotExist => {
                        &&& old(self).packages().contains_key(package_name@)
                        &&& !old(self).tool_registered(
                            old(self).packages()[package_name@].installation_tool,
                        )
                        &&& final(self).packages() == old(self).packages()
                        &&& final(self).categories() == old(self).categories()
                    },
                    Error::Installer(_) => {
                        &&& old(self).packages().contains_key(package_name@)
                        &&& old(self).tool_registered(
                            old(self).packages()[package_name@].installation_tool,
                        )
                        &&& final(self).packages() == old(self).packages()
                        &&& final(self).categories() == old(self).categories()
                    },
                    Error::Store(_) => {
                        &&& final(self).categories() == old(self).categories()
                        &&& (final(self).packages() == old(self).packages() || {
                            &&& old(self).packages().contains_key(package_name@)
                            &&& old(self).tool_registered(
                                old(self).packages()[package_name@].installation_tool,
                            )
                            &&& final(self).packages() == old(self).packages().insert(
                                package_name@,
                                (PackageDataView {
                                    installed: true,
                                    ..old(self).packages()[package_name@]
                                }),
                            )
                        })
                    },
                    _ => false,
                },
            },
    {
        let package_exists = match self.store.package_exists(package_name.as_str()) {
            Ok(b) => b,
            Err(e) => return Err(Error::Store(e)),
        };
        if !package_exists {
            return Err(Error::PackageDoesNotExists);
        }
        let mut package_data = match self.store.get_package(package_name.as_str()) {
            Ok(p) => p,
            Err(e) => return Err(Error::Store(e)),
        };
        let idx = match find_tool(&self.package_installers, package_data.installation_tool) {
            Some(i) => i,
            None => {
                proof {
                    lemma_tools_of_contains(
                        self.package_installers@,
                        package_data@.installation_tool,
                    );
                }
                return Err(Error::InstallationToolDoesNotExist);
            },
        };
        proof {
            lemma_tools_of_contains(self.package_installers@, package_data@.installation_tool);
        }
        match self.package_installers[idx].1.install_package(package_name.as_str()) {
            Ok(_) => {},
            Err(e) => {
                proof {
                    assert(tools_of(self.package_installers@) =~= tools_of(
                        old(self).package_installers@,
                    ));
                }
                return Err(Error::Installer(e));
            },
        }
        proof {
            assert(tools_of(self.package_installers@) =~= tools_of(
                old(self).package_installers@,
            ));
        }
        package_data.installed = true;
        match self.store.update_package(package_data) {
            Ok(_) => Ok(()),
            Err(e) => Err(Error::Store(e)),
        }
    }

    /// Removes a stored package: the backend's delete runs first, and only
    /// its success removes the catalog entry, so a failed delete leaves the
    /// entry tracked.
    pub fn delete_package(&mut self, package_name: String) -> (r: Result<(), Error>)
        requires
            old(self).wf(),
        ensures
            final(self).wf(),
            final(self).tools() == old(self).tools(),
            match r {
                Ok(()) => {
                    &&& old(self).packages().contains_key(package_name@)
                    &&& old(self).tool_registered(
                        old(self).packages()[package_name@].installation_tool,
                    )
                    &&& final(self).packages() == old(self).packages().remove(package_name@)
                    &&& final(self).categories() == old(self).categories()
                },
                Err(e) => match e {
                    Error::PackageDoesNotExists => {
                        &&& !old(self).packages().contains_key(package_name@)
                        &&& final(self).packages() == old(self).packages()
                        &&& final(self).categories() == old(self).categories()
                    },
                    Error::InstallationToolDoesNotExist => {
                        &&& old(self).packages().contains_key(package_name@)
                        &&& !old(self).tool_registered(
                            old(self).packages()[package_name@].installation_tool,
                        )
                        &&& final(self).packages() == old(self).packages()
                        &&& final(self).categories() == old(self).categories()
                    },
                    Error::Installer(_) => {
                        &&& old(self).packages().contains_key(package_name@)
                        &&& old(self).tool_registered(
                            old(self).packages()[package_name@].installation_tool,
                        )
                        &&& final(self).packages() == old(self).packages()
                        &&& final(self).categories() == old(self).categories()
                    },
                    Error::Store(_) => {
                        &&& final(self).categories() == old(self).categories()
                        &&& (final(self).packages() == old(self).packages() || {
                            &&& old(self).packages().contains_key(package_name@)
                            &&& old(self).tool_registered(
                                old(self).packages()[package_name@].installation_tool,
                            )
                            &&& final(self).packages() == old(self).packages().remove(
                                package_name@,
                            )
                        })
                    },
                    _ => false,
                },
            },
    {
        let package_exists = match self.store.package_exists(package_name.as_str()) {
            Ok(b) => b,
            Err(e) => return Err(Error::Store(e)),
        };
        if !package_exists {
            return Err(Error::PackageDoesNotExists);
        }
        let package = match self.store.get_package(package_name.as_str()) {
            Ok(p) => p,
            Err(e) => return Err(Error::Store(e)),
        };
        let idx = match find_tool(&self.package_installers, package.installation_tool) {
            Some(i) => i,
            None => {
                proof {
                    lemma_tools_of_contains(self.package_installers@, package@.installation_tool);
                }
                return Err(Error::InstallationToolDoesNotExist);
            },
        };
        proof {
            lemma_tools_of_contains(self.package_installers@, package@.installation_tool);
        }
        match self.package_installers[idx].1.delete_package(package.package_name.as_str()) {
            Ok(_) => {},
            Err(e) => {
                proof {
                    assert(tools_of(self.package_installers@) =~= tools_of(
                        old(self).package_installers@,
                    ));
                }
                return Err(Error::Installer(e));
            },
        }
        proof {
            assert(tools_of(self.package_installers@) =~= tools_of(
                old(self).package_installers@,
            ));
        }
        match self.store.remove_package(package_name.as_str()) {
            Ok(_) => Ok(()),
            Err(e) => Err(Error::Store(e)),
        }
    }

    /// Uninstalls a stored package without untracking it: the backend's
    /// delete runs, and on success the catalog entry is kept with its
    /// `installed` flag reset, mirroring [`Self::install_package`]'s
    /// transition.
    pub fn uninstall_package(&mut self, package_name: String) -> (r: Result<(), Error>)
        requires
            old(self).wf(),
        ensures
            final(self).wf(),
            final(self).tools() == old(self).tools(),
            match r {
                Ok(()) => {
                    &&& old(self).packages().contains_key(package_name@)
                    &&& old(self).tool_registered(
                        old(self).packages()[package_name@].installation_tool,
                    )
                    &&& final(self).packages() == old(self).packages().insert(
                        package_name@,
                        (PackageDataView {
                            installed: false,
                            ..old(self).packages()[package_name@]
                        }),
                    )
                    &&& final(self).categories() == old(self).categories()
                },
                Err(e) => match e {
                    Error::PackageDoesNotExists => {
                        &&& !old(self).packages().contains_key(package_name@)
                        &&& final(self).packages() == old(self).packages()
                        &&& final(self).categories() == old(self).categories()
                    },
                    Error::InstallationToolDoesNotExist => {
                        &&& old(self).packages().contains_key(package_name@)
                        &&& !old(self).tool_registered(
                            old(self).packages()[package_name@].installation_tool,
                        )
                        &&& final(self).packages() == old(self).packages()
                        &&& final(self).categories() == old(self).categories()
                    },
                    Error::Installer(_) => {
                        &&& old(self).packages().contains_key(package_name@)
                        &&& old(self).tool_registered(
                            old(self).packages()[package_name@].installation_tool,
                        )
                        &&& final(self).packages() == old(self).packages()
                        &&& final(self).categories() == old(self).categories()
                    },
                    Error::Store(_) => {
                        &&& final(self).categories() == old(self).categories()
                        &&& (final(self).packages() == old(self).packages() || {
                            &&& old(self).packages().contains_key(package_name@)
                            &&& old(self).tool_registered(
                                old(self).packages()[package_name@].installation_tool,
                            )
                            &&& final(self).packages() == old(self).packages().insert(
                                package_name@,
                                (PackageDataView {
                                    installed: false,
                                    ..old(self).packages()[package_name@]
                                }),
                            )
                        })
                    },
                    _ => false,
                },
            },
    {
        let package_exists = match self.store.package_exists(package_name.as_str()) {
            Ok(b) => b,
            Err(e) => return Err(Error::Store(e)),
        };
        if !package_exists {
            return Err(Error::PackageDoesNotExists);
        }
        let mut package = match self.store.get_package(package_name.as_str()) {
            Ok(p) => p,
            Err(e) => return Err(Error::Store(e)),
        };
        let idx = match find_tool(&self.package_installers, package.installation_tool) {
            Some(i) => i,
            None => {
                proof {
                    lemma_tools_of_contains(self.package_installers@, package@.installation_tool);
                }
                return Err(Error::InstallationToolDoesNotExist);
            },
        };
        proof {
            lemma_tools_of_contains(self.package_installers@, package@.installation_tool);
        }
        match self.package_installers[idx].1.delete_package(package.package_name.as_str()) {
            Ok(_) => {},
            Err(e) => {
                proof {
                    assert(tools_of(self.package_installers@) =~= tools_of(
                        old(self).package_installers@,
                    ));
                }
                return Err(Error::Installer(e));
            },
        }
        proof {
            assert(tools_of(self.package_installers@) =~= tools_of(
                old(self).package_installers@,
            ));
        }
        package.installed = false;
        match self.store.update_package(package) {
            Ok(_) => Ok(()),
            Err(e) => Err(Error::Store(e)),
        }
    }

    /// Updates a stored package through its backend; the catalog itself is
    /// never mutated.
    pub fn update_package(&mut self, package_name: String) -> (r: Result<(), Error>)
        requires
            old(self).wf(),
        ensures
            final(self).wf(),
            final(self).tools() == old(self).tools(),
            final(self).packages() == old(self).packages(),
            final(self).categories() == old(self).categories(),
            match r {
                Ok(()) => {
                    &&& old(self).packages().contains_key(package_name@)
                    &&& old(self).tool_registered(
                        old(self).packages()[package_name@].installation_tool,
                    )
                },
                Err(e) => match e {
                    Error::PackageDoesNotExists => !old(self).packages().contains_key(
                        package_name@,
                    ),
                    Error::InstallationToolDoesNotExist => {
                        &&& old(self).packages().contains_key(package_name@)
                        &&& !old(self).tool_registered(
                            old(self).packages()[package_name@].installation_tool,
                        )
                    },
                    Error::Installer(_) => {
                        &&& old(self).packages().contains_key(package_name@)
                        &&& old(self).tool_registered(
                            old(self).packages()[package_name@].installation_tool,
                        )
                    },
                    Error::Store(_) => true,
                    _ => false,
                },
            },
    {
        let package_exists = match self.store.package_exists(package_name.as_str()) {
            Ok(b) => b,
            Err(e) => return Err(Error::Store(e)),
        };
        if !package_exists {
            return Err(Error::PackageDoesNotExists);
        }
        let package = match self.store.get_package(package_name.as_str()) {
            Ok(p) => p,
            Err(e) => return Err(Error::Store(e)),
        };
        let idx = match find_tool(&self.package_installers, package.installation_tool) {
            Some(i) => i,
            None => {
                proof {
                    lemma_tools_of_contains(self.package_installers@, package@.installation_tool);
                }
                return Err(Error::InstallationToolDoesNotExist);
            },
        };
        proof {
            lemma_tools_of_contains(self.package_installers@, package@.installation_tool);
        }
        let r = self.package_installers[idx].1.update_package(package.package_name.as_str());
        proof {
            assert(tools_of(self.package_installers@) =~= tools_of(
                old(self).package_installers@,
            ));
        }
        match r {
            Ok(_) => Ok(()),
            Err(e) => Err(Error::Installer(e)),
        }
    }

    /// Adds a new package to the catalog, without installing it: the backend
    /// is resolved (the given one, or any registered one when unspecified),
    /// the category must exist, the name must be new, and the record is
    /// persisted with `installed` false. Installation is a separate,
    /// explicit step.
    pub fn add_package(
        &mut self,
        package_name: String,
        installation_tool: Option<InstallationTools>,
        package_category_name: Option<String>,
    ) -> (r: Result<(), Error>)
        requires
            old(self).wf(),
        ensures
            final(self).wf(),
            final(self).tools() == old(self).tools(),
            match r {
                Ok(()) => ({
                    let chosen = match installation_tool {
                        Some(t) => t,
                        None => old(self).tools()[0],
                    };
                    let cat = resolved_category(package_category_name);
                    &&& old(self).tool_registered(chosen)
                    &&& old(self).categories().contains_key(cat)
                    &&& !old(self).packages().contains_key(package_name@)
                    &&& final(self).packages() == old(self).packages().insert(
                        package_name@,
                        (PackageDataView {
                            package_name: package_name@,
                            installation_tool: chosen,
                            category_name: cat,
                            installed: false,
                        }),
                    )
                    &&& final(self).categories() == old(self).categories()
                }),
                Err(e) => match e {
                    Error::InstallationToolDoesNotExist => {
                        &&& installation_tool matches Some(t) && !old(self).tool_registered(t)
                        &&& final(self).packages() == old(self).packages()
                        &&& final(self).categories() == old(self).categories()
                    },
                    Error::CategoryDoesNotExist => {
                        &&& (installation_tool matches Some(t) ==> old(self).tool_registered(t))
                        &&& !old(self).categories().contains_key(
                            resolved_category(package_category_name),
                        )
                        &&& final(self).packages() == old(self).packages()
                        &&& final(self).categories() == old(self).categories()
                    },
                    Error::PackageAlreadyExists => {
                        &&& (installation_tool matches Some(t) ==> old(self).tool_registered(t))
                        &&& old(self).categories().contains_key(
                            resolved_category(package_category_name),
                        )
                        &&& old(self).packages().contains_key(package_name@)
                        &&& final(self).packages() == old(self).packages()
                        &&& final(self).categories() == old(self).categories()
                    },
                    Error::Store(_) => ({
                        let chosen = match installation_tool {
                            Some(t) => t,
                            None => old(self).tools()[0],
                        };
                        let cat = resolved_category(package_category_name);
                        &&& (installation_tool matches Some(t) ==> old(self).tool_registered(t))
                        &&& final(self).categories() == old(self).categories()
                        &&& (final(self).packages() == old(self).packages() || {
                            &&& !old(self).packages().contains_key(package_name@)
                            &&& old(self).categories().contains_key(cat)
                            &&& final(self).packages() == old(self).packages().insert(
                                package_name@,
                                (PackageDataView {
                                    package_name: package_name@,
                                    installation_tool: chosen,
                                    category_name: cat,
                                    installed: false,
                                }),
                            )
                        })
                    }),
                    _ => false,
                },
            },
    {
        let tool = match installation_tool {
            Some(t) => {
                match find_tool(&self.package_installers, t) {
                    Some(_) => t,
                    None => {
                        proof {
                            lemma_tools_of_contains(self.package_installers@, t);
                        }
                        return Err(Error::InstallationToolDoesNotExist);
                    },
                }
            },
            None => self.package_installers[0].0,
        };
        proof {
            lemma_tools_of_contains(self.package_installers@, tool);
            assert(tools_of(self.package_installers@)[0] == self.package_installers@[0].0);
        }
        let category_name = match package_category_name {
            Some(c) => {
                if c.as_str().is_empty() {
                    String::from_str("default")
                } else {
                    c
                }
            },
            None => String::from_str("default"),
        };
        proof {
            assert(category_name@ == resolved_category(package_category_name));
        }
        let category_ok = match self.store.category_exists(category_name.as_str()) {
            Ok(b) => b,
            Err(e) => return Err(Error::Store(e)),
        };
        if !category_ok {
            return Err(Error::CategoryDoesNotExist);
        }
        let package_present = match self.store.package_exists(package_name.as_str()) {
            Ok(b) => b,
            Err(e) => return Err(Error::Store(e)),
        };
        if package_present {
            return Err(Error::PackageAlreadyExists);
        }
        let record = PackageData {
            package_name,
            installation_tool: tool,
            category_name,
            installed: false,
        };
        match self.store.store_package(record) {
            Ok(_) => Ok(()),
            Err(e) => Err(Error::Store(e)),
        }
    }

    /// Inserts externally discovered packages that are not yet tracked:
    /// each lands in the default category, marked installed, and an
    /// existing entry is never overwritten. This is the reconciliation step
    /// of [`Self::sync_packages`], taking the discovered list as an
    /// argument and therefore exact for every value of it.
    pub fn store_discovered(&mut self, discovered: Vec<RawPackageData>) -> (r: Result<(), Error>)
        requires
            old(self).wf(),
        ensures
            final(self).wf(),
            final(self).tools() == old(self).tools(),
            final(self).categories() == old(self).categories(),
            r matches Ok(()) ==> final(self).packages() == spec_import(
                old(self).packages(),
                raw_views(discovered@),
            ),
            r matches Err(e) ==> e is Store,
            exists|s: Seq<RawPackageDataView>| final(self).packages() == spec_import(
                old(self).packages(),
                s,
            ),
    {
        let ghost m0 = self.store.packages();
        let mut i: usize = 0;
        while i < discovered.len()
            invariant
                i <= discovered@.len(),
                old(self).wf(),
                self.store.packages() == spec_import(m0, raw_views(discovered@).take(i as int)),
                self.store.categories() == old(self).store.categories(),
                m0 == old(self).store.packages(),
                tools_of(self.package_installers@) == tools_of(old(self).package_installers@),
            decreases discovered@.len() - i,
        {
            let ghost rv = raw_views(discovered@);
            proof {
                assert(rv[i as int] == discovered@[i as int]@);
                assert(rv.take(i + 1).drop_last() =~= rv.take(i as int));
                assert(rv.take(i + 1).last() == rv[i as int]);
            }
            let name_present = match self.store.package_exists(
                discovered[i].package_name.as_str(),
            ) {
                Ok(b) => b,
                Err(e) => {
                    proof {
                        assert(self.packages() == spec_import(
                            old(self).packages(),
                            rv.take(i as int),
                        ));
                        assert(exists|s: Seq<RawPackageDataView>| self.packages() == spec_import(
                            old(self).packages(),
                            s,
                        ));
                    }
                    return Err(Error::Store(e));
                },
            };
            if !name_present {
                let record = PackageData {
                    package_name: discovered[i].package_name.clone(),
                    installation_tool: discovered[i].installation_tool,
                    category_name: String::from_str("default"),
                    installed: true,
                };
                proof {
                    assert(record@ == import_entry(rv[i as int]));
                }
                match self.store.store_package(record) {
                    Ok(_) => {},
                    Err(e) => {
                        proof {
                            if self.store.packages() == spec_import(m0, rv.take(i as int)) {
                                assert(self.packages() == spec_import(
                                    old(self).packages(),
                                    rv.take(i as int),
                                ));
                            } else {
                                assert(self.packages() == spec_import(
                                    old(self).packages(),
                                    rv.take(i + 1),
                                ));
                            }
                            assert(exists|s: Seq<RawPackageDataView>| self.packages()
                                == spec_import(old(self).packages(), s));
                        }
                        return Err(Error::Store(e));
                    },
                }
            }
            i = i + 1;
        }
        proof {
            assert(raw_views(discovered@).take(discovered@.len() as int) =~= raw_views(
                discovered@,
            ));
            assert(self.packages() == spec_import(old(self).packages(), raw_views(discovered@)));
            assert(exists|s: Seq<RawPackageDataView>| self.packages() == spec_import(
                old(self).packages(),
                s,
            ));
        }
        Ok(())
    }

    /// Reconciles the catalog with every registered backend: each backend
    /// reports the packages it tracks, and any that are not yet in the
    /// catalog are imported into the default category, marked installed.
    /// A backend that fails to report contributes nothing, and an existing
    /// entry is never overwritten, whatever the backends report.
    pub fn sync_packages(&mut self) -> (r: Result<(), Error>)
        requires
            old(self).wf(),
        ensures
            final(self).wf(),
            final(self).tools() == old(self).tools(),
            final(self).categories() == old(self).categories(),
            r matches Err(e) ==> e is Store,
            exists|s: Seq<RawPackageDataView>| final(self).packages() == spec_import(
                old(self).packages(),
                s,
            ),
            forall|k: Seq<char>| #[trigger] old(self).packages().contains_key(k)
                ==> final(self).packages().contains_key(k) && final(self).packages()[k] == old(self).packages()[k],
            forall|k: Seq<char>|
                #[trigger] final(self).packages().contains_key(k) && !old(self).packages().contains_key(k) ==> final(self).packages()[k].package_name == k
                    && final(self).packages()[k].category_name == "default"@ && final(self).packages()[k].installed == true,
    {
        let mut discovered: Vec<RawPackageData> = Vec::new();
        let mut i: usize = 0;
        while i < self.package_installers.len()
            invariant
                *self == *old(self),
            decreases self.package_installers@.len() - i,
        {
            let mut list = self.package_installers[i].1.get_packages();
            discovered.append(&mut list);
            i = i + 1;
        }
        let r = self.store_discovered(discovered);
        proof {
            assert(exists|s: Seq<RawPackageDataView>| self.packages() == spec_import(
                old(self).packages(),
                s,
            ));
            let s = choose|s: Seq<RawPackageDataView>|
                self.packages() == spec_import(old(self).packages(), s);
            assert forall|k: Seq<char>| #[trigger] old(self).packages().contains_key(k) implies self.packages().contains_key(
                k,
            ) && self.packages()[k] == old(self).packages()[k] by {
                lemma_import_frame(old(self).packages(), s, k);
            }
            assert forall|k: Seq<char>|
                #[trigger] self.packages().contains_key(k) && !old(self).packages().contains_key(k) implies self.packages()[k].package_name == k
                && self.packages()[k].category_name == "default"@ && self.packages()[k].installed
                == true by {
                lemma_import_frame(old(self).packages(), s, k);
            }
        }
        r
    }

    /// All tracked packages: a pure read, failing only on a storage fault.
    pub fn get_packages(&self) -> (r: Result<Vec<PackageData>, Error>)
        ensures
            r matches Ok(v) ==> {
                &&& forall|i: int| 0 <= i < v@.len()
                    ==> self.packages().contains_pair((#[trigger] v@[i])@.package_name, v@[i]@)
                &&& forall|k: Seq<char>| self.packages().contains_key(k)
                    ==> exists|i: int| 0 <= i < v@.len() && (#[trigger] v@[i])@.package_name == k
                &&& forall|i: int, j: int| 0 <= i < j < v@.len()
                    ==> v@[i]@.package_name != v@[j]@.package_name
            },
            r matches Err(e) ==> e is Store,
    {
        match self.store.get_packages() {
            Ok(v) => Ok(v),
            Err(e) => Err(Error::Store(e)),
        }
    }

    /// All stored categories: a pure read, failing only on a storage fault.
    pub fn get_categories(&self) -> (r: Result<Vec<Category>, Error>)
        ensures
            r matches Ok(v) ==> {
                &&& forall|i: int| 0 <= i < v@.len()
                    ==> self.categories().contains_pair((#[trigger] v@[i])@.category_name, v@[i]@)
                &&& forall|k: Seq<char>| self.categories().contains_key(k)
                    ==> exists|i: int| 0 <= i < v@.len() && (#[trigger] v@[i])@.category_name == k
                &&& forall|i: int, j: int| 0 <= i < j < v@.len()
                    ==> v@[i]@.category_name != v@[j]@.category_name
            },
            r matches Err(e) ==> e is Store,
    {
        match self.store.get_categories() {
            Ok(v) => Ok(v),
            Err(e) => Err(Error::Store(e)),
        }
    }

    /// Exactly the tracked packages of the given category, empty (not an
    /// error) when none match: a pure read, failing only on a storage
    /// fault.
    pub fn get_package_by_category(&self, category_name: String) -> (r: Result<
        Vec<PackageData>,
        Error,
    >)
        ensures
            r matches Ok(v) ==> {
                &&& forall|i: int| 0 <= i < v@.len()
                    ==> self.packages().contains_pair((#[trigger] v@[i])@.package_name, v@[i]@)
                        && v@[i]@.category_name == category_name@
                &&& forall|k: Seq<char>|
                    self.packages().contains_key(k)
                        && (#[trigger] self.packages()[k]).category_name == category_name@
                    ==> exists|i: int| 0 <= i < v@.len() && (#[trigger] v@[i])@.package_name == k
                &&& forall|i: int, j: int| 0 <= i < j < v@.len()
                    ==> v@[i]@.package_name != v@[j]@.package_name
            },
            r matches Err(e) ==> e is Store,
    {
        match self.store.get_packages_by_category(category_name.as_str()) {
            Ok(v) => Ok(v),
            Err(e) => Err(Error::Store(e)),
        }
    }

    /// Adds or replaces a category record: an upsert by name, matching the
    /// storage contract's idempotent overwrite.
    pub fn add_category(&mut self, category_name: String, additional_info: Option<String>) -> (r:
        Result<(), Error>)
        requires
            old(self).wf(),
        ensures
            final(self).wf(),
            final(self).tools() == old(self).tools(),
            final(self).packages() == old(self).packages(),
            match r {
                Ok(()) => final(self).categories() == old(self).categories().insert(
                    category_name@,
                    (CategoryView {
                        category_name: category_name@,
                        additional_info: (match additional_info {
                            Some(s) => Some(s@),
                            None => None,
                        }),
                    }),
                ),
                Err(e) => e is Store && (final(self).categories() == old(self).categories()
                    || final(self).categories() == old(self).categories().insert(
                    category_name@,
                    (CategoryView {
                        category_name: category_name@,
                        additional_info: (match additional_info {
                            Some(s) => Some(s@),
                            None => None,
                        }),
                    }),
                )),
            },
    {
        let record = Category { category_name, additional_info };
        match self.store.store_category(record) {
            Ok(_) => Ok(()),
            Err(e) => Err(Error::Store(e)),
        }
    }

    /// The stored category of that name; fails when it is absent.
    pub fn get_category(&self, category_name: String) -> (r: Result<Category, Error>)
        ensures
            match r {
                Ok(c) => self.categories().contains_key(category_name@) && c@
                    == self.categories()[category_name@] && c@.category_name == category_name@,
                Err(e) => match e {
                    Error::CategoryDoesNotExist => !self.categories().contains_key(category_name@),
                    Error::Store(_) => true,
                    _ => false,
                },
            },
    {
        let cats = match self.store.get_categories() {
            Ok(v) => v,
            Err(e) => return Err(Error::Store(e)),
        };
        match storage::find_category(&cats, &category_name) {
            Some(i) => Ok(cats[i].clone()),
            None => Err(Error::CategoryDoesNotExist),
        }
    }

    /// Moves a tracked package to another existing category; the package is
    /// checked first, then the target category.
    pub fn change_package_category(&mut self, new_category: String, package_name: String) -> (r:
        Result<(), Error>)
        requires
            old(self).wf(),
        ensures
            final(self).wf(),
            final(self).tools() == old(self).tools(),
            final(self).categories() == old(self).categories(),
            match r {
                Ok(()) => {
                    &&& old(self).packages().contains_key(package_name@)
                    &&& old(self).categories().contains_key(new_category@)
                    &&& final(self).packages() == old(self).packages().insert(
                        package_name@,
                        (PackageDataView {
                            category_name: new_category@,
                            ..old(self).packages()[package_name@]
                        }),
                    )
                },
                Err(e) => match e {
                    Error::PackageDoesNotExists => {
                        &&& !old(self).packages().contains_key(package_name@)
                        &&& final(self).packages() == old(self).packages()
                    },
                    Error::CategoryDoesNotExist => {
                        &&& old(self).packages().contains_key(package_name@)
                        &&& !old(self).categories().contains_key(new_category@)
                        &&& final(self).packages() == old(self).packages()
                    },
                    Error::Store(_) => final(self).packages() == old(self).packages() || {
                        &&& old(self).packages().contains_key(package_name@)
                        &&& old(self).categories().contains_key(new_category@)
                        &&& final(self).packages() == old(self).packages().insert(
                            package_name@,
                            (PackageDataView {
                                category_name: new_category@,
                                ..old(self).packages()[package_name@]
                            }),
                        )
                    },
                    _ => false,
                },
            },
    {
        let package_present = match self.store.package_exists(package_name.as_str()) {
            Ok(b) => b,
            Err(e) => return Err(Error::Store(e)),
        };
        if !package_present {
            return Err(Error::PackageDoesNotExists);
        }
        let category_ok = match self.store.category_exists(new_category.as_str()) {
            Ok(b) => b,
            Err(e) => return Err(Error::Store(e)),
        };
        if !category_ok {
            return Err(Error::CategoryDoesNotExist);
        }
        let mut package = match self.store.get_package(package_name.as_str()) {
            Ok(p) => p,
            Err(e) => return Err(Error::Store(e)),
        };
        package.category_name = new_category;
        match self.store.update_package(package) {
            Ok(_) => Ok(()),
            Err(e) => Err(Error::Store(e)),
        }
    }

    /// Deletes a category by name. The storage contract only clears the
    /// whole category collection, so every other category is re-stored, and
    /// the default category is re-seeded when it went missing: a core
    /// always keeps one. Packages that referenced the deleted category keep
    /// their assignment.
    pub fn delete_category(&mut self, category_name: String) -> (r: Result<(), Error>)
        requires
            old(self).wf(),
        ensures
            final(self).wf(),
            final(self).tools() == old(self).tools(),
            final(self).packages() == old(self).packages(),
            match r {
                Ok(()) => {
                    &&& old(self).categories().contains_key(category_name@)
                    &&& final(self).categories() == seeded(
                        old(self).categories().remove(category_name@),
                    )
                },
                Err(e) => match e {
                    Error::CategoryDoesNotExist => {
                        &&& !old(self).categories().contains_key(category_name@)
                        &&& final(self).categories() == old(self).categories()
                    },
                    Error::Store(_) => true,
                    _ => false,
                },
            },
            r is Err ==> forall|k: Seq<char>| #[trigger] final(self).categories().contains_key(k)
                ==> (old(self).categories().contains_key(k) && final(self).categories()[k] == old(
                self,
            ).categories()[k]) || (k == "default"@ && final(self).categories()[k]
                == default_category()),
    {
        let category_present = match self.store.category_exists(category_name.as_str()) {
            Ok(b) => b,
            Err(e) => return Err(Error::Store(e)),
        };
        if !category_present {
            return Err(Error::CategoryDoesNotExist);
        }
        let cats = match self.store.get_categories() {
            Ok(v) => v,
            Err(e) => return Err(Error::Store(e)),
        };
        let ghost m0 = old(self).store.categories();
        match self.store.remove_category() {
            Ok(_) => {},
            Err(e) => {
                proof {
                    assert forall|k: Seq<char>| #[trigger] self.store.categories().contains_key(
                        k,
                    ) implies m0.contains_key(k) && self.store.categories()[k] == m0[k] by {}
                }
                return Err(Error::Store(e));
            },
        }
        let mut i: usize = 0;
        while i < cats.len()
            invariant
                i <= cats@.len(),
                old(self).wf(),
                m0 == old(self).store.categories(),
                self.store.packages() == old(self).store.packages(),
                tools_of(self.package_installers@) == tools_of(old(self).package_installers@),
                forall|t: int| 0 <= t < cats@.len() ==> m0.contains_pair(
                    (#[trigger] cats@[t])@.category_name,
                    cats@[t]@,
                ),
                forall|k: Seq<char>| m0.contains_key(k) ==> exists|t: int|
                    0 <= t < cats@.len() && (#[trigger] cats@[t])@.category_name == k,
                forall|t1: int, t2: int| 0 <= t1 < t2 < cats@.len()
                    ==> cats@[t1]@.category_name != cats@[t2]@.category_name,
                forall|k: Seq<char>| #[trigger] self.store.categories().contains_key(k) ==> k
                    != category_name@ && exists|t: int|
                    0 <= t < i && (#[trigger] cats@[t])@.category_name == k,
                forall|t: int|
                    0 <= t < i && (#[trigger] cats@[t])@.category_name != category_name@
                        ==> self.store.categories().contains_key(cats@[t]@.category_name)
                        && self.store.categories()[cats@[t]@.category_name] == cats@[t]@,
            decreases cats@.len() - i,
        {
            if !(cats[i].category_name == category_name) {
                let record = cats[i].clone();
                let ghost prev_cats = self.store.categories();
                match self.store.store_category(record) {
                    Ok(_) => {},
                    Err(e) => {
                        proof {
                            assert forall|k: Seq<char>| #[trigger] self.store.categories().contains_key(
                                k,
                            ) implies m0.contains_key(k) && self.store.categories()[k]
                                == m0[k] by {
                                if prev_cats.contains_key(k) && self.store.categories()[k]
                                    == prev_cats[k] {
                                    let t = choose|t: int|
                                        0 <= t < i && (#[trigger] cats@[t])@.category_name == k;
                                    assert(prev_cats[k] == cats@[t]@);
                                    assert(m0.contains_pair(cats@[t]@.category_name, cats@[t]@));
                                } else {
                                    assert(k == cats@[i as int]@.category_name);
                                    assert(self.store.categories()[k] == cats@[i as int]@);
                                    assert(m0.contains_pair(
                                        cats@[i as int]@.category_name,
                                        cats@[i as int]@,
                                    ));
                                }
                            }
                        }
                        return Err(Error::Store(e));
                    },
                }
            }
            i = i + 1;
        }
        proof {
            assert forall|k: Seq<char>| #![all_triggers] self.store.categories().contains_key(k)
                <==> m0.remove(category_name@).contains_key(k) by {
                if self.store.categories().contains_key(k) {
                    let t = choose|t: int|
                        0 <= t < i && (#[trigger] cats@[t])@.category_name == k;
                    assert(m0.contains_pair(cats@[t]@.category_name, cats@[t]@));
                }
                if m0.contains_key(k) && k != category_name@ {
                    let t = choose|t: int|
                        0 <= t < cats@.len() && (#[trigger] cats@[t])@.category_name == k;
                    assert(self.store.categories().contains_key(cats@[t]@.category_name));
                }
            }
            assert forall|k: Seq<char>| #[trigger] self.store.categories().contains_key(
                k,
            ) implies self.store.categories()[k] == m0.remove(category_name@)[k] by {
                let t = choose|t: int| 0 <= t < i && (#[trigger] cats@[t])@.category_name == k;
                assert(self.store.categories()[k] == cats@[t]@);
                assert(m0.contains_pair(cats@[t]@.category_name, cats@[t]@));
            }
            assert(self.store.categories() =~= m0.remove(category_name@));
        }
        let default_present = match self.store.category_exists("default") {
            Ok(b) => b,
            Err(e) => {
                proof {
                    assert forall|k: Seq<char>| #[trigger] self.store.categories().contains_key(
                        k,
                    ) implies m0.contains_key(k) && self.store.categories()[k] == m0[k] by {}
                }
                return Err(Error::Store(e));
            },
        };
        if !default_present {
            let seed = Category {
                category_name: String::from_str("default"),
                additional_info: None,
            };
            proof {
                assert(seed@ == default_category());
            }
            let ghost prev_cats = self.store.categories();
            match self.store.store_category(seed) {
                Ok(_) => {},
                Err(e) => {
                    proof {
                        assert forall|k: Seq<char>| #[trigger] self.store.categories().contains_key(
                            k,
                        ) implies (m0.contains_key(k) && self.store.categories()[k] == m0[k]) || (
                        k == "default"@ && self.store.categories()[k] == default_category()) by {
                            if prev_cats.contains_key(k) && self.store.categories()[k]
                                == prev_cats[k] {
                            } else {
                                assert(k == "default"@);
                            }
                        }
                    }
                    return Err(Error::Store(e));
                },
            }
        }
        proof {
            assert(self.store.categories() =~= seeded(m0.remove(category_name@)));
        }
        Ok(())
    }

    /// Installs every tracked package of the given category, stopping at the
    /// first failure: on success each of the category's packages has been
    /// installed and marked so, and no other entry changes.
    pub fn install_category(&mut self, category_name: String) -> (r: Result<(), Error>)
        requires
            old(self).wf(),
        ensures
            final(self).wf(),
            final(self).tools() == old(self).tools(),
            final(self).categories() == old(self).categories(),
            forall|k: Seq<char>| #[trigger] final(self).packages().contains_key(k) <==> old(self).packages().contains_key(k),
            forall|k: Seq<char>| #[trigger] old(self).packages().contains_key(k)
                ==> final(self).packages()[k] == old(self).packages()[k]
                    || final(self).packages()[k] == (PackageDataView {
                    installed: true,
                    ..old(self).packages()[k]
                }),
            match r {
                Ok(()) => forall|k: Seq<char>| #[trigger] old(self).packages().contains_key(k)
                    ==> final(self).packages()[k] == (if old(self).packages()[k].category_name
                        == category_name@ {
                        (PackageDataView { installed: true, ..old(self).packages()[k] })
                    } else {
                        old(self).packages()[k]
                    }),
                Err(e) => match e {
                    Error::CategoryDoesNotExist => {
                        &&& !old(self).categories().contains_key(category_name@)
                        &&& final(self).packages() == old(self).packages()
                    },
                    Error::PackageDoesNotExists => false,
                    Error::PackageAlreadyExists => false,
                    Error::InstallationToolDoesNotExist => {
                        &&& old(self).categories().contains_key(category_name@)
                        &&& exists|k: Seq<char>|
                            #[trigger] old(self).packages().contains_key(k)
                                && old(self).packages()[k].category_name == category_name@
                                && !old(self).tool_registered(
                                old(self).packages()[k].installation_tool,
                            )
                    },
                    Error::Installer(_) => old(self).categories().contains_key(category_name@),
                    Error::Store(_) => true,
                },
            },
    {
        let category_present = match self.store.category_exists(category_name.as_str()) {
            Ok(b) => b,
            Err(e) => return Err(Error::Store(e)),
        };
        if !category_present {
            return Err(Error::CategoryDoesNotExist);
        }
        let listed = match self.store.get_packages_by_category(category_name.as_str()) {
            Ok(v) => v,
            Err(e) => return Err(Error::Store(e)),
        };
        let ghost m0 = old(self).store.packages();
        let ghost names = Seq::new(listed@.len(), |t: int| listed@[t]@.package_name);
        let mut j: usize = 0;
        while j < listed.len()
            invariant
                j <= listed@.len(),
                old(self).wf(),
                self.wf(),
                old(self).store.categories().contains_key(category_name@),
                m0 == old(self).store.packages(),
                names.len() == listed@.len(),
                forall|t: int| 0 <= t < names.len() ==> names[t] == (#[trigger] listed@[t])@.package_name,
                self.store.categories() == old(self).store.categories(),
                tools_of(self.package_installers@) == tools_of(old(self).package_installers@),
                forall|t: int| 0 <= t < listed@.len() ==> m0.contains_pair(
                    (#[trigger] listed@[t])@.package_name,
                    listed@[t]@,
                ) && listed@[t]@.category_name == category_name@,
                forall|k: Seq<char>|
                    m0.contains_key(k) && (#[trigger] m0[k]).category_name == category_name@
                        ==> exists|t: int|
                        0 <= t < listed@.len() && (#[trigger] listed@[t])@.package_name == k,
                self.store.packages() == spec_mark(m0, names.take(j as int), true),
            decreases listed@.len() - j,
        {
            let ghost prev = self.store.packages();
            proof {
                assert(names.take(j + 1).drop_last() =~= names.take(j as int));
                assert(names.take(j + 1).last() == names[j as int]);
                lemma_mark_frame(m0, names.take(j as int), true, names[j as int]);
                assert(prev.contains_key(listed@[j as int]@.package_name));
            }
            match self.install_package(listed[j].package_name.clone()) {
                Ok(_) => {},
                Err(e) => {
                    proof {
                        if e is InstallationToolDoesNotExist {
                            assert(m0.contains_key(names[j as int]));
                            assert(m0[names[j as int]].category_name == category_name@);
                            assert(prev[names[j as int]].installation_tool == m0[names[
                                j as int]].installation_tool);
                            assert(!old(self).tool_registered(
                                prev[names[j as int]].installation_tool,
                            ));
                            assert(exists|k: Seq<char>|
                                #[trigger] m0.contains_key(k) && m0[k].category_name
                                    == category_name@ && !old(self).tool_registered(
                                    m0[k].installation_tool,
                                ));
                        }
                        let w = if self.store.packages() == spec_mark(
                            m0,
                            names.take(j as int),
                            true,
                        ) {
                            names.take(j as int)
                        } else {
                            names.take(j + 1)
                        };
                        assert(self.store.packages() == spec_mark(m0, w, true));
                        assert forall|k: Seq<char>| #[trigger] self.store.packages().contains_key(
                            k,
                        ) <==> m0.contains_key(k) by {
                            lemma_mark_frame(m0, w, true, k);
                        }
                        assert forall|k: Seq<char>| #[trigger] m0.contains_key(
                            k,
                        ) implies self.store.packages()[k] == m0[k] || self.store.packages()[k]
                            == (PackageDataView { installed: true, ..m0[k] }) by {
                            lemma_mark_frame(m0, w, true, k);
                        }
                    }
                    return Err(e);
                },
            }
            j = j + 1;
        }
        proof {
            assert(names.take(listed@.len() as int) =~= names);
            assert forall|k: Seq<char>| #[trigger] self.store.packages().contains_key(k)
                <==> m0.contains_key(k) by {
                lemma_mark_frame(m0, names, true, k);
            }
            assert forall|k: Seq<char>| #[trigger] m0.contains_key(k) implies self.store.packages()[k]
                == (if m0[k].category_name == category_name@ {
                (PackageDataView { installed: true, ..m0[k] })
            } else {
                m0[k]
            }) by {
                lemma_mark_frame(m0, names, true, k);
                if m0[k].category_name == category_name@ {
                    let t = choose|t: int|
                        0 <= t < listed@.len() && (#[trigger] listed@[t])@.package_name == k;
                    assert(names[t] == k);
                    assert(names.contains(k));
                } else {
                    if names.contains(k) {
                        let t = choose|t: int| 0 <= t < names.len() && names[t] == k;
                        assert(listed@[t]@.package_name == k);
                        assert(m0.contains_pair(listed@[t]@.package_name, listed@[t]@));
                        assert(false);
                    }
                }
            }
        }
        Ok(())
    }

    /// Uninstalls every tracked package of the given category, stopping at
    /// the first failure: on success each of the category's packages has
    /// been removed from the host system and its `installed` flag reset,
    /// while every entry stays tracked.
    pub fn uninstall_category(&mut self, category_name: String) -> (r: Result<(), Error>)
        requires
            old(self).wf(),
        ensures
            final(self).wf(),
            final(self).tools() == old(self).tools(),
            final(self).categories() == old(self).categories(),
            forall|k: Seq<char>| #[trigger] final(self).packages().contains_key(k) <==> old(self).packages().contains_key(k),
            forall|k: Seq<char>| #[trigger] old(self).packages().contains_key(k)
                ==> final(self).packages()[k] == old(self).packages()[k]
                    || final(self).packages()[k] == (PackageDataView {
                    installed: false,
                    ..old(self).packages()[k]
                }),
            match r {
                Ok(()) => forall|k: Seq<char>| #[trigger] old(self).packages().contains_key(k)
                    ==> final(self).packages()[k] == (if old(self).packages()[k].category_name
                        == category_name@ {
                        (PackageDataView { installed: false, ..old(self).packages()[k] })
                    } else {
                        old(self).packages()[k]
                    }),
                Err(e) => match e {
                    Error::CategoryDoesNotExist => {
                        &&& !old(self).categories().contains_key(category_name@)
                        &&& final(self).packages() == old(self).packages()
                    },
                    Error::PackageDoesNotExists => false,
                    Error::PackageAlreadyExists => false,
                    Error::InstallationToolDoesNotExist => {
                        &&& old(self).categories().contains_key(category_name@)
                        &&& exists|k: Seq<char>|
                            #[trigger] old(self).packages().contains_key(k)
                                && old(self).packages()[k].category_name == category_name@
                                && !old(self).tool_registered(
                                old(self).packages()[k].installation_tool,
                            )
                    },
                    Error::Installer(_) => old(self).categories().contains_key(category_name@),
                    Error::Store(_) => true,
                },
            },
    {
        let category_present = match self.store.category_exists(category_name.as_str()) {
            Ok(b) => b,
            Err(e) => return Err(Error::Store(e)),
        };
        if !category_present {
            return Err(Error::CategoryDoesNotExist);
        }
        let listed = match self.store.get_packages_by_category(category_name.as_str()) {
            Ok(v) => v,
            Err(e) => return Err(Error::Store(e)),
        };
        let ghost m0 = old(self).store.packages();
        let ghost names = Seq::new(listed@.len(), |t: int| listed@[t]@.package_name);
        let mut j: usize = 0;
        while j < listed.len()
            invariant
                j <= listed@.len(),
                old(self).wf(),
                self.wf(),
                old(self).store.categories().contains_key(category_name@),
                m0 == old(self).store.packages(),
                names.len() == listed@.len(),
                forall|t: int| 0 <= t < names.len() ==> names[t] == (#[trigger] listed@[t])@.package_name,
                self.store.categories() == old(self).store.categories(),
                tools_of(self.package_installers@) == tools_of(old(self).package_installers@),
                forall|t: int| 0 <= t < listed@.len() ==> m0.contains_pair(
                    (#[trigger] listed@[t])@.package_name,
                    listed@[t]@,
                ) && listed@[t]@.category_name == category_name@,
                forall|k: Seq<char>|
                    m0.contains_key(k) && (#[trigger] m0[k]).category_name == category_name@
                        ==> exists|t: int|
                        0 <= t < listed@.len() && (#[trigger] listed@[t])@.package_name == k,
                self.store.packages() == spec_mark(m0, names.take(j as int), false),
            decreases listed@.len() - j,
        {
            let ghost prev = self.store.packages();
            proof {
                assert(names.take(j + 1).drop_last() =~= names.take(j as int));
                assert(names.take(j + 1).last() == names[j as int]);
                lemma_mark_frame(m0, names.take(j as int), false, names[j as int]);
                assert(prev.contains_key(listed@[j as int]@.package_name));
            }
            match self.uninstall_package(listed[j].package_name.clone()) {
                Ok(_) => {},
                Err(e) => {
                    proof {
                        if e is InstallationToolDoesNotExist {
                            assert(m0.contains_key(names[j as int]));
                            assert(m0[names[j as int]].category_name == category_name@);
                            assert(prev[names[j as int]].installation_tool == m0[names[
                                j as int]].installation_tool);
                            assert(!old(self).tool_registered(
                                prev[names[j as int]].installation_tool,
                            ));
                            assert(exists|k: Seq<char>|
                                #[trigger] m0.contains_key(k) && m0[k].category_name
                                    == category_name@ && !old(self).tool_registered(
                                    m0[k].installation_tool,
                                ));
                        }
                        let w = if self.store.packages() == spec_mark(
                            m0,
                            names.take(j as int),
                            false,
                        ) {
                            names.take(j as int)
                        } else {
                            names.take(j + 1)
                        };
                        assert(self.store.packages() == spec_mark(m0, w, false));
                        assert forall|k: Seq<char>| #[trigger] self.store.packages().contains_key(
                            k,
                        ) <==> m0.contains_key(k) by {
                            lemma_mark_frame(m0, w, false, k);
                        }
                        assert forall|k: Seq<char>| #[trigger] m0.contains_key(
                            k,
                        ) implies self.store.packages()[k] == m0[k] || self.store.packages()[k]
                            == (PackageDataView { installed: false, ..m0[k] }) by {
                            lemma_mark_frame(m0, w, false, k);
                        }
                    }
                    return Err(e);
                },
            }
            j = j + 1;
        }
        proof {
            assert(names.take(listed@.len() as int) =~= names);
            assert forall|k: Seq<char>| #[trigger] self.store.packages().contains_key(k)
                <==> m0.contains_key(k) by {
                lemma_mark_frame(m0, names, false, k);
            }
            assert forall|k: Seq<char>| #[trigger] m0.contains_key(k) implies self.store.packages()[k]
                == (if m0[k].category_name == category_name@ {
                (PackageDataView { installed: false, ..m0[k] })
            } else {
                m0[k]
            }) by {
                lemma_mark_frame(m0, names, false, k);
                if m0[k].category_name == category_name@ {
                    let t = choose|t: int|
                        0 <= t < listed@.len() && (#[trigger] listed@[t])@.package_name == k;
                    assert(names[t] == k);
                    assert(names.contains(k));
                } else {
                    if names.contains(k) {
                        let t = choose|t: int| 0 <= t < names.len() && names[t] == k;
                        assert(listed@[t]@.package_name == k);
                        assert(m0.contains_pair(listed@[t]@.package_name, listed@[t]@));
                        assert(false);
                    }
                }
            }
        }
        Ok(())
    }
}

} // verus!

