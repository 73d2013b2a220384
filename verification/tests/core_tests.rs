use pazckager::err::Error;
use pazckager::models::{
    Category, InstallationTools, PackageData, PazckagerCoreBuilder, RawPackageData,
};
use pazckager::storage::MemoryStorage;
use pazckager::traits::{InstallationTool, PazckagerStorage, StoreError, ToolError};
use pazckager::PazckagerCore;

struct MockInstaller {
    tool: InstallationTools,
    fail_install: bool,
    fail_delete: bool,
    fail_update: bool,
    reported: Vec<(String, InstallationTools)>,
}

impl MockInstaller {
    fn ok(tool: InstallationTools) -> MockInstaller {
        MockInstaller {
            tool,
            fail_install: false,
            fail_delete: false,
            fail_update: false,
            reported: Vec::new(),
        }
    }
}

impl InstallationTool for MockInstaller {
    // The erased form of the contract's spec function; never called at run
    // time.
    fn type_spec(&self) -> InstallationTools {
        self.tool
    }

    fn get_type(&self) -> InstallationTools {
        self.tool
    }

    fn install_package(&mut self, package_name: &str) -> Result<(), ToolError> {
        if self.fail_install {
            Err(ToolError::InstallingPackage(format!("mock refused {package_name}")))
        } else {
            Ok(())
        }
    }

    fn delete_package(&mut self, package_name: &str) -> Result<(), ToolError> {
        if self.fail_delete {
            Err(ToolError::DeletingPackage(format!("mock refused {package_name}")))
        } else {
            Ok(())
        }
    }

    fn update_package(&mut self, package_name: &str) -> Result<(), ToolError> {
        if self.fail_update {
            Err(ToolError::UpdatingPackage(format!("mock refused {package_name}")))
        } else {
            Ok(())
        }
    }

    fn get_packages(&self) -> Vec<RawPackageData> {
        self.reported
            .iter()
            .map(|(name, tool)| RawPackageData {
                package_name: name.clone(),
                installation_tool: *tool,
                category_name: String::new(),
            })
            .collect()
    }
}

fn new_core() -> PazckagerCore<MemoryStorage, MockInstaller> {
    PazckagerCoreBuilder::new(MemoryStorage::new())
        .with_installer(MockInstaller::ok(InstallationTools::Pacman))
        .build()
        .unwrap()
}

fn sorted_packages<T: PazckagerStorage, I: InstallationTool>(
    core: &PazckagerCore<T, I>,
) -> Vec<PackageData> {
    let mut packages = core.get_packages().unwrap();
    packages.sort_by(|a, b| a.package_name.cmp(&b.package_name));
    packages
}

fn find_package<T: PazckagerStorage, I: InstallationTool>(
    core: &PazckagerCore<T, I>,
    name: &str,
) -> Option<PackageData> {
    core.get_packages()
        .unwrap()
        .into_iter()
        .find(|p| p.package_name == name)
}

#[test]
fn add_duplicate_package_fails_and_preserves_entry() {
    let mut core = new_core();
    core.add_category("dev".to_string(), None).unwrap();
    core.add_package("pkg".to_string(), Some(InstallationTools::Pacman), None)
        .unwrap();
    let before = find_package(&core, "pkg").unwrap();
    let again = core.add_package(
        "pkg".to_string(),
        Some(InstallationTools::Pacman),
        Some("dev".to_string()),
    );
    assert!(matches!(again, Err(Error::PackageAlreadyExists)));
    assert_eq!(find_package(&core, "pkg").unwrap(), before);
}

#[test]
fn default_category_exists_after_construction() {
    let core = new_core();
    let categories = core.get_categories().unwrap();
    assert!(categories.iter().any(|c| c.category_name == "default"));
}

#[test]
fn default_category_seeded_even_with_prior_contents() {
    let storage = MemoryStorage::from_records(
        vec![Category {
            category_name: "custom".to_string(),
            additional_info: None,
        }],
        vec![],
    )
    .unwrap();
    let core = PazckagerCoreBuilder::new(storage)
        .with_installer(MockInstaller::ok(InstallationTools::Pacman))
        .build()
        .unwrap();
    let categories = core.get_categories().unwrap();
    assert!(categories.iter().any(|c| c.category_name == "default"));
    assert!(categories.iter().any(|c| c.category_name == "custom"));
}

#[test]
fn default_category_kept_unchanged_when_already_stored() {
    let mut storage = MemoryStorage::new();
    storage
        .store_category(Category {
            category_name: "default".to_string(),
            additional_info: Some("kept".to_string()),
        })
        .unwrap();
    let core = PazckagerCoreBuilder::new(storage)
        .with_installer(MockInstaller::ok(InstallationTools::Pacman))
        .build()
        .unwrap();
    let categories = core.get_categories().unwrap();
    assert_eq!(categories.len(), 1);
    assert_eq!(categories[0].additional_info.as_deref(), Some("kept"));
}

#[test]
fn add_package_unknown_category_writes_nothing() {
    let mut core = new_core();
    let r = core.add_package(
        "name".to_string(),
        Some(InstallationTools::Pacman),
        Some("nonexistent".to_string()),
    );
    assert!(matches!(r, Err(Error::CategoryDoesNotExist)));
    assert!(find_package(&core, "name").is_none());
}

#[test]
fn add_package_defaults() {
    let mut core = new_core();
    core.add_package("plain".to_string(), None, None).unwrap();
    core.add_package("empty_cat".to_string(), None, Some(String::new()))
        .unwrap();
    let plain = find_package(&core, "plain").unwrap();
    assert_eq!(plain.category_name, "default");
    assert_eq!(plain.installation_tool, InstallationTools::Pacman);
    assert!(!plain.installed);
    let coerced = find_package(&core, "empty_cat").unwrap();
    assert_eq!(coerced.category_name, "default");
}

#[test]
fn add_package_unknown_tool_fails() {
    let mut core = new_core();
    let r = core.add_package("p".to_string(), Some(InstallationTools::Yay), None);
    assert!(matches!(r, Err(Error::InstallationToolDoesNotExist)));
}

#[test]
fn install_marks_package_installed() {
    let mut core = new_core();
    core.add_package("tool".to_string(), None, None).unwrap();
    assert!(!find_package(&core, "tool").unwrap().installed);
    core.install_package("tool".to_string()).unwrap();
    assert!(find_package(&core, "tool").unwrap().installed);
}

#[test]
fn install_failure_propagates_and_keeps_flag_clear() {
    let mut installer = MockInstaller::ok(InstallationTools::Pacman);
    installer.fail_install = true;
    let mut core = PazckagerCoreBuilder::new(MemoryStorage::new())
        .with_installer(installer)
        .build()
        .unwrap();
    core.add_package("tool".to_string(), None, None).unwrap();
    let r = core.install_package("tool".to_string());
    assert!(matches!(r, Err(Error::Installer(ToolError::InstallingPackage(_)))));
    assert!(!find_package(&core, "tool").unwrap().installed);
}

#[test]
fn install_missing_package_fails() {
    let mut core = new_core();
    let r = core.install_package("ghostly".to_string());
    assert!(matches!(r, Err(Error::PackageDoesNotExists)));
}

#[test]
fn install_with_unregistered_tool_fails() {
    let storage = MemoryStorage::from_records(
        vec![],
        vec![PackageData {
            package_name: "foreign".to_string(),
            installation_tool: InstallationTools::Yay,
            category_name: "default".to_string(),
            installed: false,
        }],
    )
    .unwrap();
    let mut core = PazckagerCoreBuilder::new(storage)
        .with_installer(MockInstaller::ok(InstallationTools::Pacman))
        .build()
        .unwrap();
    let r = core.install_package("foreign".to_string());
    assert!(matches!(r, Err(Error::InstallationToolDoesNotExist)));
}

#[test]
fn delete_package_removes_entry_only_after_tool_success() {
    let mut core = new_core();
    core.add_package("gone".to_string(), None, None).unwrap();
    core.delete_package("gone".to_string()).unwrap();
    assert!(find_package(&core, "gone").is_none());

    let mut installer = MockInstaller::ok(InstallationTools::Pacman);
    installer.fail_delete = true;
    let mut core = PazckagerCoreBuilder::new(MemoryStorage::new())
        .with_installer(installer)
        .build()
        .unwrap();
    core.add_package("kept".to_string(), None, None).unwrap();
    let r = core.delete_package("kept".to_string());
    assert!(matches!(r, Err(Error::Installer(ToolError::DeletingPackage(_)))));
    assert!(find_package(&core, "kept").is_some());
}

#[test]
fn uninstall_keeps_entry_and_resets_flag() {
    let mut core = new_core();
    core.add_package("app".to_string(), None, None).unwrap();
    core.install_package("app".to_string()).unwrap();
    assert!(find_package(&core, "app").unwrap().installed);
    core.uninstall_package("app".to_string()).unwrap();
    let entry = find_package(&core, "app").unwrap();
    assert!(!entry.installed);
}

#[test]
fn update_package_leaves_catalog_unchanged() {
    let mut core = new_core();
    core.add_package("app".to_string(), None, None).unwrap();
    let before = sorted_packages(&core);
    core.update_package("app".to_string()).unwrap();
    assert_eq!(sorted_packages(&core), before);
    let mut installer = MockInstaller::ok(InstallationTools::Pacman);
    installer.fail_update = true;
    let mut core = PazckagerCoreBuilder::new(MemoryStorage::new())
        .with_installer(installer)
        .build()
        .unwrap();
    core.add_package("app".to_string(), None, None).unwrap();
    let r = core.update_package("app".to_string());
    assert!(matches!(r, Err(Error::Installer(ToolError::UpdatingPackage(_)))));
}

#[test]
fn sync_twice_yields_same_catalog() {
    let mut installer = MockInstaller::ok(InstallationTools::Pacman);
    installer.reported = vec![
        ("alpha".to_string(), InstallationTools::Pacman),
        ("beta".to_string(), InstallationTools::Pacman),
    ];
    let mut core = PazckagerCoreBuilder::new(MemoryStorage::new())
        .with_installer(installer)
        .build()
        .unwrap();
    core.sync_packages().unwrap();
    let after_first = sorted_packages(&core);
    assert_eq!(after_first.len(), 2);
    core.sync_packages().unwrap();
    assert_eq!(sorted_packages(&core), after_first);
}

#[test]
fn sync_imports_only_untracked_packages() {
    let mut installer = MockInstaller::ok(InstallationTools::Pacman);
    installer.reported = vec![
        ("known".to_string(), InstallationTools::Pacman),
        ("fresh".to_string(), InstallationTools::Pacman),
    ];
    let mut core = PazckagerCoreBuilder::new(MemoryStorage::new())
        .with_installer(installer)
        .build()
        .unwrap();
    core.add_category("dev".to_string(), None).unwrap();
    core.add_package("known".to_string(), None, Some("dev".to_string()))
        .unwrap();
    core.sync_packages().unwrap();
    let known = find_package(&core, "known").unwrap();
    assert_eq!(known.category_name, "dev");
    assert!(!known.installed);
    let fresh = find_package(&core, "fresh").unwrap();
    assert_eq!(fresh.category_name, "default");
    assert!(fresh.installed);
}

#[test]
fn category_filter_returns_exact_subset() {
    let mut core = new_core();
    core.add_category("dev".to_string(), None).unwrap();
    core.add_package("a".to_string(), None, None).unwrap();
    core.add_package("b".to_string(), None, Some("dev".to_string()))
        .unwrap();
    core.add_package("c".to_string(), None, Some("dev".to_string()))
        .unwrap();
    let mut dev: Vec<String> = core
        .get_package_by_category("dev".to_string())
        .unwrap()
        .into_iter()
        .map(|p| p.package_name)
        .collect();
    dev.sort();
    assert_eq!(dev, vec!["b".to_string(), "c".to_string()]);
    assert!(core
        .get_package_by_category("lonely".to_string())
        .unwrap()
        .is_empty());
}

#[test]
fn stored_values_round_trip_through_core() {
    let mut core = new_core();
    core.add_category("tools".to_string(), Some("handy things".to_string()))
        .unwrap();
    let cat = core.get_category("tools".to_string()).unwrap();
    assert_eq!(
        cat,
        Category {
            category_name: "tools".to_string(),
            additional_info: Some("handy things".to_string()),
        }
    );
    core.add_package("hammer".to_string(), None, Some("tools".to_string()))
        .unwrap();
    let pkg = find_package(&core, "hammer").unwrap();
    assert_eq!(
        pkg,
        PackageData {
            package_name: "hammer".to_string(),
            installation_tool: InstallationTools::Pacman,
            category_name: "tools".to_string(),
            installed: false,
        }
    );
}

#[test]
fn builder_requires_an_installer() {
    let builder: PazckagerCoreBuilder<MemoryStorage, MockInstaller> =
        PazckagerCoreBuilder::new(MemoryStorage::new());
    assert!(matches!(
        builder.build(),
        Err(pazckager::models::BuilderError::NoPackageInstaller)
    ));
    let core = PazckagerCoreBuilder::new(MemoryStorage::new())
        .with_installer(MockInstaller::ok(InstallationTools::Pacman))
        .build()
        .unwrap();
    assert!(core
        .get_categories()
        .unwrap()
        .iter()
        .any(|c| c.category_name == "default"));
}

#[test]
fn later_installer_of_same_type_wins() {
    let mut loser = MockInstaller::ok(InstallationTools::Pacman);
    loser.fail_install = true;
    let winner = MockInstaller::ok(InstallationTools::Pacman);
    let mut core = PazckagerCoreBuilder::new(MemoryStorage::new())
        .with_installer(loser)
        .with_installer(winner)
        .build()
        .unwrap();
    core.add_package("p".to_string(), None, None).unwrap();
    core.install_package("p".to_string()).unwrap();
    assert!(find_package(&core, "p").unwrap().installed);
}

#[test]
fn get_category_missing_fails() {
    let core = new_core();
    let r = core.get_category("absent".to_string());
    assert!(matches!(r, Err(Error::CategoryDoesNotExist)));
}

#[test]
fn change_package_category_moves_entry() {
    let mut core = new_core();
    core.add_category("dev".to_string(), None).unwrap();
    core.add_package("p".to_string(), None, None).unwrap();
    core.change_package_category("dev".to_string(), "p".to_string())
        .unwrap();
    assert_eq!(find_package(&core, "p").unwrap().category_name, "dev");
    let missing_pkg = core.change_package_category("dev".to_string(), "nope".to_string());
    assert!(matches!(missing_pkg, Err(Error::PackageDoesNotExists)));
    let missing_cat = core.change_package_category("nope".to_string(), "p".to_string());
    assert!(matches!(missing_cat, Err(Error::CategoryDoesNotExist)));
}

#[test]
fn delete_category_keeps_other_categories_and_default() {
    let mut core = new_core();
    core.add_category("dev".to_string(), None).unwrap();
    core.add_category("games".to_string(), None).unwrap();
    core.delete_category("dev".to_string()).unwrap();
    let names: Vec<String> = core
        .get_categories()
        .unwrap()
        .into_iter()
        .map(|c| c.category_name)
        .collect();
    assert!(names.contains(&"default".to_string()));
    assert!(names.contains(&"games".to_string()));
    assert!(!names.contains(&"dev".to_string()));
    core.delete_category("default".to_string()).unwrap();
    let names: Vec<String> = core
        .get_categories()
        .unwrap()
        .into_iter()
        .map(|c| c.category_name)
        .collect();
    assert!(names.contains(&"default".to_string()));
    let r = core.delete_category("absent".to_string());
    assert!(matches!(r, Err(Error::CategoryDoesNotExist)));
}

#[test]
fn install_category_installs_exactly_its_packages() {
    let mut core = new_core();
    core.add_category("dev".to_string(), None).unwrap();
    core.add_package("in_a".to_string(), None, Some("dev".to_string()))
        .unwrap();
    core.add_package("in_b".to_string(), None, Some("dev".to_string()))
        .unwrap();
    core.add_package("out".to_string(), None, None).unwrap();
    core.install_category("dev".to_string()).unwrap();
    assert!(find_package(&core, "in_a").unwrap().installed);
    assert!(find_package(&core, "in_b").unwrap().installed);
    assert!(!find_package(&core, "out").unwrap().installed);
    let r = core.install_category("absent".to_string());
    assert!(matches!(r, Err(Error::CategoryDoesNotExist)));
}

#[test]
fn uninstall_category_resets_exactly_its_packages() {
    let mut core = new_core();
    core.add_category("dev".to_string(), None).unwrap();
    core.add_package("in".to_string(), None, Some("dev".to_string()))
        .unwrap();
    core.add_package("out".to_string(), None, None).unwrap();
    core.install_package("in".to_string()).unwrap();
    core.install_package("out".to_string()).unwrap();
    core.uninstall_category("dev".to_string()).unwrap();
    assert!(!find_package(&core, "in").unwrap().installed);
    assert!(find_package(&core, "out").unwrap().installed);
}

struct FailingStorage;

impl PazckagerStorage for FailingStorage {
    // The erased forms of the contract's spec functions; never called at run
    // time.
    fn categories(
        &self,
    ) -> vstd::map::Map<vstd::seq::Seq<char>, pazckager::models::CategoryView> {
        panic!("ghost state has no run-time value")
    }
    fn packages(
        &self,
    ) -> vstd::map::Map<vstd::seq::Seq<char>, pazckager::models::PackageDataView> {
        panic!("ghost state has no run-time value")
    }

    fn store_category(&mut self, _category: Category) -> Result<(), StoreError> {
        Err(StoreError::InternalStoreError("store down".to_string()))
    }
    fn get_categories(&self) -> Result<Vec<Category>, StoreError> {
        Err(StoreError::InternalStoreError("store down".to_string()))
    }
    fn category_exists(&self, _category_name: &str) -> Result<bool, StoreError> {
        Err(StoreError::InternalStoreError("store down".to_string()))
    }
    fn remove_category(&mut self) -> Result<(), StoreError> {
        Err(StoreError::InternalStoreError("store down".to_string()))
    }
    fn store_package(&mut self, _package: PackageData) -> Result<(), StoreError> {
        Err(StoreError::InternalStoreError("store down".to_string()))
    }
    fn update_package(&mut self, _package: PackageData) -> Result<(), StoreError> {
        Err(StoreError::InternalStoreError("store down".to_string()))
    }
    fn get_packages(&self) -> Result<Vec<PackageData>, StoreError> {
        Err(StoreError::InternalStoreError("store down".to_string()))
    }
    fn package_exists(&self, _package_name: &str) -> Result<bool, StoreError> {
        Err(StoreError::InternalStoreError("store down".to_string()))
    }
    fn get_package(&self, _package_name: &str) -> Result<PackageData, StoreError> {
        Err(StoreError::InternalStoreError("store down".to_string()))
    }
    fn get_packages_by_category(&self, _category_name: &str) -> Result<Vec<PackageData>, StoreError> {
        Err(StoreError::InternalStoreError("store down".to_string()))
    }
    fn remove_package(&mut self, _package_name: &str) -> Result<(), StoreError> {
        Err(StoreError::InternalStoreError("store down".to_string()))
    }
}

#[test]
fn storage_failure_propagates_unchanged() {
    let r = PazckagerCoreBuilder::new(FailingStorage)
        .with_installer(MockInstaller::ok(InstallationTools::Pacman))
        .build();
    assert!(matches!(
        r,
        Err(pazckager::models::BuilderError::PazckagerCore(Error::Store(
            StoreError::InternalStoreError(_)
        )))
    ));
}
