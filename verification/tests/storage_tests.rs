use pazckager::models::{Category, InstallationTools, PackageData};
use pazckager::storage::MemoryStorage;
use pazckager::traits::PazckagerStorage;

fn category(name: &str, info: Option<&str>) -> Category {
    Category {
        category_name: name.to_string(),
        additional_info: info.map(|s| s.to_string()),
    }
}

fn package(name: &str, cat: &str, installed: bool) -> PackageData {
    PackageData {
        package_name: name.to_string(),
        installation_tool: InstallationTools::Pacman,
        category_name: cat.to_string(),
        installed,
    }
}

#[test]
fn memory_storage_round_trip() {
    let mut storage = MemoryStorage::new();

    let cat = category("test", Some("info"));
    storage.store_category(cat.clone()).unwrap();
    assert!(storage.category_exists("test").unwrap());
    let categories = storage.get_categories().unwrap();
    assert_eq!(categories.len(), 1);
    assert_eq!(categories[0], cat);

    let pkg = package("test_pkg", "test", false);
    storage.store_package(pkg.clone()).unwrap();
    assert!(storage.package_exists("test_pkg").unwrap());
    let packages = storage.get_packages().unwrap();
    assert_eq!(packages.len(), 1);
    assert_eq!(packages[0], pkg);
    assert_eq!(storage.get_package("test_pkg").unwrap(), pkg);
}

#[test]
fn store_category_overwrites_same_name() {
    let mut storage = MemoryStorage::new();
    storage.store_category(category("c", Some("old"))).unwrap();
    storage.store_category(category("c", Some("new"))).unwrap();
    let categories = storage.get_categories().unwrap();
    assert_eq!(categories.len(), 1);
    assert_eq!(categories[0].additional_info.as_deref(), Some("new"));
}

#[test]
fn update_package_overwrites_same_name() {
    let mut storage = MemoryStorage::new();
    storage.store_package(package("p", "default", false)).unwrap();
    storage.update_package(package("p", "default", true)).unwrap();
    let packages = storage.get_packages().unwrap();
    assert_eq!(packages.len(), 1);
    assert!(packages[0].installed);
}

#[test]
fn get_package_missing_fails() {
    let storage = MemoryStorage::new();
    assert!(storage.get_package("absent").is_err());
}

#[test]
fn remove_package_deletes_single_entry() {
    let mut storage = MemoryStorage::new();
    storage.store_package(package("a", "default", false)).unwrap();
    storage.store_package(package("b", "default", false)).unwrap();
    storage.remove_package("a").unwrap();
    assert!(!storage.package_exists("a").unwrap());
    assert!(storage.package_exists("b").unwrap());
}

#[test]
fn remove_package_absent_is_noop() {
    let mut storage = MemoryStorage::new();
    storage.store_package(package("a", "default", false)).unwrap();
    storage.remove_package("zzz").unwrap();
    assert_eq!(storage.get_packages().unwrap().len(), 1);
}

#[test]
fn remove_category_clears_all_categories() {
    let mut storage = MemoryStorage::new();
    storage.store_category(category("a", None)).unwrap();
    storage.store_category(category("b", None)).unwrap();
    storage.store_package(package("p", "a", false)).unwrap();
    storage.remove_category().unwrap();
    assert!(storage.get_categories().unwrap().is_empty());
    assert_eq!(storage.get_packages().unwrap().len(), 1);
}

#[test]
fn packages_by_category_filters_exactly() {
    let mut storage = MemoryStorage::new();
    storage.store_package(package("a", "default", false)).unwrap();
    storage.store_package(package("b", "dev", false)).unwrap();
    storage.store_package(package("c", "dev", true)).unwrap();
    let mut dev: Vec<String> = storage
        .get_packages_by_category("dev")
        .unwrap()
        .into_iter()
        .map(|p| p.package_name)
        .collect();
    dev.sort();
    assert_eq!(dev, vec!["b".to_string(), "c".to_string()]);
    assert!(storage.get_packages_by_category("empty").unwrap().is_empty());
}

#[test]
fn from_records_keeps_contents() {
    let storage = MemoryStorage::from_records(
        vec![category("default", None), category("dev", None)],
        vec![package("p", "dev", true)],
    )
    .unwrap();
    assert!(storage.category_exists("default").unwrap());
    assert!(storage.category_exists("dev").unwrap());
    assert!(storage.get_package("p").unwrap().installed);
}

#[test]
fn from_records_rejects_duplicate_names() {
    assert!(MemoryStorage::from_records(
        vec![category("dup", None), category("dup", Some("x"))],
        vec![],
    )
    .is_err());
    assert!(MemoryStorage::from_records(
        vec![],
        vec![package("dup", "a", false), package("dup", "b", true)],
    )
    .is_err());
}
