use std::str::FromStr;

use pazckager::err::Error;
use pazckager::models::{BuilderError, Category, InstallationTools, RawPackageData};
use pazckager::traits::{StoreError, ToolError};

#[test]
fn tool_names_parse_case_insensitively() {
    assert_eq!(
        InstallationTools::from_name("pacman").unwrap(),
        InstallationTools::Pacman
    );
    assert_eq!(
        InstallationTools::from_name("PACMAN").unwrap(),
        InstallationTools::Pacman
    );
    assert_eq!(
        InstallationTools::from_name("Yay").unwrap(),
        InstallationTools::Pacman
    );
    assert_eq!(
        InstallationTools::from_str("pacman").unwrap(),
        InstallationTools::Pacman
    );
}

#[test]
fn unknown_tool_name_is_rejected() {
    let r = InstallationTools::from_name("zypper");
    assert_eq!(r.unwrap_err(), "Tool is not supported".to_string());
    assert!("".parse::<InstallationTools>().is_err());
}

#[test]
fn raw_package_data_completes_into_a_record() {
    let raw = RawPackageData {
        package_name: "htop".to_string(),
        installation_tool: InstallationTools::Pacman,
        category_name: String::new(),
    };
    let pkg = raw.to_package_data(true);
    assert_eq!(pkg.package_name, "htop");
    assert_eq!(pkg.installation_tool, InstallationTools::Pacman);
    assert_eq!(pkg.category_name, "");
    assert!(pkg.installed);
}

#[test]
fn clones_preserve_all_fields() {
    let cat = Category {
        category_name: "tools".to_string(),
        additional_info: Some("info".to_string()),
    };
    assert_eq!(cat.clone(), cat);
}

#[test]
fn error_messages_match_their_variants() {
    assert_eq!(Error::PackageAlreadyExists.message(), "Package already exists");
    assert_eq!(Error::PackageDoesNotExists.message(), "Package does not exists");
    assert_eq!(
        Error::InstallationToolDoesNotExist.message(),
        "Installation tool does not exist"
    );
    assert_eq!(Error::CategoryDoesNotExist.message(), "Category does not exists");
    assert_eq!(
        Error::Installer(ToolError::InstallingPackage("boom".to_string())).message(),
        "Error installing package: boom"
    );
    assert_eq!(
        ToolError::DeletingPackage("d".to_string()).message(),
        "Error deleting package: d"
    );
    assert_eq!(
        ToolError::UpdatingPackage("u".to_string()).message(),
        "Error updating package: u"
    );
    assert_eq!(
        Error::Store(StoreError::InternalStoreError("io".to_string())).message(),
        "Store error: io"
    );
    assert_eq!(
        BuilderError::NoPackageInstaller.message(),
        "Colud not find a package installer"
    );
    assert_eq!(
        BuilderError::PazckagerCore(Error::PackageAlreadyExists).message(),
        "Pazckager core error: Package already exists"
    );
}
