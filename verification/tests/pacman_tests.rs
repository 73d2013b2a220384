use pazckager::models::InstallationTools;
use pazckager::pacman::{parse_reported_packages, PacmanInstaller, PermissionMethod};

fn reported_names(output: &str) -> Vec<String> {
    parse_reported_packages(output)
        .into_iter()
        .map(|p| p.package_name)
        .collect()
}

#[test]
fn query_report_lines_become_records() {
    let records = parse_reported_packages("htop 3.3.0\nvim 9.1.0\n");
    assert_eq!(records.len(), 2);
    assert_eq!(records[0].package_name, "htop");
    assert_eq!(records[0].installation_tool, InstallationTools::Pacman);
    assert_eq!(records[0].category_name, "");
    assert_eq!(records[1].package_name, "vim");
}

#[test]
fn query_report_takes_each_first_token() {
    assert_eq!(
        reported_names("  indented 1.0\nplain\t2.0\nbare\n"),
        vec!["indented".to_string(), "plain".to_string(), "bare".to_string()]
    );
    assert_eq!(
        reported_names("crlf 1.0\r\nlast 2.0"),
        vec!["crlf".to_string(), "last".to_string()]
    );
}

#[test]
fn query_report_edge_cases() {
    assert!(reported_names("").is_empty());
    assert_eq!(reported_names("\n"), vec![String::new()]);
    assert_eq!(
        reported_names("a 1\n\nb 2"),
        vec!["a".to_string(), String::new(), "b".to_string()]
    );
    assert_eq!(reported_names("   \n"), vec![String::new()]);
}

#[test]
fn test_pacman_installer_creation() {
    let installer = PacmanInstaller::new(PermissionMethod::Sudo);
    assert_eq!(installer.get_type(), InstallationTools::Pacman);
}

#[test]
fn pacman_installer_keeps_permission_method() {
    let installer = PacmanInstaller::new(PermissionMethod::Pkexec);
    assert!(matches!(installer.permission_method(), PermissionMethod::Pkexec));
    let installer = PacmanInstaller::new(PermissionMethod::Sudo);
    assert!(matches!(installer.permission_method(), PermissionMethod::Sudo));
}
