use linuxy::cli::{
    ignored_message, installing_message, is_appimage_path, is_deb_path, is_exe_path, is_rpm_path,
    listing_header, listing_line, plan_cli, CliAction, PackageKind,
};

#[test]
fn cli_suffixes_ignore_ascii_case() {
    assert!(is_appimage_path("/home/u/Tool.APPIMAGE"));
    assert!(is_deb_path("pkg.DeB"));
    assert!(is_rpm_path("pkg.RPM"));
    assert!(is_exe_path("setup.EXE"));
    assert!(is_exe_path("setup.msi"));
    assert!(!is_exe_path("setup.exe.txt"));
    assert!(!is_deb_path("deb"));
}

fn args(a: &[&str]) -> Vec<String> {
    a.iter().map(|s| s.to_string()).collect()
}

fn file(kind: PackageKind, path: &str) -> CliAction {
    CliAction::InstallFile { kind, path: path.to_string() }
}

#[test]
fn cli_local_files_select_their_installer() {
    assert_eq!(plan_cli(&args(&["/tmp/a.AppImage"]), true, false), file(PackageKind::AppImage, "/tmp/a.AppImage"));
    assert_eq!(plan_cli(&args(&["/tmp/a.deb"]), true, true), file(PackageKind::Deb, "/tmp/a.deb"));
    assert_eq!(plan_cli(&args(&["/tmp/a.rpm"]), true, false), file(PackageKind::Rpm, "/tmp/a.rpm"));
    assert_eq!(plan_cli(&args(&["/tmp/a.msi"]), true, false), file(PackageKind::Executable, "/tmp/a.msi"));
}

#[test]
fn cli_missing_or_remote_files_are_not_installed() {
    assert_eq!(plan_cli(&args(&["/tmp/a.deb"]), false, true), CliAction::ListApps);
    assert_eq!(plan_cli(&args(&["/tmp/a.deb"]), false, false), CliAction::Ignore);
    assert_eq!(plan_cli(&args(&["linuxy://host/file.deb"]), true, false), CliAction::Ignore);
    assert_eq!(plan_cli(&args(&["https://example.com/x.AppImage"]), true, true), CliAction::ListApps);
    assert_eq!(plan_cli(&args(&["notes.txt"]), true, true), CliAction::ListApps);
    assert_eq!(plan_cli(&args(&[]), false, true), CliAction::Ignore);
}

#[test]
fn cli_documented_subcommands() {
    assert_eq!(
        plan_cli(&args(&["install", "~/Downloads/App.AppImage"]), false, true),
        file(PackageKind::AppImage, "~/Downloads/App.AppImage")
    );
    assert_eq!(plan_cli(&args(&["install", "/tmp/p.DEB"]), false, false), file(PackageKind::Deb, "/tmp/p.DEB"));
    assert_eq!(plan_cli(&args(&["install", "/tmp/tool"]), false, false), file(PackageKind::AppImage, "/tmp/tool"));
    assert_eq!(
        plan_cli(&args(&["install", "https://example.org/app"]), true, false),
        CliAction::InstallUrl { url: "https://example.org/app".to_string(), name: "app".to_string() }
    );
    assert_eq!(plan_cli(&args(&["list"]), true, false), CliAction::ListApps);
    assert_eq!(plan_cli(&args(&["launch", "AppName"]), false, false), CliAction::Launch { name: "AppName".to_string() });
    assert_eq!(plan_cli(&args(&["remove", "AppName"]), false, true), CliAction::Remove { name: "AppName".to_string() });
    assert_eq!(
        plan_cli(&args(&["install"]), false, true),
        CliAction::Usage { message: "Usage: linuxy install <path|url>".to_string() }
    );
    assert_eq!(plan_cli(&args(&["launch"]), false, true), CliAction::Usage { message: "Usage: linuxy launch <name>".to_string() });
    assert_eq!(plan_cli(&args(&["remove"]), false, true), CliAction::Usage { message: "Usage: linuxy remove <name>".to_string() });
    assert_eq!(plan_cli(&args(&["--help"]), false, true), CliAction::Options);
    assert_eq!(plan_cli(&args(&["--list"]), false, true), CliAction::Options);
}

#[test]
fn cli_listing_rows_are_padded_into_columns() {
    let header = listing_header();
    assert_eq!(header, format!("{:<30} {:<10} {:<20}", "NAME", "SANDBOX", "PATH"));
    let row = listing_line("Krita", true, "/home/u/Applications/krita.AppImage");
    assert_eq!(
        row,
        format!("{:<30} {:<10} {:<20}", "Krita", "true", "/home/u/Applications/krita.AppImage")
    );
    assert_eq!(row.len(), 30 + 1 + 10 + 1 + "/home/u/Applications/krita.AppImage".len());
    let row = listing_line("X", false, "p");
    assert_eq!(row, format!("{:<30} {:<10} {:<20}", "X", "false", "p"));
}

#[test]
fn cli_messages() {
    assert_eq!(installing_message("a.deb"), "Installing a.deb...");
    assert_eq!(
        ignored_message("--foo"),
        "Unrecognized argument '--foo' — ignoring, continuing to GUI"
    );
}
