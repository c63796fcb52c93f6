use linuxy::installer::{check_elf_header, is_appimage_path};

#[test]
fn recognizes_appimage_extensions() {
    assert!(is_appimage_path("/tmp/example.AppImage"));
    assert!(is_appimage_path("/tmp/example.appimage"));
    assert!(!is_appimage_path("/tmp/example.tar.gz"));
}

#[test]
fn rejects_non_elf_files() {
    let result = check_elf_header(b"not-elf");
    assert!(result.is_err());
}

use linuxy::installer::{
    app_base_name, appimage_exec_command, appimage_file_name, converted_package_path, deb_manager_missing_message,
    desktop_entry_path_exec, download_file_name, dpkg_fixup_args, duplicate_app_message, executable_file_name,
    fallback_icon_path, first_deb_manager, first_rpm_manager, icon_candidates, icon_destination_path,
    installed_icon_value, installed_via_message, installing_with_message, is_deb_path, is_exe_path, is_rpm_path,
    libfuse_available, new_download_file_name, new_staging_file_name, new_workspace_dir_name,
    rpm_manager_missing_message, staging_file_name, validate_appimage_source, validate_deb_source,
    validate_rpm_source, workspace_dir_name, DebManager, RpmManager,
};

fn is_uuid(s: &str) -> bool {
    s.len() == 36
        && s.chars().enumerate().all(|(i, c)| {
            if i == 8 || i == 13 || i == 18 || i == 23 {
                c == '-'
            } else {
                c.is_ascii_digit() || ('a'..='f').contains(&c)
            }
        })
}

#[test]
fn installer_extensions_take_two_spellings_only() {
    assert!(is_deb_path("a.deb"));
    assert!(is_deb_path("a.DEB"));
    assert!(!is_deb_path("a.Deb"));
    assert!(is_rpm_path("/x/y.rpm"));
    assert!(!is_rpm_path("/x/.rpm"));
    assert!(is_exe_path("setup.MSI"));
    assert!(!is_exe_path("setup.Exe"));
    assert!(!is_appimage_path("/tmp/example.APPIMAGE"));
    assert!(is_appimage_path("/tmp/dir.AppImage/"));
}

#[test]
fn installer_validates_sources() {
    assert_eq!(validate_appimage_source("/a.AppImage", false), Err("AppImage file does not exist.".to_string()));
    assert_eq!(validate_appimage_source("/a.zip", true), Err("Only .AppImage files are supported.".to_string()));
    assert_eq!(validate_appimage_source("/a.appimage", true), Ok(()));
    assert_eq!(validate_deb_source("/a.deb", false), Err("DEB file does not exist.".to_string()));
    assert_eq!(validate_deb_source("/a.rpm", true), Err("Only .deb files are supported.".to_string()));
    assert_eq!(validate_deb_source("/a.DEB", true), Ok(()));
    assert_eq!(validate_rpm_source("/a.rpm", false), Err("RPM file does not exist.".to_string()));
    assert_eq!(validate_rpm_source("/a.deb", true), Err("Only .rpm files are supported.".to_string()));
    assert_eq!(validate_rpm_source("/a.RPM", true), Ok(()));
}

#[test]
fn installer_checks_the_elf_magic() {
    assert_eq!(check_elf_header(&[0x7f, b'E', b'L', b'F']), Ok(()));
    assert_eq!(check_elf_header(&[0x7f, b'E', b'L', b'F', 0, 1]), Ok(()));
    assert_eq!(check_elf_header(&[0x7f, b'E']), Err("AppImage file is too small to be valid.".to_string()));
    assert_eq!(check_elf_header(&[]), Err("AppImage file is too small to be valid.".to_string()));
    assert_eq!(
        check_elf_header(b"#!/b"),
        Err("The selected file is not a valid ELF/AppImage binary.".to_string())
    );
}

#[test]
fn installer_file_names() {
    assert_eq!(appimage_file_name("/home/u/Krita-5.AppImage"), Ok("Krita-5.AppImage".to_string()));
    assert_eq!(appimage_file_name("/"), Err("Invalid AppImage file name".to_string()));
    assert_eq!(appimage_file_name("a/.."), Err("Invalid AppImage file name".to_string()));
    assert_eq!(executable_file_name("/w/setup.exe", false), Err("File does not exist.".to_string()));
    assert_eq!(executable_file_name("/w/setup.exe", true), Ok("setup.exe".to_string()));
    assert_eq!(executable_file_name("", true), Err("Invalid file name".to_string()));
}

#[test]
fn installer_base_names_drop_the_appimage_suffix() {
    assert_eq!(app_base_name("Krita-5.AppImage"), "Krita-5");
    assert_eq!(app_base_name("tool.appimage"), "tool");
    assert_eq!(app_base_name("a.AppImage.appimage"), "a");
    assert_eq!(app_base_name("setup.exe"), "setup.exe");
    assert_eq!(desktop_entry_path_exec("/home/u/.local/share/applications", "Krita-5"),
        "/home/u/.local/share/applications/Krita-5.desktop");
    assert_eq!(desktop_entry_path_exec("/apps/", "x"), "/apps/x.desktop");
}

#[test]
fn installer_messages() {
    assert_eq!(
        duplicate_app_message("a.AppImage", "/home/u/Applications/a.AppImage"),
        "An application named 'a.AppImage' already exists at /home/u/Applications/a.AppImage. Remove it first or rename the file."
    );
    assert_eq!(installing_with_message("DEB", "apt"), "Installing DEB package with apt...");
    assert_eq!(installed_via_message("RPM", "dnf"), "Successfully installed RPM package via dnf");
}

#[test]
fn installer_exec_line_depends_on_fuse() {
    assert!(libfuse_available(None));
    assert!(libfuse_available(Some("\tlibfuse.so.2 (libc6,x86-64) => /lib/libfuse.so.2\n")));
    assert!(!libfuse_available(Some("\tlibfuse3.so.3 (libc6,x86-64)\n")));
    assert_eq!(appimage_exec_command("/h/A.AppImage", true, "A.AppImage"), "\"/h/A.AppImage\" %U");
    assert_eq!(
        appimage_exec_command("/h/A.AppImage", false, "A.AppImage"),
        "env APPIMAGE_EXTRACT_AND_RUN=1 \"/h/A.AppImage\" %U"
    );
    assert_eq!(appimage_exec_command("/h/setup", false, "setup"), "\"/h/setup\" %U");
}

#[test]
fn installer_icon_values_and_places() {
    assert_eq!(installed_icon_value(Some("/i/a_icon.png"), "a"), "/i/a_icon.png");
    assert_eq!(installed_icon_value(None, "a"), "a_icon");
    assert_eq!(icon_destination_path("/i", "a", "/x/y/logo.svg"), "/i/a_icon.svg");
    assert_eq!(icon_destination_path("/i", "a", "/x/.DirIcon"), "/i/a_icon.png");
    assert_eq!(icon_destination_path("/i", "a", "/x/pic."), "/i/a_icon.png");
    assert_eq!(fallback_icon_path("/i", "a", "/r/Logo.PNG"), Some("/i/a_icon.png".to_string()));
    assert_eq!(fallback_icon_path("/i", "a", "/r/logo.svg"), Some("/i/a_icon.svg".to_string()));
    assert_eq!(fallback_icon_path("/i", "a", "/r/AppRun"), None);
    assert_eq!(fallback_icon_path("/i", "a", "/r/x.xpm"), None);
}

#[test]
fn installer_icon_candidates_in_order() {
    assert!(icon_candidates("/tmp/sq", "").is_empty());
    let c = icon_candidates("/tmp/sq", "krita");
    assert_eq!(
        c,
        vec![
            "/tmp/sq/krita.png",
            "/tmp/sq/krita.svg",
            "/tmp/sq/usr/share/icons/hicolor/512x512/apps/krita.png",
            "/tmp/sq/usr/share/icons/hicolor/scalable/apps/krita.svg",
            "/tmp/sq/usr/share/icons/hicolor/256x256/apps/krita.png",
            "/tmp/sq/usr/share/icons/hicolor/128x128/apps/krita.png",
            "/tmp/sq/usr/share/pixmaps/krita.png",
            "/tmp/sq/.DirIcon",
        ]
    );
    assert_eq!(icon_candidates("/tmp/sq", "/abs/icon")[0], "/abs/icon.png");
}

#[test]
fn installer_scratch_names() {
    assert_eq!(workspace_dir_name("abc"), "linuxy_abc");
    assert_eq!(staging_file_name("Krita", "abc"), ".Krita.abc.part.AppImage");
    assert_eq!(download_file_name("abc"), "abc.AppImage");
    let w = new_workspace_dir_name();
    assert!(w.starts_with("linuxy_") && is_uuid(&w["linuxy_".len()..]));
    let s = new_staging_file_name("Krita");
    assert!(s.starts_with(".Krita.") && s.ends_with(".part.AppImage"));
    assert!(is_uuid(&s[".Krita.".len()..s.len() - ".part.AppImage".len()]));
    let d = new_download_file_name();
    assert!(d.ends_with(".AppImage") && is_uuid(&d[..36]));
    assert_ne!(new_download_file_name(), d);
}

#[test]
fn installer_picks_package_managers_in_order() {
    assert_eq!(first_deb_manager(true, true, true), Some(DebManager::Apt));
    assert_eq!(first_deb_manager(false, true, true), Some(DebManager::Dpkg));
    assert_eq!(first_deb_manager(false, false, true), Some(DebManager::Pacman));
    assert_eq!(first_deb_manager(false, false, false), None);
    assert_eq!(first_rpm_manager(false, true, true, true), Some(RpmManager::Zypper));
    assert_eq!(first_rpm_manager(false, false, false, true), Some(RpmManager::Rpm));
    assert_eq!(first_rpm_manager(false, false, false, false), None);
    assert_eq!(DebManager::Pacman.name(), "pacman");
    assert_eq!(RpmManager::Yum.name(), "yum");
}

#[test]
fn installer_package_manager_arguments() {
    assert_eq!(DebManager::Apt.install_args("/p.deb"), Some(vec!["apt".to_string(), "install".into(), "-y".into(), "/p.deb".into()]));
    assert_eq!(DebManager::Dpkg.install_args("/p.deb"), Some(vec!["dpkg".to_string(), "-i".into(), "/p.deb".into()]));
    assert_eq!(DebManager::Pacman.install_args("/p.deb"), None);
    assert_eq!(dpkg_fixup_args(), vec!["apt", "install", "-f", "-y"]);
    assert_eq!(RpmManager::Dnf.install_args("/p.rpm"), vec!["dnf", "install", "-y", "/p.rpm"]);
    assert_eq!(RpmManager::Yum.install_args("/p.rpm"), vec!["yum", "localinstall", "-y", "/p.rpm"]);
    assert_eq!(RpmManager::Rpm.install_args("/p.rpm"), vec!["rpm", "-i", "--nodeps", "/p.rpm"]);
}

#[test]
fn installer_missing_manager_messages() {
    assert_eq!(
        deb_manager_missing_message(true),
        "This is a DEB package, but your system uses RPM (Fedora, openSUSE, RHEL). Please download an RPM or AppImage instead."
    );
    assert_eq!(deb_manager_missing_message(false), "No supported DEB package manager (apt/dpkg) found on this system.");
    assert_eq!(
        rpm_manager_missing_message(true),
        "This is an RPM package, but your system uses DEB (Ubuntu, Debian, Mint). Please download a DEB or AppImage instead."
    );
    assert_eq!(
        rpm_manager_missing_message(false),
        "No supported RPM package manager (dnf/zypper/yum/rpm) found on this system."
    );
}

#[test]
fn installer_finds_the_converted_package() {
    let out = "==> Converting\n  /tmp/pkg-1.0-1-x86_64.pkg.tar.zst  \nmore.pkg.tar\n";
    assert_eq!(converted_package_path(out), Some("/tmp/pkg-1.0-1-x86_64.pkg.tar.zst".to_string()));
    assert_eq!(converted_package_path("nothing here\n"), None);
    assert_eq!(converted_package_path(""), None);
}

#[test]
fn installer_recognises_desktop_entries() {
    assert!(linuxy::installer::is_desktop_file("/tmp/sq/krita.desktop"));
    assert!(!linuxy::installer::is_desktop_file("/tmp/sq/krita.Desktop"));
    assert!(!linuxy::installer::is_desktop_file("/tmp/sq/.desktop"));
    assert!(!linuxy::installer::is_desktop_file("/tmp/sq/krita.png"));
}
