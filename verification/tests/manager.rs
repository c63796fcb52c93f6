use linuxy::manager::{find_app, unknown_app_message};
use linuxy::desktop::{toggle_sandbox_content, uses_firejail, DesktopInfo};
use linuxy::manager::{
    analyze_storage, app_base_name_of_path, appimage_app_info, appimage_desktop_path, cleanup_targets, directory_path,
    executable_app_info, executable_desktop_path, exported_message, icon_lookup_paths, launch_plan,
    library_names_exec, removal_desktop_path, removal_icon_paths, restored_message, sandbox_toggle_check,
    storage_stats, validate_url, AppInfo, FileFacts, LibraryBackup, ResolvedEntry,
};

fn file(path: &str, size: u64) -> FileFacts {
    FileFacts { path: path.to_string(), is_file: true, size: Some(size), desktop_entry_exists: false }
}

fn chars(s: &str) -> Vec<char> {
    s.chars().collect()
}

#[test]
fn manager_entry_paths() {
    assert_eq!(app_base_name_of_path("/h/.local/appimages/Krita.AppImage"), "Krita");
    assert_eq!(
        appimage_desktop_path("/h/.local/share/applications", "/h/.local/appimages/Krita.AppImage"),
        "/h/.local/share/applications/Krita.desktop"
    );
    assert_eq!(
        executable_desktop_path("/h/.local/share/applications", "/h/.local/bin/setup.exe"),
        "/h/.local/share/applications/setup.exe.desktop"
    );
}

#[test]
fn manager_icon_lookup() {
    assert!(icon_lookup_paths("", "/i").is_empty());
    assert_eq!(icon_lookup_paths("krita", "/i"), vec!["/i/krita.png", "/i/krita.svg"]);
    assert_eq!(icon_lookup_paths("/abs/k.png", "/i"), vec!["/abs/k.png", "/abs/k.png.png", "/abs/k.png.svg"]);
}

#[test]
fn manager_listing_entries() {
    let info = DesktopInfo {
        name: "Krita".to_string(),
        icon_name: "krita".to_string(),
        categories: vec!["Graphics".to_string()],
        sandboxed: true,
    };
    let a = appimage_app_info(
        "/h/a/Krita.AppImage",
        "/h/d/Krita.desktop",
        10,
        20,
        Some(ResolvedEntry { info, icon_path: Some("/h/i/krita.png".to_string()) }),
    );
    assert_eq!(a.name, "Krita");
    assert_eq!(a.executable, "/h/a/Krita.AppImage");
    assert_eq!(a.path, "/h/a/Krita.AppImage");
    assert_eq!(a.icon, Some("/h/i/krita.png".to_string()));
    assert_eq!(a.categories, vec!["Graphics".to_string()]);
    assert!(a.sandboxed);
    assert_eq!((a.size_bytes, a.installed_at), (10, 20));
    assert_eq!(a.package_type, "AppImage");

    let b = appimage_app_info("/h/a/Tool.appimage", "/h/d/Tool.desktop", 1, 2, None);
    assert_eq!(b.name, "Tool");
    assert_eq!(b.icon, None);
    assert!(b.categories.is_empty());
    assert!(!b.sandboxed);

    let e = executable_app_info("/h/bin/setup.exe", "/h/d/setup.exe.desktop", 3, 4, None);
    assert_eq!(e.name, "setup.exe");
    assert_eq!(e.package_type, "Executable");
    assert!(!e.sandboxed);
    let info = DesktopInfo { name: "Setup".to_string(), icon_name: String::new(), categories: vec![], sandboxed: true };
    let f = executable_app_info("/h/bin/setup.exe", "/d", 3, 4, Some(ResolvedEntry { info, icon_path: None }));
    assert_eq!(f.name, "Setup");
    assert!(!f.sandboxed);
}

#[test]
fn manager_launch_plans() {
    let c = launch_plan("/h/a/Krita.AppImage", false, false).unwrap();
    assert_eq!(c.program, "/h/a/Krita.AppImage");
    assert!(c.args.is_empty());
    let c = launch_plan("/h/a/Krita.AppImage", true, true).unwrap();
    assert_eq!(c.program, "firejail");
    assert_eq!(c.args, vec!["--appimage", "/h/a/Krita.AppImage"]);
    let c = launch_plan("/h/bin/tool", true, true).unwrap();
    assert_eq!(c.args, vec!["/h/bin/tool"]);
    assert_eq!(
        launch_plan("/h/a/Krita.AppImage", true, false).err(),
        Some("Firejail is not installed. Please install firejail to run sandboxed apps.".to_string())
    );
}

#[test]
fn manager_removal_targets() {
    assert_eq!(removal_desktop_path("/h/a/K.AppImage", Some("/x/K.desktop"), "/h/d"), "/x/K.desktop");
    assert_eq!(removal_desktop_path("/h/a/K.AppImage", None, "/h/d"), "/h/d/K.desktop");
    assert_eq!(removal_icon_paths(None, "K", "/i"), vec!["/i/K_icon.png", "/i/K_icon.svg", "/i/K_icon.xpm"]);
    assert_eq!(
        removal_icon_paths(Some("/abs/k.png"), "K", "/i"),
        vec!["/abs/k.png", "/i/K_icon.png", "/i/K_icon.svg", "/i/K_icon.xpm"]
    );
    assert_eq!(
        removal_icon_paths(Some("krita"), "K", "/i"),
        vec!["/i/krita.png", "/i/krita.svg", "/i/krita.xpm", "/i/K_icon.png", "/i/K_icon.svg", "/i/K_icon.xpm"]
    );
}

#[test]
fn manager_checks() {
    assert_eq!(directory_path("appimages", "/home/u"), Ok("/home/u/.local/appimages".to_string()));
    assert_eq!(directory_path("secrets", "/home/u"), Err("Invalid directory".to_string()));
    assert_eq!(validate_url("https://linuxy.app"), Ok(()));
    assert_eq!(validate_url("http://x"), Ok(()));
    assert_eq!(validate_url("file:///etc/passwd"), Err("Invalid URL scheme".to_string()));
    assert_eq!(validate_url("javascript:alert(1)"), Err("Invalid URL scheme".to_string()));
    assert_eq!(sandbox_toggle_check(false, true, Some(true)), Err("Desktop file not found".to_string()));
    assert_eq!(sandbox_toggle_check(true, true, None), Err("Failed to check for firejail".to_string()));
    assert_eq!(
        sandbox_toggle_check(true, true, Some(false)),
        Err("Firejail is not installed. Please install firejail first.".to_string())
    );
    assert_eq!(sandbox_toggle_check(true, true, Some(true)), Ok(()));
    assert_eq!(sandbox_toggle_check(true, false, None), Ok(()));
}

#[test]
fn manager_storage_figures() {
    let appimages = vec![
        file("/h/a/A.AppImage", 100),
        file("/h/a/notes.txt", 5),
        FileFacts { path: "/h/a/B.appimage".to_string(), is_file: true, size: None, desktop_entry_exists: false },
        FileFacts { path: "/h/a/C.AppImage".to_string(), is_file: false, size: Some(7), desktop_entry_exists: false },
        file("/h/a/D.appimage", 50),
    ];
    let executables = vec![
        FileFacts { path: "/h/b/tool".to_string(), is_file: true, size: Some(30), desktop_entry_exists: true },
        FileFacts { path: "/h/b/other".to_string(), is_file: true, size: Some(30), desktop_entry_exists: false },
    ];
    let s = storage_stats(&appimages, &executables).unwrap();
    assert_eq!(s.app_count, 3);
    assert_eq!(s.total_size_bytes, 180);
    let empty: Vec<FileFacts> = vec![];
    let s = storage_stats(&empty, &empty).unwrap();
    assert_eq!((s.app_count, s.total_size_bytes), (0, 0));
    let huge = vec![file("/a.AppImage", u64::MAX), file("/b.AppImage", 1)];
    assert!(storage_stats(&huge, &empty).is_none());
}

#[test]
fn manager_cleanup_analysis_and_targets() {
    let appimages = vec![file("/h/a/Krita.AppImage", 1), file("/h/a/Gimp.AppImage", 1)];
    let executables = vec![file("/h/b/setup.exe", 1)];
    let names = library_names_exec(&appimages, &executables);
    assert_eq!(names, vec![chars("Krita"), chars("Gimp"), chars("setup.exe")]);
    let icons = vec![
        file("/i/Krita_icon.png", 10),
        file("/i/Old_icon.svg", 20),
        FileFacts { path: "/i/sub".to_string(), is_file: false, size: Some(4), desktop_entry_exists: false },
    ];
    let desktops = vec![
        file("/d/Krita.desktop", 1),
        file("/d/Gone.desktop", 2),
        file("/d/setup.exe.desktop", 3),
        file("/d/readme.txt", 4),
    ];
    let temps = vec![file("/tmp/linuxy_123", 7), file("/tmp/other", 8)];
    let c = analyze_storage(&names, &icons, &desktops, &temps).unwrap();
    assert_eq!(c.orphaned_icons, 1);
    assert_eq!(c.orphaned_desktops, 1);
    assert_eq!(c.temp_files, 1);
    assert_eq!(c.reclaimable_bytes, 20 + 2 + 7);
    let t = cleanup_targets(&names, &icons, &desktops, &temps);
    assert_eq!(t, vec!["/i/Old_icon.svg", "/d/Gone.desktop", "/tmp/linuxy_123"]);
    assert_eq!(t.len() as u32, c.orphaned_icons + c.orphaned_desktops + c.temp_files);
}

#[test]
fn manager_backups() {
    let app = AppInfo {
        name: "Krita".to_string(),
        executable: "/h/a/Krita.AppImage".to_string(),
        icon: Some("/h/i/krita.png".to_string()),
        path: "/h/a/Krita.AppImage".to_string(),
        desktop_path: "/h/d/Krita.desktop".to_string(),
        sandboxed: true,
        size_bytes: 1,
        installed_at: 2,
        categories: vec!["Graphics".to_string(), "Art".to_string()],
        package_type: "AppImage".to_string(),
    };
    assert_eq!(
        app.restored_entry(),
        "[Desktop Entry]\nType=Application\nName=Krita\nExec=firejail --appimage /h/a/Krita.AppImage\nIcon=/h/i/krita.png\nTerminal=false\nCategories=Graphics;Art\n"
    );
    let mut plain = app.clone();
    plain.sandboxed = false;
    plain.icon = None;
    plain.categories = vec![];
    assert_eq!(
        plain.restored_entry(),
        "[Desktop Entry]\nType=Application\nName=Krita\nExec=/h/a/Krita.AppImage\nIcon=\nTerminal=false\nCategories=\n"
    );
    let b = LibraryBackup::new(vec![app], 1700000000);
    assert_eq!(b.version, "2.0");
    assert_eq!(b.exported_at, 1700000000);
    assert_eq!(b.apps.len(), 1);
    assert_eq!(restored_message(3), "Restored 3 apps from backup");
    assert_eq!(restored_message(0), "Restored 0 apps from backup");
    assert_eq!(restored_message(1234567), "Restored 1234567 apps from backup");
    assert_eq!(exported_message("/h/linuxy_backup.json"), "Library exported to /h/linuxy_backup.json");
}

#[test]
fn manager_launch_follows_the_sandbox_switch() {
    let entry = "[Desktop Entry]\nExec=\"/h/a/K.AppImage\" %U\n";
    let on = toggle_sandbox_content(entry, true);
    let c = launch_plan("/h/a/K.AppImage", uses_firejail(&on), true).unwrap();
    assert_eq!(c.program, "firejail");
    assert_eq!(c.args.last().unwrap(), "/h/a/K.AppImage");
    let off = toggle_sandbox_content(&on, false);
    let c = launch_plan("/h/a/K.AppImage", uses_firejail(&off), false).unwrap();
    assert_eq!(c.program, "/h/a/K.AppImage");
    assert!(c.args.is_empty());
}

#[test]
fn manager_finds_apps_by_name() {
    let mk = |name: &str, path: &str| AppInfo {
        name: name.to_string(),
        executable: path.to_string(),
        icon: None,
        path: path.to_string(),
        desktop_path: String::new(),
        sandboxed: false,
        size_bytes: 0,
        installed_at: 0,
        categories: vec![],
        package_type: "AppImage".to_string(),
    };
    let apps = vec![mk("Krita", "/a/krita-5.AppImage"), mk("GIMP", "/a/Gimp.AppImage"), mk("Krita", "/a/k2.AppImage")];
    assert_eq!(find_app(&apps, "Krita"), Some(0));
    assert_eq!(find_app(&apps, "Gimp"), Some(1));
    assert_eq!(find_app(&apps, "k2"), Some(2));
    assert_eq!(find_app(&apps, "Inkscape"), None);
    assert_eq!(unknown_app_message("Inkscape"), "No installed app named 'Inkscape'");
}

#[test]
fn manager_checks_before_launch() {
    assert_eq!(linuxy::manager::launch_check("/a/K.AppImage", false), Err("App file does not exist".to_string()));
    assert_eq!(linuxy::manager::launch_check("/", true), Err("Invalid app path".to_string()));
    assert_eq!(linuxy::manager::launch_check("/a/K.AppImage", true), Ok(()));
}

#[test]
fn manager_cleanup_leaves_nothing_to_clean() {
    let appimages = vec![file("/h/a/Krita.AppImage", 1)];
    let executables: Vec<FileFacts> = vec![];
    let names = library_names_exec(&appimages, &executables);
    let icons = vec![file("/i/Krita_icon.png", 10), file("/i/Old_icon.svg", 20), file("/i/x.png", 5)];
    let desktops = vec![file("/d/Krita.desktop", 1), file("/d/Gone.desktop", 2)];
    let temps = vec![file("/tmp/linuxy_1", 7), file("/tmp/keep", 8)];
    let gone = cleanup_targets(&names, &icons, &desktops, &temps);
    let keep = |fs: &Vec<FileFacts>| -> Vec<FileFacts> {
        fs.iter()
            .filter(|f| !gone.contains(&f.path))
            .map(|f| FileFacts { path: f.path.clone(), is_file: f.is_file, size: f.size, desktop_entry_exists: false })
            .collect()
    };
    let after = analyze_storage(&names, &keep(&icons), &keep(&desktops), &keep(&temps)).unwrap();
    assert_eq!((after.orphaned_icons, after.orphaned_desktops, after.temp_files, after.reclaimable_bytes), (0, 0, 0, 0));
}

#[test]
fn manager_storage_counts_what_is_listed() {
    let appimages = vec![file("/h/a/A.AppImage", 100), file("/h/a/notes.txt", 5), file("/h/a/D.appimage", 50)];
    let executables = vec![
        FileFacts { path: "/h/b/tool".to_string(), is_file: true, size: Some(30), desktop_entry_exists: true },
        FileFacts { path: "/h/b/other".to_string(), is_file: true, size: Some(30), desktop_entry_exists: false },
    ];
    let la = linuxy::manager::listed_entries(&appimages, false);
    let le = linuxy::manager::listed_entries(&executables, true);
    assert_eq!(la, vec![0, 2]);
    assert_eq!(le, vec![0]);
    let s = storage_stats(&appimages, &executables).unwrap();
    assert_eq!(s.app_count as usize, la.len() + le.len());
    let bytes: u64 = la.iter().map(|&i| appimages[i].size.unwrap()).sum::<u64>()
        + le.iter().map(|&i| executables[i].size.unwrap()).sum::<u64>();
    assert_eq!(s.total_size_bytes, bytes);
}
