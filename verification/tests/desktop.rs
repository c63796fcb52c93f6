use linuxy::desktop::{
    backup_desktop_entry, executable_desktop_entry, first_icon_value, first_name_value, parse_desktop_entry,
    parse_icon_name, rewrite_desktop_entry, self_desktop_entry, toggle_sandbox_content, uses_firejail,
};

const BUNDLED: &str = "[Desktop Entry]\nName=Krita\nName[de]=Krita DE\nExec=krita %F\nTryExec=krita\nIcon=krita\nType=Application\n\n[Desktop Action New]\nName=New\nExec=krita --new\n";

#[test]
fn desktop_rewrite_points_at_the_installed_copy() {
    let out = rewrite_desktop_entry(BUNDLED, "\"/h/a/Krita.AppImage\" %U", "/h/i/Krita_icon.png");
    assert_eq!(
        out,
        "[Desktop Entry]\nCategories=Utility;\nTerminal=false\nName=Krita\nExec=\"/h/a/Krita.AppImage\" %U\nIcon=/h/i/Krita_icon.png\nType=Application\n\n[Desktop Action New]\nName=New\nExec=krita --new\n"
    );
}

#[test]
fn desktop_rewrite_keeps_present_keys_trimmed() {
    let src = "[Desktop Entry]\n  Type=Application  \nTerminal=true\nCategories=Graphics;\nExec=x\n";
    let out = rewrite_desktop_entry(src, "E", "I");
    assert_eq!(out, "[Desktop Entry]\nType=Application\nTerminal=true\nCategories=Graphics;\nExec=E\n");
    assert_eq!(rewrite_desktop_entry("", "E", "I"), "");
}

#[test]
fn desktop_reads_bundled_icon_names() {
    assert_eq!(parse_icon_name(BUNDLED), "krita");
    assert_eq!(parse_icon_name("Icon=\n  Icon= logo \n"), "logo");
    assert_eq!(parse_icon_name("Name=x\n"), "");
}

#[test]
fn desktop_detects_firejail_launchers() {
    assert!(uses_firejail("[Desktop Entry]\nExec=firejail --appimage /a.AppImage\n"));
    assert!(!uses_firejail("[Desktop Entry]\nComment=runs in firejail\nExec=/a\n"));
    assert!(!uses_firejail(""));
}

#[test]
fn desktop_first_values() {
    assert_eq!(first_name_value(BUNDLED), Some("Krita".to_string()));
    assert_eq!(first_name_value("Exec=x\n"), None);
    assert_eq!(first_name_value("Name=Name=X\n"), Some("X".to_string()));
    assert_eq!(first_icon_value("Icon=  krita \nIcon=other\n"), Some("krita".to_string()));
    assert_eq!(first_icon_value("Name=x"), None);
}

#[test]
fn desktop_parses_installed_entries() {
    let info = parse_desktop_entry(
        "[Desktop Entry]\nName=First\nName=Krita\nExec=firejail --appimage /a.AppImage\nIcon=krita\nCategories=Graphics;;Art;\n",
    );
    assert_eq!(info.name, "Krita");
    assert_eq!(info.icon_name, "krita");
    assert_eq!(info.categories, vec!["Graphics".to_string(), "Art".to_string()]);
    assert!(info.sandboxed);
    let plain = parse_desktop_entry("Name=X\r\nExec=/x\r\n");
    assert_eq!(plain.name, "X");
    assert!(!plain.sandboxed);
    assert!(plain.categories.is_empty());
    assert_eq!(plain.icon_name, "");
}

#[test]
fn desktop_sandbox_switches_on_and_off() {
    let entry = "[Desktop Entry]\nName=K\nExec=\"/h/a/K.AppImage\" %U\nIcon=k\n";
    let on = toggle_sandbox_content(entry, true);
    assert_eq!(on, "[Desktop Entry]\nName=K\nExec=firejail --appimage /h/a/K.AppImage %U\nIcon=k\n");
    assert!(uses_firejail(&on));
    assert!(parse_desktop_entry(&on).sandboxed);
    assert_eq!(toggle_sandbox_content(&on, true), on);
    let off = toggle_sandbox_content(&on, false);
    assert_eq!(off, "[Desktop Entry]\nName=K\nExec=/h/a/K.AppImage %U\nIcon=k\n");
    assert!(!uses_firejail(&off));
    assert!(!parse_desktop_entry(&off).sandboxed);
    assert_eq!(toggle_sandbox_content("Exec=/usr/bin/tool\n", true), "Exec=firejail /usr/bin/tool\n");
    assert_eq!(toggle_sandbox_content("Name=x", false), "Name=x\n");
}

#[test]
fn desktop_generated_entries() {
    assert_eq!(
        executable_desktop_entry("setup.exe", "/h/bin/setup.exe"),
        "[Desktop Entry]\nType=Application\nName=setup.exe\nExec=\"/h/bin/setup.exe\"\nTerminal=false\nCategories=Utility;\n"
    );
    assert_eq!(
        self_desktop_entry("/h/Linuxy.AppImage"),
        "[Desktop Entry]\nType=Application\nName=Linuxy\nComment=Application Manager\nExec=\"/h/Linuxy.AppImage\" %U\nIcon=linuxy\nTerminal=false\nCategories=Utility;\n"
    );
}

#[test]
fn desktop_backup_entries_read_back() {
    let cats = vec!["Graphics".to_string(), "Art".to_string()];
    let e = backup_desktop_entry("Krita", "/h/a/K.AppImage", "/h/i/k.png", &cats, true);
    let info = parse_desktop_entry(&e);
    assert_eq!(info.name, "Krita");
    assert_eq!(info.icon_name, "/h/i/k.png");
    assert_eq!(info.categories, cats);
    assert!(info.sandboxed);
    let e = backup_desktop_entry("Tool", "/h/bin/tool", "", &vec![], false);
    let info = parse_desktop_entry(&e);
    assert_eq!(info.name, "Tool");
    assert!(info.categories.is_empty());
    assert!(!info.sandboxed);
}

#[test]
fn desktop_documented_sandbox_example() {
    let without = "Exec=/home/user/.local/appimages/Firefox.AppImage\n";
    let with = "Exec=firejail --appimage /home/user/.local/appimages/Firefox.AppImage\n";
    assert_eq!(toggle_sandbox_content(without, true), with);
    assert_eq!(toggle_sandbox_content(with, false), without);
}

#[test]
fn desktop_round_trip_unsandboxes_plain_launchers() {
    let entry = "[Desktop Entry]\r\nExec=\"/opt/tool\" --flag\r\nExec=/opt/other.appimage\n";
    let twice = toggle_sandbox_content(&toggle_sandbox_content(entry, true), false);
    assert!(!uses_firejail(&twice));
    assert_eq!(twice.lines().count(), entry.lines().count());
    assert_eq!(twice, "[Desktop Entry]\nExec=/opt/tool --flag\nExec=/opt/other.appimage\n");
}

#[test]
fn desktop_round_trip_can_leave_a_firejail_launcher() {
    // A launcher that already mentions Firejail is kept by switching on, and
    // switching off only removes `firejail ` with its trailing space.
    let entry = "Exec=/usr/bin/firejail\n";
    let twice = toggle_sandbox_content(&toggle_sandbox_content(entry, true), false);
    assert!(uses_firejail(&twice));
}

#[test]
fn desktop_enabling_twice_is_enabling_once() {
    let entry = "[Desktop Entry]\r\nExec=\"/opt/a b/tool\" %U\nExec=firejail /opt/x\nName=T\n";
    let once = toggle_sandbox_content(entry, true);
    assert_eq!(toggle_sandbox_content(&once, true), once);
    // A line that still ends in a carriage return after switching is read
    // back without it.
    let stray = "Exec=x\r\r\n";
    let once = toggle_sandbox_content(stray, true);
    assert_eq!(once, "Exec=firejail x\r\n");
    assert_eq!(toggle_sandbox_content(&once, true), "Exec=firejail x\n");
}

#[test]
fn desktop_installed_entry_holds_the_launcher_line() {
    let out = rewrite_desktop_entry("# comment\n[Desktop Entry]\nName=K\n  Exec=old %F\n", "\"/h/a/K.AppImage\" %U", "k");
    assert!(out.contains("\nExec=\"/h/a/K.AppImage\" %U\n"));
    assert!(!out.contains("old"));
    // Keys are added after every header, also one that ends the launcher
    // line; the launcher line stays whole.
    let out = rewrite_desktop_entry("[Desktop Entry]\nExec=x\n", "run [Desktop Entry]", "I");
    assert_eq!(
        out,
        "[Desktop Entry]\nCategories=Utility;\nTerminal=false\nType=Application\nExec=run [Desktop Entry]\nCategories=Utility;\nTerminal=false\nType=Application\n"
    );
    assert!(out.contains("\nExec=run [Desktop Entry]\n"));
    // An Exec line outside the main group is kept as it is.
    let out = rewrite_desktop_entry("[Other]\nExec=x\n", "E", "I");
    assert_eq!(out, "[Other]\nExec=x\n");
}

#[test]
fn desktop_sandbox_round_trip_restores_the_entry() {
    let entry = "[Desktop Entry]\nName=K\nExec=/h/a/K.AppImage %U\nIcon=k\n\n[Desktop Action New]\nExec=/usr/bin/tool --new\n";
    let on = toggle_sandbox_content(entry, true);
    assert_ne!(on, entry);
    assert_eq!(toggle_sandbox_content(&on, false), entry);
    // A launcher beginning with `--appimage ` loses it.
    let odd = "Exec=--appimage x\n";
    assert_eq!(toggle_sandbox_content(&toggle_sandbox_content(odd, true), false), "Exec=x\n");
}

#[test]
fn desktop_backup_entries_with_equals_signs_read_back() {
    let cats = vec!["Key=Value".to_string(), "Art".to_string()];
    let e = backup_desktop_entry("A\rB", "/h/a/K.AppImage", "k", &cats, false);
    let info = parse_desktop_entry(&e);
    assert_eq!(info.name, "A\rB");
    assert_eq!(info.categories, cats);
    assert!(!info.sandboxed);
    // A first category that begins with the key is read back without it.
    let keyed = vec!["Categories=x".to_string()];
    let e = backup_desktop_entry("A", "/x", "k", &keyed, false);
    assert_eq!(parse_desktop_entry(&e).categories, vec!["x".to_string()]);
}
