use linuxy::locations::LibraryDirs;
use std::path::Path;

#[test]
fn library_dirs_sit_below_home() {
    let d = LibraryDirs::from_home("/home/u");
    assert_eq!(d.home, "/home/u");
    assert_eq!(d.appimages, "/home/u/.local/appimages");
    assert_eq!(d.bin, "/home/u/.local/bin");
    assert_eq!(d.applications, "/home/u/.local/share/applications");
    assert_eq!(d.icons, "/home/u/.local/share/icons");
    assert_eq!(d.downloads, "/home/u/Downloads");
    let e = LibraryDirs::from_home("/root/");
    assert_eq!(e.appimages, "/root/.local/appimages");
}

#[test]
fn library_dirs_of_the_current_user() {
    if let Some(d) = LibraryDirs::locate() {
        assert_eq!(d.appimages, Path::new(&d.home).join(".local/appimages").to_string_lossy());
        assert_eq!(d.downloads, Path::new(&d.home).join("Downloads").to_string_lossy());
    }
}
