//! Installation logic: package classification, source validation, package
//! manager selection, desktop-entry rewriting and icon placement.
use vstd::prelude::*;
use crate::path::{extension, extension_exec, join};
use crate::text::replace_all;
use crate::text::{equals_str, string_of, to_chars};

verus! {

/// The extension of `path` is one of the two given spellings.
pub open spec fn has_extension(path: Seq<char>, a: Seq<char>, b: Seq<char>) -> bool {
    extension(path) == Some(a) || extension(path) == Some(b)
}

/// Whether the extension of `path` is one of the two given spellings.
fn has_extension_exec(path: &str, a: &str, b: &str) -> (r: bool)
    ensures
        r == has_extension(path@, a@, b@),
{
    let p = to_chars(path);
    match extension_exec(&p) {
        Some(e) => equals_str(&e, a) || equals_str(&e, b),
        None => false,
    }
}

/// A desktop entry is recognised by the extension `desktop`.
pub fn is_desktop_file(path: &str) -> (r: bool)
    ensures
        r == (extension(path@) == Some("desktop"@)),
{
    match extension_exec(&to_chars(path)) {
        Some(e) => equals_str(&e, "desktop"),
        None => false,
    }
}

/// An AppImage is recognised by the extension `AppImage` or `appimage`.
pub fn is_appimage_path(path: &str) -> (r: bool)
    ensures
        r == has_extension(path@, "AppImage"@, "appimage"@),
{
    has_extension_exec(path, "AppImage", "appimage")
}

/// A Debian package is recognised by the extension `deb` or `DEB`.
pub fn is_deb_path(path: &str) -> (r: bool)
    ensures
        r == has_extension(path@, "deb"@, "DEB"@),
{
    has_extension_exec(path, "deb", "DEB")
}

/// An RPM package is recognised by the extension `rpm` or `RPM`.
pub fn is_rpm_path(path: &str) -> (r: bool)
    ensures
        r == has_extension(path@, "rpm"@, "RPM"@),
{
    has_extension_exec(path, "rpm", "RPM")
}

/// A Windows executable is recognised by the extension `exe`, `EXE`, `msi`
/// or `MSI`.
pub fn is_exe_path(path: &str) -> (r: bool)
    ensures
        r == (has_extension(path@, "exe"@, "EXE"@) || has_extension(path@, "msi"@, "MSI"@)),
{
    has_extension_exec(path, "exe", "EXE") || has_extension_exec(path, "msi", "MSI")
}

} // verus!

verus! {

/// A `Result` that failed with the message `m`.
pub open spec fn fails_with<T>(r: Result<T, String>, m: Seq<char>) -> bool {
    r is Err && r->Err_0@ == m
}

/// Checks an AppImage given for installation: it must exist and carry an
/// AppImage extension.
pub fn validate_appimage_source(path: &str, exists: bool) -> (r: Result<(), String>)
    ensures
        !exists ==> fails_with(r, "AppImage file does not exist."@),
        exists && !has_extension(path@, "AppImage"@, "appimage"@) ==> fails_with(
            r,
            "Only .AppImage files are supported."@,
        ),
        exists && has_extension(path@, "AppImage"@, "appimage"@) ==> r is Ok,
{
    if !exists {
        return Err(string_of("AppImage file does not exist."));
    }
    if !is_appimage_path(path) {
        return Err(string_of("Only .AppImage files are supported."));
    }
    Ok(())
}

} // verus!

verus! {

/// Checks a Debian package given for installation.
pub fn validate_deb_source(path: &str, exists: bool) -> (r: Result<(), String>)
    ensures
        !exists ==> fails_with(r, "DEB file does not exist."@),
        exists && !has_extension(path@, "deb"@, "DEB"@) ==> fails_with(r, "Only .deb files are supported."@),
        exists && has_extension(path@, "deb"@, "DEB"@) ==> r is Ok,
{
    if !exists {
        return Err(string_of("DEB file does not exist."));
    }
    if !is_deb_path(path) {
        return Err(string_of("Only .deb files are supported."));
    }
    Ok(())
}

/// Checks an RPM package given for installation.
pub fn validate_rpm_source(path: &str, exists: bool) -> (r: Result<(), String>)
    ensures
        !exists ==> fails_with(r, "RPM file does not exist."@),
        exists && !has_extension(path@, "rpm"@, "RPM"@) ==> fails_with(r, "Only .rpm files are supported."@),
        exists && has_extension(path@, "rpm"@, "RPM"@) ==> r is Ok,
{
    if !exists {
        return Err(string_of("RPM file does not exist."));
    }
    if !is_rpm_path(path) {
        return Err(string_of("Only .rpm files are supported."));
    }
    Ok(())
}

/// The four bytes that open every ELF binary (and so every AppImage).
pub open spec fn elf_magic() -> Seq<u8> {
    seq![0x7fu8, 0x45u8, 0x4cu8, 0x46u8]
}

/// Checks the first bytes of an AppImage (as many as could be read, up to
/// four): fewer than four bytes is too small, and four bytes must be the ELF
/// magic.
pub fn check_elf_header(header: &[u8]) -> (r: Result<(), String>)
    ensures
        header@.len() < 4 ==> fails_with(r, "AppImage file is too small to be valid."@),
        header@.len() >= 4 && header@.take(4) != elf_magic() ==> fails_with(
            r,
            "The selected file is not a valid ELF/AppImage binary."@,
        ),
        header@.len() >= 4 && header@.take(4) == elf_magic() ==> r is Ok,
{
    if header.len() < 4 {
        return Err(string_of("AppImage file is too small to be valid."));
    }
    if header[0] == 0x7f && header[1] == 0x45 && header[2] == 0x4c && header[3] == 0x46 {
        assert(header@.take(4) =~= elf_magic());
        Ok(())
    } else {
        assert(header@.take(4) != elf_magic()) by {
            if header@.take(4) == elf_magic() {
                assert(header@.take(4)[0] == header@[0]);
                assert(header@.take(4)[1] == header@[1]);
                assert(header@.take(4)[2] == header@[2]);
                assert(header@.take(4)[3] == header@[3]);
            }
        }
        Err(string_of("The selected file is not a valid ELF/AppImage binary."))
    }
}

/// The file name of the AppImage at `path`.
pub fn appimage_file_name(path: &str) -> (r: Result<String, String>)
    ensures
        match crate::path::file_name(path@) {
            Some(f) => r is Ok && r->Ok_0@ == f,
            None => fails_with(r, "Invalid AppImage file name"@),
        },
{
    match crate::path::file_name_exec(&to_chars(path)) {
        Some(f) => Ok(crate::text::from_chars(&f)),
        None => Err(string_of("Invalid AppImage file name")),
    }
}

/// The file name of an executable given for installation.
pub fn executable_file_name(path: &str, exists: bool) -> (r: Result<String, String>)
    ensures
        !exists ==> fails_with(r, "File does not exist."@),
        exists ==> match crate::path::file_name(path@) {
            Some(f) => r is Ok && r->Ok_0@ == f,
            None => fails_with(r, "Invalid file name"@),
        },
{
    if !exists {
        return Err(string_of("File does not exist."));
    }
    match crate::path::file_name_exec(&to_chars(path)) {
        Some(f) => Ok(crate::text::from_chars(&f)),
        None => Err(string_of("Invalid file name")),
    }
}

/// The name an application is known by: its file name with every
/// `.AppImage`, then every `.appimage`, removed.
pub open spec fn base_name_of(file_name: Seq<char>) -> Seq<char> {
    replace_all(replace_all(file_name, ".AppImage"@, Seq::empty()), ".appimage"@, Seq::empty())
}

/// The base name of an application file.
pub fn app_base_name(file_name: &str) -> (r: String)
    ensures
        r@ == base_name_of(file_name@),
{
    proof {
        reveal_strlit(".AppImage");
        reveal_strlit(".appimage");
        reveal_strlit("");
        assert(""@ =~= Seq::<char>::empty());
    }
    let a = crate::text::replace_str(&to_chars(file_name), ".AppImage", "");
    string_of_chars(&crate::text::replace_str(&a, ".appimage", ""))
}

fn string_of_chars(v: &Vec<char>) -> (r: String)
    ensures
        r@ == v@,
{
    crate::text::from_chars(v)
}

/// Where the installed desktop entry of the application `base` goes.
pub open spec fn desktop_entry_path(apps_dir: Seq<char>, base: Seq<char>) -> Seq<char> {
    join(apps_dir, base + ".desktop"@)
}

pub fn desktop_entry_path_exec(apps_dir: &str, base: &str) -> (r: String)
    ensures
        r@ == desktop_entry_path(apps_dir@, base@),
{
    let mut name = to_chars(base);
    crate::text::push_str(&mut name, ".desktop");
    string_of_chars(&crate::path::join_exec(&to_chars(apps_dir), &name))
}

/// The message given when an AppImage of the same file name is installed
/// already at `target`.
pub open spec fn duplicate_message(file_name: Seq<char>, target: Seq<char>) -> Seq<char> {
    "An application named '"@ + file_name + "' already exists at "@ + target
        + ". Remove it first or rename the file."@
}

pub fn duplicate_app_message(file_name: &str, target: &str) -> (r: String)
    ensures
        r@ == duplicate_message(file_name@, target@),
{
    let mut out = to_chars("An application named '");
    crate::text::push_str(&mut out, file_name);
    crate::text::push_str(&mut out, "' already exists at ");
    crate::text::push_str(&mut out, target);
    crate::text::push_str(&mut out, ". Remove it first or rename the file.");
    string_of_chars(&out)
}

/// Whether the FUSE 2 library is available, judged from the output of
/// `ldconfig -p` (`None` when it could not be run, which is taken as
/// available).
pub fn libfuse_available(ldconfig_output: Option<&str>) -> (r: bool)
    ensures
        r == match ldconfig_output {
            Some(o) => crate::text::contains(o@, "libfuse.so.2"@),
            None => true,
        },
{
    match ldconfig_output {
        Some(o) => crate::text::contains_str(&to_chars(o), "libfuse.so.2"),
        None => true,
    }
}

/// The command line of an installed AppImage: the quoted path and `%U`,
/// run with `APPIMAGE_EXTRACT_AND_RUN=1` when FUSE 2 is missing and the file
/// name mentions `.appimage` in lower case.
pub open spec fn appimage_exec(final_path: Seq<char>, has_libfuse: bool, file_name: Seq<char>) -> Seq<char> {
    if !has_libfuse && crate::text::contains(crate::text::unicode_lower(file_name), ".appimage"@) {
        "env APPIMAGE_EXTRACT_AND_RUN=1 \""@ + final_path + "\" %U"@
    } else {
        "\""@ + final_path + "\" %U"@
    }
}

pub fn appimage_exec_command(final_path: &str, has_libfuse: bool, file_name: &str) -> (r: String)
    ensures
        r@ == appimage_exec(final_path@, has_libfuse, file_name@),
{
    let lowered = to_chars(crate::text::to_lowercase(file_name).as_str());
    let mut out: Vec<char>;
    if !has_libfuse && crate::text::contains_str(&lowered, ".appimage") {
        out = to_chars("env APPIMAGE_EXTRACT_AND_RUN=1 \"");
    } else {
        out = to_chars("\"");
    }
    crate::text::push_str(&mut out, final_path);
    crate::text::push_str(&mut out, "\" %U");
    string_of_chars(&out)
}

/// The `Icon=` value of an installed entry: the copied icon's path, or
/// `<base>_icon` when no icon could be copied.
pub fn installed_icon_value(copied_icon: Option<&str>, base: &str) -> (r: String)
    ensures
        r@ == match copied_icon {
            Some(p) => p@,
            None => base@ + "_icon"@,
        },
{
    match copied_icon {
        Some(p) => string_of(p),
        None => crate::text::concat2(base, "_icon"),
    }
}

} // verus!

verus! {

/// Where an icon may sit inside an extracted AppImage, relative to its root,
/// in the order they are tried.
pub open spec fn icon_source_names(name: Seq<char>) -> Seq<Seq<char>> {
    seq![
        name + ".png"@,
        name + ".svg"@,
        "usr/share/icons/hicolor/512x512/apps/"@ + name + ".png"@,
        "usr/share/icons/hicolor/scalable/apps/"@ + name + ".svg"@,
        "usr/share/icons/hicolor/256x256/apps/"@ + name + ".png"@,
        "usr/share/icons/hicolor/128x128/apps/"@ + name + ".png"@,
        "usr/share/pixmaps/"@ + name + ".png"@,
        ".DirIcon"@,
    ]
}

/// The icon files to try for the icon named `name` in the tree extracted at
/// `root`; none when the entry names no icon.
pub open spec fn icon_sources(root: Seq<char>, name: Seq<char>) -> Seq<Seq<char>> {
    if name.len() == 0 {
        seq![]
    } else {
        icon_source_names(name).map_values(|n: Seq<char>| join(root, n))
    }
}

fn joined_string(root: &Vec<char>, a: &str, name: &str, b: &str) -> (r: String)
    ensures
        r@ == join(root@, a@ + name@ + b@),
{
    let mut rel = to_chars(a);
    crate::text::push_str(&mut rel, name);
    crate::text::push_str(&mut rel, b);
    crate::text::from_chars(&crate::path::join_exec(root, &rel))
}

/// The candidate icon files, in order.
pub fn icon_candidates(squashfs_root: &str, icon_name: &str) -> (r: Vec<String>)
    ensures
        r@.map_values(|s: String| s@) == icon_sources(squashfs_root@, icon_name@),
{
    let mut r: Vec<String> = Vec::new();
    if icon_name.unicode_len() == 0 {
        assert(r@.map_values(|s: String| s@) =~= Seq::<Seq<char>>::empty());
        return r;
    }
    let root = to_chars(squashfs_root);
    proof { reveal_strlit(""); assert(""@ =~= Seq::<char>::empty()); }
    r.push(joined_string(&root, "", icon_name, ".png"));
    r.push(joined_string(&root, "", icon_name, ".svg"));
    r.push(joined_string(&root, "usr/share/icons/hicolor/512x512/apps/", icon_name, ".png"));
    r.push(joined_string(&root, "usr/share/icons/hicolor/scalable/apps/", icon_name, ".svg"));
    r.push(joined_string(&root, "usr/share/icons/hicolor/256x256/apps/", icon_name, ".png"));
    r.push(joined_string(&root, "usr/share/icons/hicolor/128x128/apps/", icon_name, ".png"));
    r.push(joined_string(&root, "usr/share/pixmaps/", icon_name, ".png"));
    r.push(crate::text::from_chars(&crate::path::join_str(&root, ".DirIcon")));
    assert(r@.map_values(|s: String| s@) =~= icon_sources(squashfs_root@, icon_name@));
    r
}

/// Where an icon copied from `source` is placed: `<base>_icon.<ext>` in
/// `icons_dir`, with the source's extension, or `png` when it has none.
pub open spec fn icon_destination(icons_dir: Seq<char>, base: Seq<char>, source: Seq<char>) -> Seq<char> {
    let ext = match extension(source) {
        Some(e) => if e.len() > 0 {
            e
        } else {
            "png"@
        },
        None => "png"@,
    };
    join(icons_dir, base + "_icon."@ + ext)
}

pub fn icon_destination_path(icons_dir: &str, base: &str, source: &str) -> (r: String)
    ensures
        r@ == icon_destination(icons_dir@, base@, source@),
{
    let ext = match extension_exec(&to_chars(source)) {
        Some(e) => if e.len() > 0 {
            e
        } else {
            to_chars("png")
        },
        None => to_chars("png"),
    };
    let mut name = to_chars(base);
    crate::text::push_str(&mut name, "_icon.");
    crate::text::push_all(&mut name, &ext);
    crate::text::from_chars(&crate::path::join_exec(&to_chars(icons_dir), &name))
}

/// Where a `png` or `svg` file found at the top of the extracted tree is
/// placed when no named icon was found (the extension compared and written
/// in lower case); other files are not used.
pub open spec fn fallback_icon_destination(icons_dir: Seq<char>, base: Seq<char>, entry: Seq<char>) -> Option<Seq<char>> {
    match extension(entry) {
        Some(e) => {
            let l = crate::text::unicode_lower(e);
            if l == "png"@ || l == "svg"@ {
                Some(join(icons_dir, base + "_icon."@ + l))
            } else {
                None
            }
        },
        None => None,
    }
}

pub fn fallback_icon_path(icons_dir: &str, base: &str, entry: &str) -> (r: Option<String>)
    ensures
        match r {
            Some(p) => fallback_icon_destination(icons_dir@, base@, entry@) == Some(p@),
            None => fallback_icon_destination(icons_dir@, base@, entry@) is None,
        },
{
    match extension_exec(&to_chars(entry)) {
        Some(e) => {
            let l = crate::text::lower_unicode(&e);
            if equals_str(&l, "png") || equals_str(&l, "svg") {
                let mut name = to_chars(base);
                crate::text::push_str(&mut name, "_icon.");
                crate::text::push_all(&mut name, &l);
                Some(crate::text::from_chars(&crate::path::join_exec(&to_chars(icons_dir), &name)))
            } else {
                None
            }
        },
        None => None,
    }
}

/// A hyphenated lower-case UUID: 36 characters, hyphens at positions 8, 13,
/// 18 and 23, hexadecimal digits elsewhere.
pub open spec fn is_uuid_text(s: Seq<char>) -> bool {
    &&& s.len() == 36
    &&& forall|i: int|
        0 <= i < 36 ==> if i == 8 || i == 13 || i == 18 || i == 23 {
            s[i] == '-'
        } else {
            ('0' <= s[i] && s[i] <= '9') || ('a' <= s[i] && s[i] <= 'f')
        }
}

/// `uuid::Uuid::new_v4`, written with `Display`: a random UUID in
/// hyphenated lower-case form. Which UUID comes back is chance.
#[verifier::external_body]
fn random_uuid() -> (r: String)
    ensures
        is_uuid_text(r@),
{
    uuid::Uuid::new_v4().to_string()
}

/// The name of the scratch directory an installation extracts into.
pub open spec fn workspace_name(id: Seq<char>) -> Seq<char> {
    "linuxy_"@ + id
}

/// The name under which an AppImage is copied before it is moved into
/// place.
pub open spec fn staging_name(base: Seq<char>, id: Seq<char>) -> Seq<char> {
    "."@ + base + "."@ + id + ".part.AppImage"@
}

/// The name of the file a download is written to.
pub open spec fn download_name(id: Seq<char>) -> Seq<char> {
    id + ".AppImage"@
}

pub fn workspace_dir_name(id: &str) -> (r: String)
    ensures
        r@ == workspace_name(id@),
{
    crate::text::concat2("linuxy_", id)
}

pub fn staging_file_name(base: &str, id: &str) -> (r: String)
    ensures
        r@ == staging_name(base@, id@),
{
    let mut out = to_chars(".");
    crate::text::push_str(&mut out, base);
    crate::text::push_str(&mut out, ".");
    crate::text::push_str(&mut out, id);
    crate::text::push_str(&mut out, ".part.AppImage");
    crate::text::from_chars(&out)
}

pub fn download_file_name(id: &str) -> (r: String)
    ensures
        r@ == download_name(id@),
{
    crate::text::concat2(id, ".AppImage")
}

/// A fresh scratch directory name for an installation.
pub fn new_workspace_dir_name() -> (r: String)
    ensures
        exists|id: Seq<char>| is_uuid_text(id) && r@ == workspace_name(id),
{
    let id = random_uuid();
    workspace_dir_name(id.as_str())
}

/// A fresh staging name for the AppImage of the application `base`.
pub fn new_staging_file_name(base: &str) -> (r: String)
    ensures
        exists|id: Seq<char>| is_uuid_text(id) && r@ == staging_name(base@, id),
{
    let id = random_uuid();
    staging_file_name(base, id.as_str())
}

/// A fresh file name for a download.
pub fn new_download_file_name() -> (r: String)
    ensures
        exists|id: Seq<char>| is_uuid_text(id) && r@ == download_name(id),
{
    let id = random_uuid();
    download_file_name(id.as_str())
}

} // verus!

verus! {

/// The tools that can install a Debian package, in order of preference.
#[derive(Clone, Copy, Debug, PartialEq, Eq, Structural)]
pub enum DebManager {
    Apt,
    Dpkg,
    Pacman,
}

/// The first available of `apt`, `dpkg`, `pacman`.
pub fn first_deb_manager(apt: bool, dpkg: bool, pacman: bool) -> (r: Option<DebManager>)
    ensures
        r == (if apt {
            Some(DebManager::Apt)
        } else if dpkg {
            Some(DebManager::Dpkg)
        } else if pacman {
            Some(DebManager::Pacman)
        } else {
            None
        }),
{
    if apt {
        Some(DebManager::Apt)
    } else if dpkg {
        Some(DebManager::Dpkg)
    } else if pacman {
        Some(DebManager::Pacman)
    } else {
        None
    }
}

/// Why no Debian package manager could be used: on an RPM system the user is
/// told to fetch another format.
pub open spec fn deb_missing_message(rpm_available: bool) -> Seq<char> {
    if rpm_available {
        "This is a DEB package, but your system uses RPM (Fedora, openSUSE, RHEL). Please download an RPM or AppImage instead."@
    } else {
        "No supported DEB package manager (apt/dpkg) found on this system."@
    }
}

pub fn deb_manager_missing_message(rpm_available: bool) -> (r: String)
    ensures
        r@ == deb_missing_message(rpm_available),
{
    if rpm_available {
        string_of(
            "This is a DEB package, but your system uses RPM (Fedora, openSUSE, RHEL). Please download an RPM or AppImage instead.",
        )
    } else {
        string_of("No supported DEB package manager (apt/dpkg) found on this system.")
    }
}

impl DebManager {
    pub open spec fn spec_name(self) -> Seq<char> {
        match self {
            DebManager::Apt => "apt"@,
            DebManager::Dpkg => "dpkg"@,
            DebManager::Pacman => "pacman"@,
        }
    }

    /// The command name of the tool.
    pub fn name(&self) -> (r: String)
        ensures
            r@ == self.spec_name(),
    {
        match self {
            DebManager::Apt => string_of("apt"),
            DebManager::Dpkg => string_of("dpkg"),
            DebManager::Pacman => string_of("pacman"),
        }
    }

    /// The arguments given to `pkexec` to install the package at `path`:
    /// `apt install -y <path>` or `dpkg -i <path>`; a package on a pacman
    /// system is converted with debtap instead, so there is none.
    pub fn install_args(&self, path: &str) -> (r: Option<Vec<String>>)
        ensures
            match self {
                DebManager::Apt => r is Some && r->Some_0@.map_values(|s: String| s@)
                    == seq!["apt"@, "install"@, "-y"@, path@],
                DebManager::Dpkg => r is Some && r->Some_0@.map_values(|s: String| s@)
                    == seq!["dpkg"@, "-i"@, path@],
                DebManager::Pacman => r is None,
            },
    {
        match self {
            DebManager::Apt => {
                let v = vec![string_of("apt"), string_of("install"), string_of("-y"), string_of(path)];
                assert(v@.map_values(|s: String| s@) =~= seq!["apt"@, "install"@, "-y"@, path@]);
                Some(v)
            },
            DebManager::Dpkg => {
                let v = vec![string_of("dpkg"), string_of("-i"), string_of(path)];
                assert(v@.map_values(|s: String| s@) =~= seq!["dpkg"@, "-i"@, path@]);
                Some(v)
            },
            DebManager::Pacman => None,
        }
    }
}

/// The arguments given to `pkexec` after a successful `dpkg -i`, to pull in
/// missing dependencies.
pub fn dpkg_fixup_args() -> (r: Vec<String>)
    ensures
        r@.map_values(|s: String| s@) == seq!["apt"@, "install"@, "-f"@, "-y"@],
{
    let v = vec![string_of("apt"), string_of("install"), string_of("-f"), string_of("-y")];
    assert(v@.map_values(|s: String| s@) =~= seq!["apt"@, "install"@, "-f"@, "-y"@]);
    v
}

/// The tools that can install an RPM package, in order of preference.
#[derive(Clone, Copy, Debug, PartialEq, Eq, Structural)]
pub enum RpmManager {
    Dnf,
    Zypper,
    Yum,
    Rpm,
}

/// The first available of `dnf`, `zypper`, `yum`, `rpm`.
pub fn first_rpm_manager(dnf: bool, zypper: bool, yum: bool, rpm: bool) -> (r: Option<RpmManager>)
    ensures
        r == (if dnf {
            Some(RpmManager::Dnf)
        } else if zypper {
            Some(RpmManager::Zypper)
        } else if yum {
            Some(RpmManager::Yum)
        } else if rpm {
            Some(RpmManager::Rpm)
        } else {
            None
        }),
{
    if dnf {
        Some(RpmManager::Dnf)
    } else if zypper {
        Some(RpmManager::Zypper)
    } else if yum {
        Some(RpmManager::Yum)
    } else if rpm {
        Some(RpmManager::Rpm)
    } else {
        None
    }
}

/// Why no RPM package manager could be used: on a Debian system the user is
/// told to fetch another format.
pub open spec fn rpm_missing_message(dpkg_available: bool) -> Seq<char> {
    if dpkg_available {
        "This is an RPM package, but your system uses DEB (Ubuntu, Debian, Mint). Please download a DEB or AppImage instead."@
    } else {
        "No supported RPM package manager (dnf/zypper/yum/rpm) found on this system."@
    }
}

pub fn rpm_manager_missing_message(dpkg_available: bool) -> (r: String)
    ensures
        r@ == rpm_missing_message(dpkg_available),
{
    if dpkg_available {
        string_of(
            "This is an RPM package, but your system uses DEB (Ubuntu, Debian, Mint). Please download a DEB or AppImage instead.",
        )
    } else {
        string_of("No supported RPM package manager (dnf/zypper/yum/rpm) found on this system.")
    }
}

impl RpmManager {
    pub open spec fn spec_name(self) -> Seq<char> {
        match self {
            RpmManager::Dnf => "dnf"@,
            RpmManager::Zypper => "zypper"@,
            RpmManager::Yum => "yum"@,
            RpmManager::Rpm => "rpm"@,
        }
    }

    pub fn name(&self) -> (r: String)
        ensures
            r@ == self.spec_name(),
    {
        match self {
            RpmManager::Dnf => string_of("dnf"),
            RpmManager::Zypper => string_of("zypper"),
            RpmManager::Yum => string_of("yum"),
            RpmManager::Rpm => string_of("rpm"),
        }
    }

    pub open spec fn spec_install_args(self, path: Seq<char>) -> Seq<Seq<char>> {
        match self {
            RpmManager::Dnf => seq!["dnf"@, "install"@, "-y"@, path],
            RpmManager::Zypper => seq!["zypper"@, "install"@, "-y"@, path],
            RpmManager::Yum => seq!["yum"@, "localinstall"@, "-y"@, path],
            RpmManager::Rpm => seq!["rpm"@, "-i"@, "--nodeps"@, path],
        }
    }

    /// The arguments given to `pkexec` to install the package at `path`.
    pub fn install_args(&self, path: &str) -> (r: Vec<String>)
        ensures
            r@.map_values(|s: String| s@) == self.spec_install_args(path@),
    {
        let v = match self {
            RpmManager::Dnf => vec![string_of("dnf"), string_of("install"), string_of("-y"), string_of(path)],
            RpmManager::Zypper => vec![string_of("zypper"), string_of("install"), string_of("-y"), string_of(path)],
            RpmManager::Yum => vec![string_of("yum"), string_of("localinstall"), string_of("-y"), string_of(path)],
            RpmManager::Rpm => vec![string_of("rpm"), string_of("-i"), string_of("--nodeps"), string_of(path)],
        };
        assert(v@.map_values(|s: String| s@) =~= self.spec_install_args(path@));
        v
    }
}

/// The progress line shown before a package is installed with `tool`.
pub fn installing_with_message(kind: &str, tool: &str) -> (r: String)
    ensures
        r@ == "Installing "@ + kind@ + " package with "@ + tool@ + "..."@,
{
    let mut out = to_chars("Installing ");
    crate::text::push_str(&mut out, kind);
    crate::text::push_str(&mut out, " package with ");
    crate::text::push_str(&mut out, tool);
    crate::text::push_str(&mut out, "...");
    crate::text::from_chars(&out)
}

/// The message of a successful package installation with `tool`.
pub fn installed_via_message(kind: &str, tool: &str) -> (r: String)
    ensures
        r@ == "Successfully installed "@ + kind@ + " package via "@ + tool@,
{
    let mut out = to_chars("Successfully installed ");
    crate::text::push_str(&mut out, kind);
    crate::text::push_str(&mut out, " package via ");
    crate::text::push_str(&mut out, tool);
    crate::text::from_chars(&out)
}

/// The first line of debtap's output that names a converted package
/// (contains `.pkg.tar`), trimmed.
pub open spec fn converted_package(ls: Seq<Seq<char>>) -> Option<Seq<char>>
    decreases ls.len(),
{
    if ls.len() == 0 {
        None
    } else if crate::text::contains(ls[0], ".pkg.tar"@) {
        Some(crate::text::trim(ls[0]))
    } else {
        converted_package(ls.drop_first())
    }
}

/// Where debtap says it wrote the converted package.
pub fn converted_package_path(stdout: &str) -> (r: Option<String>)
    ensures
        match r {
            Some(p) => converted_package(crate::text::lines(stdout@)) == Some(p@),
            None => converted_package(crate::text::lines(stdout@)) is None,
        },
{
    let ls = crate::text::lines_exec(&to_chars(stdout));
    let ghost dv = ls.deep_view();
    let n = ls.len();
    assert(dv.skip(0) =~= dv);
    for i in 0..n
        invariant
            n == ls.len(),
            dv == ls.deep_view(),
            dv == crate::text::lines(stdout@),
            converted_package(dv) == converted_package(dv.skip(i as int)),
    {
        proof { crate::text::lemma_chars_deep_view(&ls[i as int]); }
        assert(dv.skip(i as int)[0] == ls@[i as int]@);
        assert(dv.skip(i as int).drop_first() =~= dv.skip(i + 1));
        if crate::text::contains_str(&ls[i], ".pkg.tar") {
            return Some(crate::text::from_chars(&crate::text::trim_exec(&ls[i])));
        }
    }
    assert(dv.skip(n as int) =~= Seq::<Seq<char>>::empty());
    None
}

} // verus!
