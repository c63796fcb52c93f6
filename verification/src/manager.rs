//! The installed library: listing applications, launching and removing
//! them, the storage dashboard and cleanup, and library backups.
use vstd::prelude::*;
use crate::desktop::{DesktopInfo, DesktopFields};
use crate::installer::{base_name_of, has_extension};
use crate::path::{file_name, file_name_exec, is_absolute, join};
use crate::text::{from_chars, push_str, string_of, to_chars};

verus! {

/// An installed application as the library presents it.
#[derive(Clone, Debug)]
pub struct AppInfo {
    pub name: String,
    /// What launches the application (its file path).
    pub executable: String,
    pub icon: Option<String>,
    pub path: String,
    pub desktop_path: String,
    pub sandboxed: bool,
    pub size_bytes: u64,
    pub installed_at: u64,
    pub categories: Vec<String>,
    pub package_type: String,
}

/// A desktop entry read back from disk, with its icon resolved to a file.
pub struct ResolvedEntry {
    pub info: DesktopInfo,
    pub icon_path: Option<String>,
}

/// The name of a file, or the empty text when the path has none.
pub open spec fn file_name_or_empty(path: Seq<char>) -> Seq<char> {
    match file_name(path) {
        Some(f) => f,
        None => Seq::empty(),
    }
}

fn file_name_or_empty_exec(path: &str) -> (r: Vec<char>)
    ensures
        r@ == file_name_or_empty(path@),
{
    match file_name_exec(&to_chars(path)) {
        Some(f) => f,
        None => Vec::new(),
    }
}

/// The base name of the application file at `path`.
pub open spec fn app_base(path: Seq<char>) -> Seq<char> {
    base_name_of(file_name_or_empty(path))
}

pub fn app_base_name_of_path(path: &str) -> (r: String)
    ensures
        r@ == app_base(path@),
{
    let f = from_chars(&file_name_or_empty_exec(path));
    crate::installer::app_base_name(f.as_str())
}

/// The desktop entry that belongs to the installed AppImage at `path`.
pub open spec fn appimage_entry_path(apps_dir: Seq<char>, path: Seq<char>) -> Seq<char> {
    join(apps_dir, app_base(path) + ".desktop"@)
}

pub fn appimage_desktop_path(apps_dir: &str, path: &str) -> (r: String)
    ensures
        r@ == appimage_entry_path(apps_dir@, path@),
{
    let base = app_base_name_of_path(path);
    crate::installer::desktop_entry_path_exec(apps_dir, base.as_str())
}

/// The desktop entry that belongs to the installed executable at `path`.
pub open spec fn executable_entry_path(apps_dir: Seq<char>, path: Seq<char>) -> Seq<char> {
    join(apps_dir, file_name_or_empty(path) + ".desktop"@)
}

pub fn executable_desktop_path(apps_dir: &str, path: &str) -> (r: String)
    ensures
        r@ == executable_entry_path(apps_dir@, path@),
{
    let f = from_chars(&file_name_or_empty_exec(path));
    crate::installer::desktop_entry_path_exec(apps_dir, f.as_str())
}

/// The files that may hold the icon an entry names, in the order they are
/// tried: an absolute name itself, then `<name>.png` and `<name>.svg` in
/// `icons_dir`; none when the entry names no icon.
pub open spec fn icon_lookup(icon_name: Seq<char>, icons_dir: Seq<char>) -> Seq<Seq<char>> {
    if icon_name.len() == 0 {
        seq![]
    } else {
        let tail = seq![join(icons_dir, icon_name + ".png"@), join(icons_dir, icon_name + ".svg"@)];
        if is_absolute(icon_name) {
            seq![icon_name] + tail
        } else {
            tail
        }
    }
}

pub fn icon_lookup_paths(icon_name: &str, icons_dir: &str) -> (r: Vec<String>)
    ensures
        r@.map_values(|s: String| s@) == icon_lookup(icon_name@, icons_dir@),
{
    let name = to_chars(icon_name);
    let mut r: Vec<String> = Vec::new();
    if name.len() == 0 {
        assert(r@.map_values(|s: String| s@) =~= icon_lookup(icon_name@, icons_dir@));
        return r;
    }
    if crate::path::is_absolute_exec(&name) {
        r.push(string_of(icon_name));
    }
    let dir = to_chars(icons_dir);
    let mut png = to_chars(icon_name);
    push_str(&mut png, ".png");
    let mut svg = to_chars(icon_name);
    push_str(&mut svg, ".svg");
    r.push(from_chars(&crate::path::join_exec(&dir, &png)));
    r.push(from_chars(&crate::path::join_exec(&dir, &svg)));
    assert(r@.map_values(|s: String| s@) =~= icon_lookup(icon_name@, icons_dir@));
    r
}

/// What the listing shows for an AppImage at `path` whose entry is at
/// `desktop_path`: the entry's name, icon, categories and sandbox state when
/// it could be read, the base name otherwise.
pub open spec fn appimage_info_ok(
    r: AppInfo,
    path: Seq<char>,
    desktop_path: Seq<char>,
    size: u64,
    installed_at: u64,
    entry: Option<(DesktopFields, Option<Seq<char>>)>,
) -> bool {
    &&& r.executable@ == path
    &&& r.path@ == path
    &&& r.desktop_path@ == desktop_path
    &&& r.size_bytes == size
    &&& r.installed_at == installed_at
    &&& r.package_type@ == "AppImage"@
    &&& match entry {
        Some((f, icon)) => {
            &&& r.name@ == f.name
            &&& r.categories@.map_values(|c: String| c@) == f.categories
            &&& r.sandboxed == f.sandboxed
            &&& opt_view(r.icon) == icon
        },
        None => {
            &&& r.name@ == app_base(path)
            &&& r.categories@.len() == 0
            &&& !r.sandboxed
            &&& r.icon is None
        },
    }
}

pub open spec fn opt_view(o: Option<String>) -> Option<Seq<char>> {
    match o {
        Some(s) => Some(s@),
        None => None,
    }
}

pub open spec fn resolved_view(e: Option<ResolvedEntry>) -> Option<(DesktopFields, Option<Seq<char>>)> {
    match e {
        Some(x) => Some((x.info.fields(), opt_view(x.icon_path))),
        None => None,
    }
}

/// The listing entry of an installed AppImage.
pub fn appimage_app_info(
    path: &str,
    desktop_path: &str,
    size_bytes: u64,
    installed_at: u64,
    entry: Option<ResolvedEntry>,
) -> (r: AppInfo)
    ensures
        appimage_info_ok(r, path@, desktop_path@, size_bytes, installed_at, resolved_view(entry)),
        r.size_bytes == size_bytes,
        r.installed_at == installed_at,
        r.path@ == path@,
        r.executable@ == path@,
        r.desktop_path@ == desktop_path@,
        r.package_type@ == "AppImage"@,
        entry is None ==> r.name@ == app_base(path@) && r.icon is None && r.categories@.len() == 0 && !r.sandboxed,
        entry matches Some(e) ==> r.name@ == e.info.name@ && r.categories@.map_values(|c: String| c@)
            == e.info.categories@.map_values(|c: String| c@) && opt_view(r.icon) == opt_view(e.icon_path)
            && r.sandboxed == e.info.sandboxed,
{
    let (name, icon, categories, sandboxed) = match entry {
        Some(e) => (e.info.name, e.icon_path, e.info.categories, e.info.sandboxed),
        None => (app_base_name_of_path(path), None, Vec::new(), false),
    };
    AppInfo {
        name,
        executable: string_of(path),
        icon,
        path: string_of(path),
        desktop_path: string_of(desktop_path),
        sandboxed,
        size_bytes,
        installed_at,
        categories,
        package_type: string_of("AppImage"),
    }
}

/// What the listing shows for an executable at `path`: like an AppImage,
/// but named by its file name when its entry cannot be read, and never
/// sandboxed.
pub open spec fn executable_info_ok(
    r: AppInfo,
    path: Seq<char>,
    desktop_path: Seq<char>,
    size: u64,
    installed_at: u64,
    entry: Option<(DesktopFields, Option<Seq<char>>)>,
) -> bool {
    &&& r.executable@ == path
    &&& r.path@ == path
    &&& r.desktop_path@ == desktop_path
    &&& r.size_bytes == size
    &&& r.installed_at == installed_at
    &&& r.package_type@ == "Executable"@
    &&& !r.sandboxed
    &&& match entry {
        Some((f, icon)) => {
            &&& r.name@ == f.name
            &&& r.categories@.map_values(|c: String| c@) == f.categories
            &&& opt_view(r.icon) == icon
        },
        None => {
            &&& r.name@ == file_name_or_empty(path)
            &&& r.categories@.len() == 0
            &&& r.icon is None
        },
    }
}

/// The listing entry of an installed executable.
pub fn executable_app_info(
    path: &str,
    desktop_path: &str,
    size_bytes: u64,
    installed_at: u64,
    entry: Option<ResolvedEntry>,
) -> (r: AppInfo)
    ensures
        executable_info_ok(r, path@, desktop_path@, size_bytes, installed_at, resolved_view(entry)),
        r.size_bytes == size_bytes,
        r.installed_at == installed_at,
        r.path@ == path@,
        r.executable@ == path@,
        r.desktop_path@ == desktop_path@,
        r.package_type@ == "Executable"@,
        !r.sandboxed,
        entry is None ==> r.name@ == file_name_or_empty(path@) && r.icon is None && r.categories@.len() == 0,
        entry matches Some(e) ==> r.name@ == e.info.name@ && r.categories@.map_values(|c: String| c@)
            == e.info.categories@.map_values(|c: String| c@) && opt_view(r.icon) == opt_view(e.icon_path),
{
    let (name, icon, categories) = match entry {
        Some(e) => (e.info.name, e.icon_path, e.info.categories),
        None => (from_chars(&file_name_or_empty_exec(path)), None, Vec::new()),
    };
    AppInfo {
        name,
        executable: string_of(path),
        icon,
        path: string_of(path),
        desktop_path: string_of(desktop_path),
        sandboxed: false,
        size_bytes,
        installed_at,
        categories,
        package_type: string_of("Executable"),
    }
}

} // verus!

verus! {

/// A program to start and its arguments.
pub struct LaunchCommand {
    pub program: String,
    pub args: Vec<String>,
}

pub open spec fn str_seq(v: Vec<String>) -> Seq<Seq<char>> {
    v@.map_values(|s: String| s@)
}

/// How an application at `path` is started: through Firejail (with
/// `--appimage` when the path mentions `.appimage` in lower case) when its
/// entry asks for the sandbox, which then must be installed; directly
/// otherwise.
pub open spec fn launch_ok(r: Result<LaunchCommand, String>, path: Seq<char>, sandboxed: bool, firejail_installed: bool) -> bool {
    if sandboxed {
        if firejail_installed {
            &&& r is Ok
            &&& r->Ok_0.program@ == "firejail"@
            &&& str_seq(r->Ok_0.args) == if crate::text::contains(crate::text::unicode_lower(path), ".appimage"@) {
                seq!["--appimage"@, path]
            } else {
                seq![path]
            }
        } else {
            crate::installer::fails_with(r, "Firejail is not installed. Please install firejail to run sandboxed apps."@)
        }
    } else {
        &&& r is Ok
        &&& r->Ok_0.program@ == path
        &&& str_seq(r->Ok_0.args).len() == 0
    }
}

/// Decides how to start the application at `path`, given whether its entry
/// launches it sandboxed and whether Firejail is installed.
pub fn launch_plan(path: &str, sandboxed: bool, firejail_installed: bool) -> (r: Result<LaunchCommand, String>)
    ensures
        launch_ok(r, path@, sandboxed, firejail_installed),
        sandboxed && firejail_installed && crate::text::contains(crate::text::ascii_lower(path@), ".appimage"@)
            ==> r is Ok && r->Ok_0.program@ == "firejail"@ && str_seq(r->Ok_0.args) == seq![
            "--appimage"@,
            path@,
        ],
        !sandboxed ==> r is Ok && r->Ok_0.program@ == path@ && r->Ok_0.args.len() == 0,
        sandboxed && !firejail_installed ==> r is Err,
        sandboxed && firejail_installed ==> r is Ok && r->Ok_0.program@ == "firejail"@ && str_seq(r->Ok_0.args).last() == path@,
{
    if sandboxed {
        if !firejail_installed {
            return Err(string_of("Firejail is not installed. Please install firejail to run sandboxed apps."));
        }
        let lowered_text = crate::text::to_lowercase(path);
        proof {
            if crate::text::contains(crate::text::ascii_lower(path@), ".appimage"@) {
                crate::text::lemma_appimage_needle();
                let m = crate::text::lemma_ascii_witness(path@, ".appimage"@);
                assert(crate::text::contains(path@, m));
                assert(crate::text::contains(lowered_text@, crate::text::ascii_lower(m)));
            }
        }
        let lowered = to_chars(lowered_text.as_str());
        let mut args: Vec<String> = Vec::new();
        if crate::text::contains_str(&lowered, ".appimage") {
            args.push(string_of("--appimage"));
        }
        args.push(string_of(path));
        assert(str_seq(args) =~= if crate::text::contains(crate::text::unicode_lower(path@), ".appimage"@) {
            seq!["--appimage"@, path@]
        } else {
            seq![path@]
        });
        Ok(LaunchCommand { program: string_of("firejail"), args })
    } else {
        let args: Vec<String> = Vec::new();
        assert(str_seq(args) =~= Seq::<Seq<char>>::empty());
        Ok(LaunchCommand { program: string_of(path), args })
    }
}

/// The desktop entry a removal deletes: the one given, or the one that
/// belongs to the application file.
pub open spec fn removal_entry(path: Seq<char>, given: Option<Seq<char>>, apps_dir: Seq<char>) -> Seq<char> {
    match given {
        Some(d) => d,
        None => appimage_entry_path(apps_dir, path),
    }
}

pub fn removal_desktop_path(path: &str, given: Option<&str>, apps_dir: &str) -> (r: String)
    ensures
        r@ == removal_entry(path@, match given {
            Some(d) => Some(d@),
            None => None,
        }, apps_dir@),
{
    match given {
        Some(d) => string_of(d),
        None => appimage_desktop_path(apps_dir, path),
    }
}

/// The icon files a removal deletes: the file an absolute `Icon=` names, or
/// `<icon>.png`, `.svg` and `.xpm` in `icons_dir` for a plain name; and in
/// any case `<base>_icon.png`, `.svg` and `.xpm` in `icons_dir`.
pub open spec fn removal_icons(icon: Option<Seq<char>>, base: Seq<char>, icons_dir: Seq<char>) -> Seq<Seq<char>> {
    let own = seq![
        join(icons_dir, base + "_icon.png"@),
        join(icons_dir, base + "_icon.svg"@),
        join(icons_dir, base + "_icon.xpm"@),
    ];
    match icon {
        Some(i) => if is_absolute(i) {
            seq![i] + own
        } else {
            seq![
                join(icons_dir, i + ".png"@),
                join(icons_dir, i + ".svg"@),
                join(icons_dir, i + ".xpm"@),
            ] + own
        },
        None => own,
    }
}

fn join_suffixed(dir: &Vec<char>, name: &str, suffix: &str) -> (r: String)
    ensures
        r@ == join(dir@, name@ + suffix@),
{
    let mut n = to_chars(name);
    push_str(&mut n, suffix);
    from_chars(&crate::path::join_exec(dir, &n))
}

pub fn removal_icon_paths(icon: Option<&str>, base: &str, icons_dir: &str) -> (r: Vec<String>)
    ensures
        str_seq(r) == removal_icons(match icon {
            Some(i) => Some(i@),
            None => None,
        }, base@, icons_dir@),
{
    let dir = to_chars(icons_dir);
    let mut r: Vec<String> = Vec::new();
    match icon {
        Some(i) => {
            if crate::path::is_absolute_exec(&to_chars(i)) {
                r.push(string_of(i));
            } else {
                r.push(join_suffixed(&dir, i, ".png"));
                r.push(join_suffixed(&dir, i, ".svg"));
                r.push(join_suffixed(&dir, i, ".xpm"));
            }
        },
        None => {},
    }
    r.push(join_suffixed(&dir, base, "_icon.png"));
    r.push(join_suffixed(&dir, base, "_icon.svg"));
    r.push(join_suffixed(&dir, base, "_icon.xpm"));
    assert(str_seq(r) =~= removal_icons(match icon {
        Some(i) => Some(i@),
        None => None,
    }, base@, icons_dir@));
    r
}

/// The directory a name opens: only `appimages` is known.
pub fn directory_path(dir_name: &str, home: &str) -> (r: Result<String, String>)
    ensures
        dir_name@ == "appimages"@ ==> r is Ok && r->Ok_0@ == join(home@, ".local/appimages"@),
        dir_name@ != "appimages"@ ==> crate::installer::fails_with(r, "Invalid directory"@),
{
    if crate::text::equals_str(&to_chars(dir_name), "appimages") {
        Ok(from_chars(&crate::path::join_str(&to_chars(home), ".local/appimages")))
    } else {
        Err(string_of("Invalid directory"))
    }
}

/// A web address may be opened or downloaded only over `http://` or
/// `https://`.
pub open spec fn web_url(url: Seq<char>) -> bool {
    crate::text::starts_with(url, "http://"@) || crate::text::starts_with(url, "https://"@)
}

/// Checks an address before it is handed to the desktop's opener.
pub fn validate_url(url: &str) -> (r: Result<(), String>)
    ensures
        web_url(url@) ==> r is Ok,
        !web_url(url@) ==> crate::installer::fails_with(r, "Invalid URL scheme"@),
{
    let u = to_chars(url);
    if crate::text::starts_with_str(&u, "http://") || crate::text::starts_with_str(&u, "https://") {
        Ok(())
    } else {
        Err(string_of("Invalid URL scheme"))
    }
}

/// The checks before a sandbox is switched: the entry must exist, and to
/// switch it on Firejail must be installed (`firejail_installed` is `None`
/// when that could not be checked; it is only consulted when switching on).
pub fn sandbox_toggle_check(desktop_exists: bool, enable: bool, firejail_installed: Option<bool>) -> (r: Result<(), String>)
    ensures
        !desktop_exists ==> crate::installer::fails_with(r, "Desktop file not found"@),
        desktop_exists && enable && firejail_installed is None ==> crate::installer::fails_with(
            r,
            "Failed to check for firejail"@,
        ),
        desktop_exists && enable && firejail_installed == Some(false) ==> crate::installer::fails_with(
            r,
            "Firejail is not installed. Please install firejail first."@,
        ),
        desktop_exists && (!enable || firejail_installed == Some(true)) ==> r is Ok,
{
    if !desktop_exists {
        return Err(string_of("Desktop file not found"));
    }
    if enable {
        match firejail_installed {
            None => return Err(string_of("Failed to check for firejail")),
            Some(false) => return Err(string_of("Firejail is not installed. Please install firejail first.")),
            Some(true) => {},
        }
    }
    Ok(())
}

} // verus!

verus! {

/// What was found out about one directory entry.
pub struct FileFacts {
    pub path: String,
    /// The entry is a regular file.
    pub is_file: bool,
    /// Its size, when its metadata could be read.
    pub size: Option<u64>,
    /// The desktop entry named after the file exists (only consulted for
    /// executables, see `executable_desktop_path`).
    pub desktop_entry_exists: bool,
}

/// The part an entry plays in the storage figures.
#[derive(Clone, Copy, Debug, PartialEq, Eq, Structural)]
pub enum FileRole {
    /// An installed AppImage counted in the storage figures.
    InstalledAppImage,
    /// An installed executable counted in the storage figures.
    InstalledExecutable,
    /// An icon that belongs to no installed application.
    OrphanedIcon,
    /// A desktop entry that belongs to no installed application.
    OrphanedDesktop,
    /// A scratch file left behind by an installation.
    TempFile,
}

pub open spec fn stem_or_empty(path: Seq<char>) -> Seq<char> {
    match crate::path::file_stem(path) {
        Some(s) => s,
        None => Seq::empty(),
    }
}

/// The entry plays `role`, given the names of the installed applications.
pub open spec fn plays(role: FileRole, names: Seq<Seq<char>>, f: FileFacts) -> bool {
    match role {
        FileRole::InstalledAppImage => f.is_file && has_extension(f.path@, "AppImage"@, "appimage"@)
            && f.size is Some,
        FileRole::InstalledExecutable => f.is_file && f.desktop_entry_exists && f.size is Some,
        FileRole::OrphanedIcon => f.is_file && !names.contains(
            crate::text::replace_all(stem_or_empty(f.path@), "_icon"@, Seq::empty()),
        ),
        FileRole::OrphanedDesktop => f.is_file && crate::path::extension(f.path@) == Some("desktop"@)
            && !names.contains(stem_or_empty(f.path@)),
        FileRole::TempFile => f.is_file && crate::text::starts_with(file_name_or_empty(f.path@), "linuxy_"@),
    }
}

pub open spec fn size_of(f: FileFacts) -> nat {
    match f.size {
        Some(s) => s as nat,
        None => 0,
    }
}

/// How many entries play `role`, and their total size.
pub open spec fn tally(fs: Seq<FileFacts>, role: FileRole, names: Seq<Seq<char>>) -> (nat, nat)
    decreases fs.len(),
{
    if fs.len() == 0 {
        (0, 0)
    } else {
        let (c, b) = tally(fs.drop_last(), role, names);
        if plays(role, names, fs.last()) {
            (c + 1, b + size_of(fs.last()))
        } else {
            (c, b)
        }
    }
}

/// The paths of the entries that play `role`, in order.
pub open spec fn selected(fs: Seq<FileFacts>, role: FileRole, names: Seq<Seq<char>>) -> Seq<Seq<char>>
    decreases fs.len(),
{
    if fs.len() == 0 {
        seq![]
    } else if plays(role, names, fs.last()) {
        selected(fs.drop_last(), role, names).push(fs.last().path@)
    } else {
        selected(fs.drop_last(), role, names)
    }
}

/// Totals only grow along the entries.
pub proof fn lemma_tally_prefix(fs: Seq<FileFacts>, role: FileRole, names: Seq<Seq<char>>, i: int)
    requires
        0 <= i <= fs.len(),
    ensures
        tally(fs.take(i), role, names).0 <= tally(fs, role, names).0,
        tally(fs.take(i), role, names).1 <= tally(fs, role, names).1,
        tally(fs, role, names).0 <= fs.len(),
    decreases fs.len(),
{
    if fs.len() > 0 {
        if i == fs.len() {
            assert(fs.take(i) =~= fs);
            lemma_tally_prefix(fs.drop_last(), role, names, i - 1);
        } else {
            assert(fs.drop_last().take(i) =~= fs.take(i));
            lemma_tally_prefix(fs.drop_last(), role, names, i);
        }
    }
}

/// Whether `x` is one of `names`.
fn contains_name(names: &Vec<Vec<char>>, x: &Vec<char>) -> (r: bool)
    ensures
        r == names.deep_view().contains(x@),
{
    let n = names.len();
    let ghost dv = names.deep_view();
    for i in 0..n
        invariant
            n == names.len(),
            dv == names.deep_view(),
            forall|j: int| 0 <= j < i ==> dv[j] != x@,
    {
        proof { crate::text::lemma_chars_deep_view(&names[i as int]); }
        if crate::text::equals_exec(&names[i], x) {
            assert(dv[i as int] == x@);
            return true;
        }
    }
    false
}

fn stem_or_empty_exec(path: &str) -> (r: Vec<char>)
    ensures
        r@ == stem_or_empty(path@),
{
    match crate::path::file_stem_exec(&to_chars(path)) {
        Some(s) => s,
        None => Vec::new(),
    }
}

/// Whether an entry plays `role`.
pub fn plays_exec(role: FileRole, names: &Vec<Vec<char>>, f: &FileFacts) -> (r: bool)
    ensures
        r == plays(role, names.deep_view(), *f),
{
    proof {
        reveal_strlit("_icon");
        reveal_strlit("");
        assert(""@ =~= Seq::<char>::empty());
    }
    match role {
        FileRole::InstalledAppImage => f.is_file && crate::installer::is_appimage_path(f.path.as_str())
            && f.size.is_some(),
        FileRole::InstalledExecutable => f.is_file && f.desktop_entry_exists && f.size.is_some(),
        FileRole::OrphanedIcon => {
            if !f.is_file {
                return false;
            }
            let base = crate::text::replace_str(&stem_or_empty_exec(f.path.as_str()), "_icon", "");
            !contains_name(names, &base)
        },
        FileRole::OrphanedDesktop => {
            if !f.is_file {
                return false;
            }
            let is_desktop = match crate::path::extension_exec(&to_chars(f.path.as_str())) {
                Some(e) => crate::text::equals_str(&e, "desktop"),
                None => false,
            };
            is_desktop && !contains_name(names, &stem_or_empty_exec(f.path.as_str()))
        },
        FileRole::TempFile => f.is_file && crate::text::starts_with_str(
            &file_name_or_empty_exec(f.path.as_str()),
            "linuxy_",
        ),
    }
}

/// Counts the entries that play `role` and adds up their sizes; `None` when
/// the size total does not fit in 64 bits.
pub fn tally_exec(fs: &Vec<FileFacts>, role: FileRole, names: &Vec<Vec<char>>) -> (r: Option<(u64, u64)>)
    ensures
        match r {
            Some((c, b)) => c == tally(fs@, role, names.deep_view()).0 && b == tally(fs@, role, names.deep_view()).1,
            None => tally(fs@, role, names.deep_view()).1 > u64::MAX,
        },
{
    let ghost nv = names.deep_view();
    let n = fs.len();
    let mut c: u64 = 0;
    let mut b: u64 = 0;
    assert(fs@.take(0) =~= Seq::<FileFacts>::empty());
    for i in 0..n
        invariant
            n == fs.len(),
            nv == names.deep_view(),
            c == tally(fs@.take(i as int), role, nv).0,
            b == tally(fs@.take(i as int), role, nv).1,
            c <= i,
    {
        assert(fs@.take(i + 1).drop_last() =~= fs@.take(i as int));
        assert(fs@.take(i + 1).last() == fs@[i as int]);
        if plays_exec(role, names, &fs[i]) {
            let s: u64 = match fs[i].size {
                Some(s) => s,
                None => 0,
            };
            match b.checked_add(s) {
                Some(nb) => {
                    b = nb;
                },
                None => {
                    proof { lemma_tally_prefix(fs@, role, nv, i + 1); }
                    return None;
                },
            }
            c = c + 1;
        }
    }
    assert(fs@.take(n as int) =~= fs@);
    Some((c, b))
}

/// The paths of the entries that play `role`.
pub fn select_exec(fs: &Vec<FileFacts>, role: FileRole, names: &Vec<Vec<char>>) -> (r: Vec<String>)
    ensures
        str_seq(r) == selected(fs@, role, names.deep_view()),
{
    let ghost nv = names.deep_view();
    let n = fs.len();
    let mut r: Vec<String> = Vec::new();
    assert(fs@.take(0) =~= Seq::<FileFacts>::empty());
    assert(str_seq(r) =~= Seq::<Seq<char>>::empty());
    for i in 0..n
        invariant
            n == fs.len(),
            nv == names.deep_view(),
            str_seq(r) == selected(fs@.take(i as int), role, nv),
    {
        assert(fs@.take(i + 1).drop_last() =~= fs@.take(i as int));
        assert(fs@.take(i + 1).last() == fs@[i as int]);
        if plays_exec(role, names, &fs[i]) {
            let ghost before = r@;
            r.push(string_of(fs[i].path.as_str()));
            assert(str_seq(r) =~= str_seq_of(before).push(fs@[i as int].path@));
        }
    }
    assert(fs@.take(n as int) =~= fs@);
    r
}

pub open spec fn str_seq_of(v: Seq<String>) -> Seq<Seq<char>> {
    v.map_values(|s: String| s@)
}

/// A tally counts exactly the entries it selects.
pub proof fn lemma_tally_counts_selected(fs: Seq<FileFacts>, role: FileRole, names: Seq<Seq<char>>)
    ensures
        tally(fs, role, names).0 == selected(fs, role, names).len(),
    decreases fs.len(),
{
    if fs.len() > 0 {
        lemma_tally_counts_selected(fs.drop_last(), role, names);
    }
}

} // verus!

verus! {

/// The storage dashboard: bytes taken by installed applications and how
/// many there are.
#[derive(Clone, Copy, Debug)]
pub struct StorageStats {
    pub total_size_bytes: u64,
    pub app_count: u32,
}

/// What the dashboard counts: installed AppImages, and installed
/// executables that have a desktop entry, whose size could be read.
pub open spec fn storage_totals(appimages: Seq<FileFacts>, executables: Seq<FileFacts>) -> (nat, nat) {
    let a = tally(appimages, FileRole::InstalledAppImage, seq![]);
    let e = tally(executables, FileRole::InstalledExecutable, seq![]);
    (a.0 + e.0, a.1 + e.1)
}

/// The dashboard figures for the entries of the AppImage directory and of
/// the executables directory; `None` when a total overflows its counter.
pub fn storage_stats(appimages: &Vec<FileFacts>, executables: &Vec<FileFacts>) -> (r: Option<StorageStats>)
    ensures
        match r {
            Some(s) => s.app_count == storage_totals(appimages@, executables@).0
                && s.total_size_bytes == storage_totals(appimages@, executables@).1,
            None => storage_totals(appimages@, executables@).0 > u32::MAX
                || storage_totals(appimages@, executables@).1 > u64::MAX,
        },
{
    let no_names: Vec<Vec<char>> = Vec::new();
    assert(no_names.deep_view() =~= Seq::<Seq<char>>::empty());
    let (ac, ab) = match tally_exec(appimages, FileRole::InstalledAppImage, &no_names) {
        Some(t) => t,
        None => return None,
    };
    let (ec, eb) = match tally_exec(executables, FileRole::InstalledExecutable, &no_names) {
        Some(t) => t,
        None => return None,
    };
    let bytes = match ab.checked_add(eb) {
        Some(x) => x,
        None => return None,
    };
    if ac > 0xffff_ffff || ec > 0xffff_ffff || ac + ec > 0xffff_ffff {
        return None;
    }
    Some(StorageStats { total_size_bytes: bytes, app_count: (ac + ec) as u32 })
}

/// What a cleanup can reclaim.
#[derive(Clone, Copy, Debug)]
pub struct CleanupStats {
    pub orphaned_icons: u32,
    pub orphaned_desktops: u32,
    pub temp_files: u32,
    pub reclaimable_bytes: u64,
}

/// The names of the installed applications: the stems of the files in the
/// AppImage directory and the names of the files in the executables
/// directory.
pub open spec fn library_names(appimages: Seq<FileFacts>, executables: Seq<FileFacts>) -> Seq<Seq<char>> {
    stems_of_files(appimages) + names_of_files(executables)
}

pub open spec fn stems_of_files(fs: Seq<FileFacts>) -> Seq<Seq<char>>
    decreases fs.len(),
{
    if fs.len() == 0 {
        seq![]
    } else if fs.last().is_file {
        stems_of_files(fs.drop_last()).push(stem_or_empty(fs.last().path@))
    } else {
        stems_of_files(fs.drop_last())
    }
}

pub open spec fn names_of_files(fs: Seq<FileFacts>) -> Seq<Seq<char>>
    decreases fs.len(),
{
    if fs.len() == 0 {
        seq![]
    } else if fs.last().is_file {
        names_of_files(fs.drop_last()).push(file_name_or_empty(fs.last().path@))
    } else {
        names_of_files(fs.drop_last())
    }
}

/// The names of the installed applications.
pub fn library_names_exec(appimages: &Vec<FileFacts>, executables: &Vec<FileFacts>) -> (r: Vec<Vec<char>>)
    ensures
        r.deep_view() == library_names(appimages@, executables@),
{
    let mut r: Vec<Vec<char>> = Vec::new();
    let n = appimages.len();
    assert(appimages@.take(0) =~= Seq::<FileFacts>::empty());
    assert(r.deep_view() =~= Seq::<Seq<char>>::empty());
    for i in 0..n
        invariant
            n == appimages.len(),
            r.deep_view() == stems_of_files(appimages@.take(i as int)),
    {
        assert(appimages@.take(i + 1).drop_last() =~= appimages@.take(i as int));
        assert(appimages@.take(i + 1).last() == appimages@[i as int]);
        if appimages[i].is_file {
            let s = stem_or_empty_exec(appimages[i].path.as_str());
            let ghost before = r@;
            r.push(s);
            proof { crate::text::lemma_push_deep_view(before, &r, &s); }
        }
    }
    assert(appimages@.take(n as int) =~= appimages@);
    let ghost stems = r.deep_view();
    let m = executables.len();
    assert(executables@.take(0) =~= Seq::<FileFacts>::empty());
    assert(r.deep_view() =~= stems + names_of_files(executables@.take(0)));
    for i in 0..m
        invariant
            m == executables.len(),
            r.deep_view() == stems + names_of_files(executables@.take(i as int)),
    {
        assert(executables@.take(i + 1).drop_last() =~= executables@.take(i as int));
        assert(executables@.take(i + 1).last() == executables@[i as int]);
        if executables[i].is_file {
            let s = file_name_or_empty_exec(executables[i].path.as_str());
            let ghost before = r@;
            r.push(s);
            proof { crate::text::lemma_push_deep_view(before, &r, &s); }
            assert(r.deep_view() =~= stems + names_of_files(executables@.take(i + 1)));
        }
    }
    assert(executables@.take(m as int) =~= executables@);
    r
}

/// The cleanup figures: orphaned icons, orphaned desktop entries and
/// leftover scratch files, and the bytes they take.
pub open spec fn cleanup_totals(names: Seq<Seq<char>>, icons: Seq<FileFacts>, desktops: Seq<FileFacts>, temps: Seq<FileFacts>) -> (nat, nat, nat, nat) {
    let i = tally(icons, FileRole::OrphanedIcon, names);
    let d = tally(desktops, FileRole::OrphanedDesktop, names);
    let t = tally(temps, FileRole::TempFile, names);
    (i.0, d.0, t.0, i.1 + d.1 + t.1)
}

/// What a cleanup would reclaim, given the installed names and the entries
/// of the icon, desktop-entry and scratch directories; `None` when a figure
/// overflows its counter.
pub fn analyze_storage(names: &Vec<Vec<char>>, icons: &Vec<FileFacts>, desktops: &Vec<FileFacts>, temps: &Vec<FileFacts>) -> (r: Option<CleanupStats>)
    ensures
        ({
            let t = cleanup_totals(names.deep_view(), icons@, desktops@, temps@);
            match r {
                Some(s) => s.orphaned_icons == t.0 && s.orphaned_desktops == t.1 && s.temp_files == t.2
                    && s.reclaimable_bytes == t.3,
                None => t.0 > u32::MAX || t.1 > u32::MAX || t.2 > u32::MAX || t.3 > u64::MAX,
            }
        }),
{
    let (ic, ib) = match tally_exec(icons, FileRole::OrphanedIcon, names) {
        Some(t) => t,
        None => return None,
    };
    let (dc, db) = match tally_exec(desktops, FileRole::OrphanedDesktop, names) {
        Some(t) => t,
        None => return None,
    };
    let (tc, tb) = match tally_exec(temps, FileRole::TempFile, names) {
        Some(t) => t,
        None => return None,
    };
    if ic > 0xffff_ffff || dc > 0xffff_ffff || tc > 0xffff_ffff {
        return None;
    }
    let b1 = match ib.checked_add(db) {
        Some(x) => x,
        None => return None,
    };
    let b2 = match b1.checked_add(tb) {
        Some(x) => x,
        None => return None,
    };
    Some(CleanupStats {
        orphaned_icons: ic as u32,
        orphaned_desktops: dc as u32,
        temp_files: tc as u32,
        reclaimable_bytes: b2,
    })
}

/// The files a cleanup deletes: the orphaned icons, then the orphaned
/// desktop entries, then the scratch files.
pub open spec fn cleanup_paths(names: Seq<Seq<char>>, icons: Seq<FileFacts>, desktops: Seq<FileFacts>, temps: Seq<FileFacts>) -> Seq<Seq<char>> {
    selected(icons, FileRole::OrphanedIcon, names) + selected(desktops, FileRole::OrphanedDesktop, names)
        + selected(temps, FileRole::TempFile, names)
}

pub fn cleanup_targets(names: &Vec<Vec<char>>, icons: &Vec<FileFacts>, desktops: &Vec<FileFacts>, temps: &Vec<FileFacts>) -> (r: Vec<String>)
    ensures
        str_seq(r) == cleanup_paths(names.deep_view(), icons@, desktops@, temps@),
{
    let mut r = select_exec(icons, FileRole::OrphanedIcon, names);
    let mut d = select_exec(desktops, FileRole::OrphanedDesktop, names);
    let mut t = select_exec(temps, FileRole::TempFile, names);
    let ghost (a0, d0, t0) = (r@, d@, t@);
    r.append(&mut d);
    r.append(&mut t);
    assert(str_seq(r) =~= str_seq_of(a0) + str_seq_of(d0) + str_seq_of(t0));
    r
}

/// Law: a cleanup deletes exactly as many files as the analysis reports,
/// kind by kind, so the figures shown before a cleanup describe it.
pub proof fn law_cleanup_matches_analysis(
    names: Seq<Seq<char>>,
    icons: Seq<FileFacts>,
    desktops: Seq<FileFacts>,
    temps: Seq<FileFacts>,
)
    ensures
        ({
            let t = cleanup_totals(names, icons, desktops, temps);
            &&& selected(icons, FileRole::OrphanedIcon, names).len() == t.0
            &&& selected(desktops, FileRole::OrphanedDesktop, names).len() == t.1
            &&& selected(temps, FileRole::TempFile, names).len() == t.2
            &&& cleanup_paths(names, icons, desktops, temps).len() == t.0 + t.1 + t.2
        }),
{
    lemma_tally_counts_selected(icons, FileRole::OrphanedIcon, names);
    lemma_tally_counts_selected(desktops, FileRole::OrphanedDesktop, names);
    lemma_tally_counts_selected(temps, FileRole::TempFile, names);
}

/// A library backup.
#[derive(Clone, Debug)]
pub struct LibraryBackup {
    pub version: String,
    pub exported_at: u64,
    pub apps: Vec<AppInfo>,
}

impl LibraryBackup {
    /// A backup of `apps` taken at `exported_at` (seconds since the epoch),
    /// in format version 2.0.
    pub fn new(apps: Vec<AppInfo>, exported_at: u64) -> (r: LibraryBackup)
        ensures
            r.version@ == "2.0"@,
            r.exported_at == exported_at,
            r.apps@ == apps@,
    {
        LibraryBackup { version: string_of("2.0"), exported_at, apps }
    }
}

impl AppInfo {
    /// The desktop entry written back when this application is restored from
    /// a backup.
    pub fn restored_entry(&self) -> (r: String)
        ensures
            r@ == crate::desktop::backup_entry(
                self.name@,
                self.executable@,
                match self.icon {
                    Some(i) => i@,
                    None => Seq::empty(),
                },
                self.categories@.map_values(|c: String| c@),
                self.sandboxed,
            ),
    {
        let icon = match &self.icon {
            Some(i) => string_of(i.as_str()),
            None => String::new(),
        };
        crate::desktop::backup_desktop_entry(
            self.name.as_str(),
            self.executable.as_str(),
            icon.as_str(),
            &self.categories,
            self.sandboxed,
        )
    }
}

/// The message after a restore.
pub fn restored_message(count: u64) -> (r: String)
    ensures
        r@ == "Restored "@ + crate::text::decimal(count as nat) + " apps from backup"@,
{
    let mut out = to_chars("Restored ");
    crate::text::push_all(&mut out, &crate::text::decimal_exec(count));
    push_str(&mut out, " apps from backup");
    from_chars(&out)
}

/// The message after an export to `backup_path`.
pub fn exported_message(backup_path: &str) -> (r: String)
    ensures
        r@ == "Library exported to "@ + backup_path@,
{
    crate::text::concat2("Library exported to ", backup_path)
}

} // verus!

verus! {

/// Law: what an AppImage's installation writes is what its removal and the
/// listing look for. The AppImage from `source` is installed as its file name
/// in the AppImage directory; the listing recognises that copy as an
/// AppImage; from its path, the listing and a removal (with
/// no entry given) find the desktop entry the installation wrote, and a
/// removal deletes the icon the installation copied, whether it came from a
/// named candidate (`.png`, `.svg` or no extension) or from the fallback
/// search, whatever `Icon=` the entry holds.
pub proof fn law_removal_finds_installed_files(
    source: Seq<char>,
    appimages_dir: Seq<char>,
    apps_dir: Seq<char>,
    icons_dir: Seq<char>,
    icon_source: Seq<char>,
    fallback_entry: Seq<char>,
    entry_icon: Option<Seq<char>>,
)
    requires
        file_name(source) is Some,
    ensures
        ({
            let f = file_name(source)->Some_0;
            let base = base_name_of(f);
            let installed = join(appimages_dir, f);
            &&& app_base(installed) == base
            &&& has_extension(source, "AppImage"@, "appimage"@) ==> has_extension(installed, "AppImage"@, "appimage"@)
            &&& appimage_entry_path(apps_dir, installed) == crate::installer::desktop_entry_path(apps_dir, base)
            &&& removal_entry(installed, None, apps_dir) == crate::installer::desktop_entry_path(apps_dir, base)
            &&& (crate::path::extension(icon_source) is None || crate::path::extension(icon_source) == Some(""@)
                || crate::path::extension(icon_source) == Some("png"@) || crate::path::extension(icon_source) == Some("svg"@))
                ==> removal_icons(entry_icon, app_base(installed), icons_dir).contains(
                crate::installer::icon_destination(icons_dir, base, icon_source),
            )
            &&& crate::installer::fallback_icon_destination(icons_dir, base, fallback_entry) matches Some(p)
                ==> removal_icons(entry_icon, app_base(installed), icons_dir).contains(p)
        }),
{
    let f = file_name(source)->Some_0;
    let base = base_name_of(f);
    crate::path::lemma_file_name_is_plain(source);
    crate::path::lemma_file_name_of_join(appimages_dir, f);
    let installed = join(appimages_dir, f);
    assert(file_name_or_empty(installed) == f);
    reveal_strlit("_icon.");
    reveal_strlit("png");
    reveal_strlit("svg");
    reveal_strlit("_icon.png");
    reveal_strlit("_icon.svg");
    reveal_strlit("");
    assert("_icon."@ + "png"@ =~= "_icon.png"@);
    assert("_icon."@ + "svg"@ =~= "_icon.svg"@);
    let own = seq![
        join(icons_dir, base + "_icon.png"@),
        join(icons_dir, base + "_icon.svg"@),
        join(icons_dir, base + "_icon.xpm"@),
    ];
    let all = removal_icons(entry_icon, base, icons_dir);
    assert(base + "_icon."@ + "png"@ =~= base + "_icon.png"@);
    assert(base + "_icon."@ + "svg"@ =~= base + "_icon.svg"@);
    assert(all.contains(own[0])) by {
        assert(all[all.len() - 3] == own[0]);
    }
    assert(all.contains(own[1])) by {
        assert(all[all.len() - 2] == own[1]);
    }
}

} // verus!

verus! {

/// Law: once the sandbox of an application's entry is switched on, its next
/// launch (with Firejail installed) goes through Firejail, provided the
/// entry has an `Exec=` line at all; the launch reads the entry's state the
/// way `uses_firejail` does.
pub proof fn law_enabled_app_launches_in_firejail(
    content: Seq<char>,
    path: Seq<char>,
    launch: Result<LaunchCommand, String>,
)
    requires
        crate::desktop::has_exec_line(crate::text::lines(content)),
        launch_ok(
            launch,
            path,
            crate::desktop::launches_sandboxed(crate::text::lines(crate::desktop::toggled_entry(content, true))),
            true,
        ),
    ensures
        launch is Ok,
        launch->Ok_0.program@ == "firejail"@,
        str_seq(launch->Ok_0.args).last() == path,
{
    crate::desktop::law_enabling_sandbox_sandboxes(content);
}

/// Law: once the sandbox of an application's entry is switched on and then
/// off again, its next launch runs the program itself, without Firejail and
/// without arguments, for entries whose launchers did not mention Firejail
/// to begin with (see `law_disabling_after_enabling_unsandboxes`).
pub proof fn law_disabled_app_launches_directly(
    content: Seq<char>,
    path: Seq<char>,
    firejail_installed: bool,
    launch: Result<LaunchCommand, String>,
)
    requires
        forall|i: int|
            0 <= i < crate::text::lines(content).len() && crate::text::starts_with(
                #[trigger] crate::text::lines(content)[i],
                "Exec="@,
            ) ==> crate::desktop::plain_launcher(crate::text::lines(content)[i]),
        launch_ok(
            launch,
            path,
            crate::desktop::launches_sandboxed(
                crate::text::lines(
                    crate::desktop::toggled_entry(crate::desktop::toggled_entry(content, true), false),
                ),
            ),
            firejail_installed,
        ),
    ensures
        launch is Ok,
        launch->Ok_0.program@ == path,
        str_seq(launch->Ok_0.args).len() == 0,
{
    crate::desktop::law_disabling_after_enabling_unsandboxes(content);
}

} // verus!

verus! {

/// The position of the first application whose `pick` text is `name`.
pub open spec fn first_with(texts: Seq<Seq<char>>, name: Seq<char>) -> Option<int>
    decreases texts.len(),
{
    if texts.len() == 0 {
        None
    } else if texts[0] == name {
        Some(0)
    } else {
        match first_with(texts.drop_first(), name) {
            Some(i) => Some(i + 1),
            None => None,
        }
    }
}

/// The application an `AppName` on the command line means: the first one
/// listed under that name, or else the first whose file has that base name.
pub open spec fn app_named(apps: Seq<AppInfo>, name: Seq<char>) -> Option<int> {
    match first_with(apps.map_values(|a: AppInfo| a.name@), name) {
        Some(i) => Some(i),
        None => first_with(apps.map_values(|a: AppInfo| app_base(a.path@)), name),
    }
}

/// What `first_with` returns is the position of the first match.
pub proof fn lemma_first_with(texts: Seq<Seq<char>>, name: Seq<char>)
    ensures
        match first_with(texts, name) {
            Some(i) => 0 <= i < texts.len() && texts[i] == name && forall|j: int| 0 <= j < i ==> texts[j] != name,
            None => forall|j: int| 0 <= j < texts.len() ==> texts[j] != name,
        },
    decreases texts.len(),
{
    if texts.len() > 0 && texts[0] != name {
        lemma_first_with(texts.drop_first(), name);
        assert forall|j: int| 1 <= j < texts.len() implies texts[j] == texts.drop_first()[j - 1] by {}
    }
}

fn first_with_exec(texts: &Vec<Vec<char>>, name: &str) -> (r: Option<usize>)
    ensures
        match r {
            Some(i) => first_with(texts.deep_view(), name@) == Some(i as int),
            None => first_with(texts.deep_view(), name@) is None,
        },
{
    let ghost dv = texts.deep_view();
    proof { lemma_first_with(dv, name@); }
    let n = texts.len();
    for i in 0..n
        invariant
            n == texts.len(),
            dv == texts.deep_view(),
            forall|j: int| 0 <= j < i ==> dv[j] != name@,
            match first_with(dv, name@) {
                Some(k) => 0 <= k < dv.len() && dv[k] == name@ && forall|j: int| 0 <= j < k ==> dv[j] != name@,
                None => forall|j: int| 0 <= j < dv.len() ==> dv[j] != name@,
            },
    {
        proof { crate::text::lemma_chars_deep_view(&texts[i as int]); }
        assert(dv[i as int] == texts@[i as int]@);
        if crate::text::equals_str(&texts[i], name) {
            return Some(i);
        }
    }
    None
}

/// Finds the installed application a command-line `name` refers to.
pub fn find_app(apps: &Vec<AppInfo>, name: &str) -> (r: Option<usize>)
    ensures
        match r {
            Some(i) => app_named(apps@, name@) == Some(i as int),
            None => app_named(apps@, name@) is None,
        },
{
    let mut names: Vec<Vec<char>> = Vec::new();
    let mut bases: Vec<Vec<char>> = Vec::new();
    let n = apps.len();
    for i in 0..n
        invariant
            n == apps.len(),
            names.deep_view() =~= apps@.map_values(|a: AppInfo| a.name@).take(i as int),
            bases.deep_view() =~= apps@.map_values(|a: AppInfo| app_base(a.path@)).take(i as int),
    {
        let x = to_chars(apps[i].name.as_str());
        let b = to_chars(app_base_name_of_path(apps[i].path.as_str()).as_str());
        let ghost (n0, b0) = (names@, bases@);
        names.push(x);
        bases.push(b);
        proof {
            crate::text::lemma_push_deep_view(n0, &names, &x);
            crate::text::lemma_push_deep_view(b0, &bases, &b);
        }
    }
    assert(apps@.map_values(|a: AppInfo| a.name@).take(n as int) =~= apps@.map_values(|a: AppInfo| a.name@));
    assert(apps@.map_values(|a: AppInfo| app_base(a.path@)).take(n as int) =~= apps@.map_values(
        |a: AppInfo| app_base(a.path@),
    ));
    match first_with_exec(&names, name) {
        Some(i) => Some(i),
        None => first_with_exec(&bases, name),
    }
}

/// The message when no installed application has the given name.
pub fn unknown_app_message(name: &str) -> (r: String)
    ensures
        r@ == "No installed app named '"@ + name@ + "'"@,
{
    crate::text::concat3("No installed app named '", name, "'")
}

} // verus!

verus! {

/// The entries of a listing whose paths are not among `gone`: the listing
/// after those files were deleted.
pub open spec fn without_paths(fs: Seq<FileFacts>, gone: Seq<Seq<char>>) -> Seq<FileFacts>
    decreases fs.len(),
{
    if fs.len() == 0 {
        seq![]
    } else if gone.contains(fs.last().path@) {
        without_paths(fs.drop_last(), gone)
    } else {
        without_paths(fs.drop_last(), gone).push(fs.last())
    }
}

/// Every entry that plays a role is selected for it.
proof fn lemma_selected_covers(fs: Seq<FileFacts>, role: FileRole, names: Seq<Seq<char>>, k: int)
    requires
        0 <= k < fs.len(),
        plays(role, names, fs[k]),
    ensures
        selected(fs, role, names).contains(fs[k].path@),
    decreases fs.len(),
{
    let sel = selected(fs, role, names);
    if k == fs.len() - 1 {
        assert(sel.last() == fs[k].path@);
        assert(sel[sel.len() - 1] == fs[k].path@);
    } else {
        assert(fs.drop_last()[k] == fs[k]);
        lemma_selected_covers(fs.drop_last(), role, names, k);
        let prev = selected(fs.drop_last(), role, names);
        let j = choose|j: int| 0 <= j < prev.len() && prev[j] == fs[k].path@;
        if plays(role, names, fs.last()) {
            assert(sel[j] == prev[j]);
        }
    }
}

/// Once every entry that plays a role is deleted, none is left to count.
proof fn lemma_nothing_left(fs: Seq<FileFacts>, role: FileRole, names: Seq<Seq<char>>, gone: Seq<Seq<char>>)
    requires
        forall|k: int| 0 <= k < fs.len() && plays(role, names, #[trigger] fs[k]) ==> gone.contains(fs[k].path@),
    ensures
        tally(without_paths(fs, gone), role, names) == (0nat, 0nat),
    decreases fs.len(),
{
    if fs.len() > 0 {
        let init = fs.drop_last();
        assert forall|k: int| 0 <= k < init.len() && plays(role, names, #[trigger] init[k]) implies gone.contains(
            init[k].path@,
        ) by {
            assert(init[k] == fs[k]);
        }
        lemma_nothing_left(init, role, names, gone);
        let rest = without_paths(init, gone);
        if !gone.contains(fs.last().path@) {
            let w = rest.push(fs.last());
            assert(w.drop_last() =~= rest);
            assert(!plays(role, names, fs[fs.len() - 1]));
        }
    }
}

proof fn lemma_selected_in_cleanup(
    fs: Seq<FileFacts>,
    role: FileRole,
    names: Seq<Seq<char>>,
    gone: Seq<Seq<char>>,
    before: Seq<Seq<char>>,
    after: Seq<Seq<char>>,
)
    requires
        gone == before + selected(fs, role, names) + after,
    ensures
        forall|k: int| 0 <= k < fs.len() && plays(role, names, #[trigger] fs[k]) ==> gone.contains(fs[k].path@),
{
    assert forall|k: int| 0 <= k < fs.len() && plays(role, names, #[trigger] fs[k]) implies gone.contains(
        fs[k].path@,
    ) by {
        lemma_selected_covers(fs, role, names, k);
        let sel = selected(fs, role, names);
        let j = choose|j: int| 0 <= j < sel.len() && sel[j] == fs[k].path@;
        assert(gone[before.len() + j] == sel[j]);
    }
}

/// Law: a cleanup leaves nothing to clean: once the files it deletes are
/// gone from the icon, desktop-entry and scratch listings (the installed
/// applications being untouched), the analysis of what remains reports no
/// orphaned icon, no orphaned entry, no scratch file and no reclaimable
/// byte.
pub proof fn law_cleanup_leaves_nothing(
    names: Seq<Seq<char>>,
    icons: Seq<FileFacts>,
    desktops: Seq<FileFacts>,
    temps: Seq<FileFacts>,
)
    ensures
        ({
            let gone = cleanup_paths(names, icons, desktops, temps);
            cleanup_totals(
                names,
                without_paths(icons, gone),
                without_paths(desktops, gone),
                without_paths(temps, gone),
            ) == (0nat, 0nat, 0nat, 0nat)
        }),
{
    let gone = cleanup_paths(names, icons, desktops, temps);
    let si = selected(icons, FileRole::OrphanedIcon, names);
    let sd = selected(desktops, FileRole::OrphanedDesktop, names);
    let st = selected(temps, FileRole::TempFile, names);
    let e = Seq::<Seq<char>>::empty();
    assert(gone =~= e + si + (sd + st));
    lemma_selected_in_cleanup(icons, FileRole::OrphanedIcon, names, gone, e, sd + st);
    assert(gone =~= si + sd + st);
    lemma_selected_in_cleanup(desktops, FileRole::OrphanedDesktop, names, gone, si, st);
    assert(gone =~= (si + sd) + st + e);
    lemma_selected_in_cleanup(temps, FileRole::TempFile, names, gone, si + sd, e);
    lemma_nothing_left(icons, FileRole::OrphanedIcon, names, gone);
    lemma_nothing_left(desktops, FileRole::OrphanedDesktop, names, gone);
    lemma_nothing_left(temps, FileRole::TempFile, names, gone);
}

} // verus!

verus! {

/// An entry the library lists: a file with an AppImage extension in the
/// AppImage directory, or (for `executables`) a file with a desktop entry in
/// the executables directory.
pub open spec fn listed(executables: bool, f: FileFacts) -> bool {
    f.is_file && if executables {
        f.desktop_entry_exists
    } else {
        has_extension(f.path@, "AppImage"@, "appimage"@)
    }
}

/// The listed entries of a directory, in listing order.
pub open spec fn listed_in(fs: Seq<FileFacts>, executables: bool) -> Seq<FileFacts>
    decreases fs.len(),
{
    if fs.len() == 0 {
        seq![]
    } else if listed(executables, fs.last()) {
        listed_in(fs.drop_last(), executables).push(fs.last())
    } else {
        listed_in(fs.drop_last(), executables)
    }
}

/// The sizes of entries, added up.
pub open spec fn total_size(fs: Seq<FileFacts>) -> nat
    decreases fs.len(),
{
    if fs.len() == 0 {
        0
    } else {
        total_size(fs.drop_last()) + size_of(fs.last())
    }
}

/// The positions of the listed entries of a directory, in order.
pub fn listed_entries(fs: &Vec<FileFacts>, executables: bool) -> (r: Vec<usize>)
    ensures
        r.len() == listed_in(fs@, executables).len(),
        forall|j: int| 0 <= j < r.len() ==> r[j] < fs.len() && fs@[r[j] as int] == listed_in(fs@, executables)[j],
{
    let mut r: Vec<usize> = Vec::new();
    let n = fs.len();
    let mut i: usize = 0;
    while i < n
        invariant
            n == fs.len(),
            i <= n,
            r.len() == listed_in(fs@.take(i as int), executables).len(),
            forall|j: int|
                #![trigger r@[j]]
                0 <= j < r.len() ==> r@[j] < i && fs@[r@[j] as int] == listed_in(fs@.take(i as int), executables)[j],
        decreases n - i,
    {
        let f = &fs[i];
        let is_listed = f.is_file && if executables {
            f.desktop_entry_exists
        } else {
            crate::installer::is_appimage_path(f.path.as_str())
        };
        let ghost before = r@;
        let ghost prev = listed_in(fs@.take(i as int), executables);
        assert(fs@.take(i + 1).drop_last() =~= fs@.take(i as int));
        assert(fs@.take(i + 1).last() == fs@[i as int]);
        assert(is_listed == listed(executables, fs@[i as int]));
        if is_listed {
            r.push(i);
            assert(listed_in(fs@.take(i + 1), executables) == prev.push(fs@[i as int]));
            assert forall|j: int| 0 <= j < r.len() implies r@[j] < i + 1 && fs@[r@[j] as int] == listed_in(
                fs@.take(i + 1),
                executables,
            )[j] by {
                if j < before.len() {
                    assert(r@[j] == before[j]);
                    assert(before[j] < i && fs@[before[j] as int] == prev[j]);
                    assert(prev.push(fs@[i as int])[j] == prev[j]);
                } else {
                    assert(r@[j] == i);
                    assert(prev.push(fs@[i as int])[j] == fs@[i as int]);
                }
            }
        } else {
            assert(listed_in(fs@.take(i + 1), executables) == prev);
        }
        i = i + 1;
    }
    assert(fs@.take(n as int) =~= fs@);
    assert forall|j: int| 0 <= j < r.len() implies r[j] < fs.len() && fs@[r[j] as int] == listed_in(fs@, executables)[j] by {
        assert(r@[j] < n);
    }
    r
}

proof fn lemma_tally_listed(fs: Seq<FileFacts>, executables: bool, names: Seq<Seq<char>>)
    requires
        forall|j: int| 0 <= j < listed_in(fs, executables).len() ==> (#[trigger] listed_in(fs, executables)[j]).size is Some,
    ensures
        tally(fs, if executables { FileRole::InstalledExecutable } else { FileRole::InstalledAppImage }, names) == (
            listed_in(fs, executables).len(),
            total_size(listed_in(fs, executables)),
        ),
    decreases fs.len(),
{
    if fs.len() > 0 {
        let l = listed_in(fs, executables);
        let l0 = listed_in(fs.drop_last(), executables);
        assert forall|j: int| 0 <= j < l0.len() implies (#[trigger] l0[j]).size is Some by {
            if listed(executables, fs.last()) {
                assert(l[j] == l0[j]);
            }
        }
        lemma_tally_listed(fs.drop_last(), executables, names);
        if listed(executables, fs.last()) {
            assert(l.last() == fs.last());
            assert(l[l.len() - 1].size is Some);
            assert(l.drop_last() =~= l0);
        }
    }
}

/// Law: the storage dashboard counts what the library lists: its application
/// count is the number of listed AppImages and executables, and its byte
/// total the sum of their sizes, whenever every listed entry's size could be
/// read (the listing fails otherwise).
pub proof fn law_storage_matches_listing(appimages: Seq<FileFacts>, executables: Seq<FileFacts>)
    requires
        forall|j: int| 0 <= j < listed_in(appimages, false).len() ==> (#[trigger] listed_in(appimages, false)[j]).size is Some,
        forall|j: int| 0 <= j < listed_in(executables, true).len() ==> (#[trigger] listed_in(executables, true)[j]).size is Some,
    ensures
        storage_totals(appimages, executables).0 == listed_in(appimages, false).len() + listed_in(executables, true).len(),
        storage_totals(appimages, executables).1 == total_size(listed_in(appimages, false)) + total_size(
            listed_in(executables, true),
        ),
{
    lemma_tally_listed(appimages, false, seq![]);
    lemma_tally_listed(executables, true, seq![]);
}

} // verus!

verus! {

/// The checks before an application is launched: its file must exist, and
/// its path must name a file.
pub fn launch_check(path: &str, exists: bool) -> (r: Result<(), String>)
    ensures
        !exists ==> crate::installer::fails_with(r, "App file does not exist"@),
        exists && file_name(path@) is None ==> crate::installer::fails_with(r, "Invalid app path"@),
        exists && file_name(path@) is Some ==> r is Ok,
{
    if !exists {
        return Err(string_of("App file does not exist"));
    }
    match file_name_exec(&to_chars(path)) {
        Some(_) => Ok(()),
        None => Err(string_of("Invalid app path")),
    }
}

} // verus!

verus! {

/// The categories of an application as texts.
pub open spec fn category_texts(a: AppInfo) -> Seq<Seq<char>> {
    a.categories@.map_values(|c: String| c@)
}

/// The icon an application's restored entry names (none gives an empty
/// `Icon=`).
pub open spec fn saved_icon(a: AppInfo) -> Seq<char> {
    match a.icon {
        Some(i) => i@,
        None => Seq::empty(),
    }
}

/// Law: an application exported to a backup and restored from it is listed
/// as it was saved: when the listing reads the restored entry of the saved
/// record `a` back, it shows `a`'s path, name, categories and sandbox state,
/// and the entry names `a`'s icon. This holds for records whose fields
/// `law_restored_entry_reads_back` admits.
pub proof fn law_restored_app_lists_as_saved(
    a: AppInfo,
    listed: AppInfo,
    size: u64,
    installed_at: u64,
    icon_path: Option<Seq<char>>,
)
    requires
        crate::desktop::one_value(a.name@),
        crate::desktop::one_value(a.executable@),
        crate::desktop::one_value(saved_icon(a)),
        forall|i: int| 0 <= i < category_texts(a).len() ==> #[trigger] category_texts(a)[i].len() > 0,
        forall|i: int, j: int|
            0 <= i < category_texts(a).len() && 0 <= j < category_texts(a)[i].len() ==> category_texts(a)[i][j]
                != ';' && category_texts(a)[i][j] != '\n',
        category_texts(a).len() > 0 ==> category_texts(a).last().last() != '\r',
        category_texts(a).len() > 0 ==> !crate::text::starts_with(category_texts(a)[0], "Categories="@),
        !crate::text::starts_with(a.name@, "Name="@),
        !crate::text::starts_with(saved_icon(a), "Icon="@),
        !a.sandboxed ==> !crate::text::contains(a.executable@, "firejail"@),
        appimage_info_ok(
            listed,
            a.path@,
            a.desktop_path@,
            size,
            installed_at,
            Some(
                (
                    crate::desktop::read_desktop(
                        crate::desktop::backup_entry(
                            a.name@,
                            a.executable@,
                            saved_icon(a),
                            category_texts(a),
                            a.sandboxed,
                        ),
                    ),
                    icon_path,
                ),
            ),
        ),
    ensures
        listed.path@ == a.path@,
        listed.desktop_path@ == a.desktop_path@,
        listed.name@ == a.name@,
        category_texts(listed) == category_texts(a),
        listed.sandboxed == a.sandboxed,
        crate::desktop::read_desktop(
            crate::desktop::backup_entry(a.name@, a.executable@, saved_icon(a), category_texts(a), a.sandboxed),
        ).icon == saved_icon(a),
{
    crate::desktop::law_restored_entry_reads_back(
        a.name@,
        a.executable@,
        saved_icon(a),
        category_texts(a),
        a.sandboxed,
    );
}

} // verus!

verus! {

/// Law: the storage figures and the cleanup count only regular files: an
/// entry that plays any part in them (an installed application, an orphaned
/// icon or desktop entry, a leftover scratch file) is a file, never a
/// directory.
pub proof fn law_roles_are_files(role: FileRole, names: Seq<Seq<char>>, f: FileFacts)
    ensures
        plays(role, names, f) ==> f.is_file,
{
}

/// Every selected path belongs to an entry that plays the role.
proof fn lemma_selected_from(fs: Seq<FileFacts>, role: FileRole, names: Seq<Seq<char>>, j: int) -> (k: int)
    requires
        0 <= j < selected(fs, role, names).len(),
    ensures
        0 <= k < fs.len(),
        fs[k].path@ == selected(fs, role, names)[j],
        plays(role, names, fs[k]),
    decreases fs.len(),
{
    let init = fs.drop_last();
    let prev = selected(init, role, names);
    if plays(role, names, fs.last()) && j == prev.len() {
        fs.len() - 1
    } else {
        let k = lemma_selected_from(init, role, names, j);
        assert(init[k] == fs[k]);
        k
    }
}

/// Law: a cleanup deletes only regular files: each path it deletes is that
/// of a file in the icon, desktop-entry or scratch listing, so a scratch
/// directory such as an installation's `linuxy_...` workspace is never
/// counted or deleted.
pub proof fn law_cleanup_deletes_only_files(
    names: Seq<Seq<char>>,
    icons: Seq<FileFacts>,
    desktops: Seq<FileFacts>,
    temps: Seq<FileFacts>,
)
    ensures
        forall|j: int|
            0 <= j < cleanup_paths(names, icons, desktops, temps).len() ==> {
                let p = #[trigger] cleanup_paths(names, icons, desktops, temps)[j];
                ||| exists|k: int| 0 <= k < icons.len() && icons[k].path@ == p && icons[k].is_file
                ||| exists|k: int| 0 <= k < desktops.len() && desktops[k].path@ == p && desktops[k].is_file
                ||| exists|k: int| 0 <= k < temps.len() && temps[k].path@ == p && temps[k].is_file
            },
{
    let si = selected(icons, FileRole::OrphanedIcon, names);
    let sd = selected(desktops, FileRole::OrphanedDesktop, names);
    let st = selected(temps, FileRole::TempFile, names);
    let gone = cleanup_paths(names, icons, desktops, temps);
    assert forall|j: int| 0 <= j < gone.len() implies {
        let p = #[trigger] gone[j];
        ||| exists|k: int| 0 <= k < icons.len() && icons[k].path@ == p && icons[k].is_file
        ||| exists|k: int| 0 <= k < desktops.len() && desktops[k].path@ == p && desktops[k].is_file
        ||| exists|k: int| 0 <= k < temps.len() && temps[k].path@ == p && temps[k].is_file
    } by {
        if j < si.len() {
            assert(gone[j] == si[j]);
            let k = lemma_selected_from(icons, FileRole::OrphanedIcon, names, j);
        } else if j < si.len() + sd.len() {
            assert(gone[j] == sd[j - si.len()]);
            let k = lemma_selected_from(desktops, FileRole::OrphanedDesktop, names, j - si.len());
        } else {
            assert(gone[j] == st[j - si.len() - sd.len()]);
            let k = lemma_selected_from(temps, FileRole::TempFile, names, j - si.len() - sd.len());
        }
    }
}

} // verus!
