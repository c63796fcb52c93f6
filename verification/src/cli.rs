//! Command-line handling: which installer a path argument selects, and the
//! table printed by the listing.
use vstd::prelude::*;
use crate::text::{ascii_lower, ends_with, ends_with_str, lower, to_chars};

verus! {

/// The ASCII-lower-cased argument ends with `suffix`.
pub open spec fn ends_with_ci(arg: Seq<char>, suffix: Seq<char>) -> bool {
    ends_with(ascii_lower(arg), suffix)
}

fn ends_with_ci_exec(arg: &str, suffix: &str) -> (r: bool)
    ensures
        r == ends_with_ci(arg@, suffix@),
{
    let l = lower(&to_chars(arg));
    ends_with_str(&l, suffix)
}

/// The argument names an AppImage: it ends in `.appimage`, in any ASCII case.
pub fn is_appimage_path(arg: &str) -> (r: bool)
    ensures
        r == ends_with_ci(arg@, ".appimage"@),
{
    ends_with_ci_exec(arg, ".appimage")
}

/// The argument names a Debian package: it ends in `.deb`, in any ASCII case.
pub fn is_deb_path(arg: &str) -> (r: bool)
    ensures
        r == ends_with_ci(arg@, ".deb"@),
{
    ends_with_ci_exec(arg, ".deb")
}

/// The argument names an RPM package: it ends in `.rpm`, in any ASCII case.
pub fn is_rpm_path(arg: &str) -> (r: bool)
    ensures
        r == ends_with_ci(arg@, ".rpm"@),
{
    ends_with_ci_exec(arg, ".rpm")
}

/// The argument names a Windows installer: it ends in `.exe` or `.msi`, in
/// any ASCII case.
pub fn is_exe_path(arg: &str) -> (r: bool)
    ensures
        r == (ends_with_ci(arg@, ".exe"@) || ends_with_ci(arg@, ".msi"@)),
{
    ends_with_ci_exec(arg, ".exe") || ends_with_ci_exec(arg, ".msi")
}

} // verus!

verus! {

/// The kinds of file the program installs.
#[derive(Clone, Copy, Debug, PartialEq, Eq, Structural)]
pub enum PackageKind {
    AppImage,
    Deb,
    Rpm,
    Executable,
}

/// What the program does with its command line.
#[derive(Clone, Debug, PartialEq, Eq)]
pub enum CliAction {
    /// Install the local file `path` as a package of `kind`.
    InstallFile { kind: PackageKind, path: String },
    /// Download the AppImage at `url` (shown as `name`) and install it.
    InstallUrl { url: String, name: String },
    /// Print the installed applications.
    ListApps,
    /// Start the installed application called `name`.
    Launch { name: String },
    /// Remove the installed application called `name`.
    Remove { name: String },
    /// A subcommand lacks its argument: print `message`.
    Usage { message: String },
    /// An option (it starts with `-`), handled apart from the subcommands.
    Options,
    /// Leave the command line to the graphical interface.
    Ignore,
}

/// `CliAction` with its texts as character sequences.
pub enum PlanView {
    InstallFile { kind: PackageKind, path: Seq<char> },
    InstallUrl { url: Seq<char>, name: Seq<char> },
    ListApps,
    Launch { name: Seq<char> },
    Remove { name: Seq<char> },
    Usage { message: Seq<char> },
    Options,
    Ignore,
}

impl View for CliAction {
    type V = PlanView;

    open spec fn view(&self) -> PlanView {
        match self {
            CliAction::InstallFile { kind, path } => PlanView::InstallFile { kind: *kind, path: path@ },
            CliAction::InstallUrl { url, name } => PlanView::InstallUrl { url: url@, name: name@ },
            CliAction::ListApps => PlanView::ListApps,
            CliAction::Launch { name } => PlanView::Launch { name: name@ },
            CliAction::Remove { name } => PlanView::Remove { name: name@ },
            CliAction::Usage { message } => PlanView::Usage { message: message@ },
            CliAction::Options => PlanView::Options,
            CliAction::Ignore => PlanView::Ignore,
        }
    }
}

/// The kind of package an argument names by its suffix (in any ASCII case).
pub open spec fn suffix_kind(arg: Seq<char>) -> Option<PackageKind> {
    if ends_with_ci(arg, ".appimage"@) {
        Some(PackageKind::AppImage)
    } else if ends_with_ci(arg, ".deb"@) {
        Some(PackageKind::Deb)
    } else if ends_with_ci(arg, ".rpm"@) {
        Some(PackageKind::Rpm)
    } else if ends_with_ci(arg, ".exe"@) || ends_with_ci(arg, ".msi"@) {
        Some(PackageKind::Executable)
    } else {
        None
    }
}

/// An argument that carries a URL scheme, such as a deep link
/// `linuxy://host/file.deb` or a web address.
pub open spec fn is_link(arg: Seq<char>) -> bool {
    crate::text::contains(arg, "://"@)
}

/// The name a download from `url` is shown under: the last component of
/// its path, or the whole address when it has none.
pub open spec fn url_name(url: Seq<char>) -> Seq<char> {
    match crate::path::file_name(url) {
        Some(f) => f,
        None => url,
    }
}

/// What the program does with the arguments `args` (without the program
/// name), given whether a file named by the first argument exists and
/// whether standard output is a terminal.
///
/// The subcommands `install <path|url>`, `list`, `launch <name>` and
/// `remove <name>` act as named; `install` takes a local file by its suffix
/// (an AppImage when the suffix names no other kind) and a link as a
/// download. Any other first argument is installed when it is an existing
/// local file with a known suffix, and otherwise leads to the listing in a
/// terminal and is left to the graphical interface elsewhere. Options are
/// handled apart.
pub open spec fn cli_plan(args: Seq<Seq<char>>, first_exists: bool, is_terminal: bool) -> PlanView {
    if args.len() == 0 {
        PlanView::Ignore
    } else {
        let a = args[0];
        if a == "install"@ {
            if args.len() < 2 {
                PlanView::Usage { message: "Usage: linuxy install <path|url>"@ }
            } else if is_link(args[1]) {
                PlanView::InstallUrl { url: args[1], name: url_name(args[1]) }
            } else {
                PlanView::InstallFile {
                    kind: match suffix_kind(args[1]) {
                        Some(k) => k,
                        None => PackageKind::AppImage,
                    },
                    path: args[1],
                }
            }
        } else if a == "list"@ {
            PlanView::ListApps
        } else if a == "launch"@ {
            if args.len() < 2 {
                PlanView::Usage { message: "Usage: linuxy launch <name>"@ }
            } else {
                PlanView::Launch { name: args[1] }
            }
        } else if a == "remove"@ {
            if args.len() < 2 {
                PlanView::Usage { message: "Usage: linuxy remove <name>"@ }
            } else {
                PlanView::Remove { name: args[1] }
            }
        } else if crate::text::starts_with(a, "-"@) {
            PlanView::Options
        } else {
            match suffix_kind(a) {
                Some(k) if !is_link(a) && first_exists => PlanView::InstallFile { kind: k, path: a },
                _ => if is_terminal {
                    PlanView::ListApps
                } else {
                    PlanView::Ignore
                },
            }
        }
    }
}

fn suffix_kind_exec(arg: &str) -> (r: Option<PackageKind>)
    ensures
        r == suffix_kind(arg@),
{
    if is_appimage_path(arg) {
        Some(PackageKind::AppImage)
    } else if is_deb_path(arg) {
        Some(PackageKind::Deb)
    } else if is_rpm_path(arg) {
        Some(PackageKind::Rpm)
    } else if is_exe_path(arg) {
        Some(PackageKind::Executable)
    } else {
        None
    }
}

fn is_link_exec(arg: &str) -> (r: bool)
    ensures
        r == is_link(arg@),
{
    crate::text::contains_str(&to_chars(arg), "://")
}

fn url_name_exec(url: &str) -> (r: String)
    ensures
        r@ == url_name(url@),
{
    match crate::path::file_name_exec(&to_chars(url)) {
        Some(f) => crate::text::from_chars(&f),
        None => crate::text::string_of(url),
    }
}

/// Decides what to do with the command line `args` (without the program
/// name); `first_exists` tells whether a file named by the first argument
/// exists.
pub fn plan_cli(args: &Vec<String>, first_exists: bool, is_terminal: bool) -> (r: CliAction)
    ensures
        r@ == cli_plan(args@.map_values(|s: String| s@), first_exists, is_terminal),
{
    let ghost av = args@.map_values(|s: String| s@);
    if args.len() == 0 {
        return CliAction::Ignore;
    }
    assert(av[0] == args@[0]@);
    let a = to_chars(args[0].as_str());
    let second: Option<&String> = if args.len() >= 2 {
        assert(av[1] == args@[1]@);
        Some(&args[1])
    } else {
        None
    };
    if crate::text::equals_str(&a, "install") {
        match second {
            None => CliAction::Usage { message: crate::text::string_of("Usage: linuxy install <path|url>") },
            Some(t) => {
                if is_link_exec(t.as_str()) {
                    CliAction::InstallUrl { url: crate::text::string_of(t.as_str()), name: url_name_exec(t.as_str()) }
                } else {
                    let kind = match suffix_kind_exec(t.as_str()) {
                        Some(k) => k,
                        None => PackageKind::AppImage,
                    };
                    CliAction::InstallFile { kind, path: crate::text::string_of(t.as_str()) }
                }
            },
        }
    } else if crate::text::equals_str(&a, "list") {
        CliAction::ListApps
    } else if crate::text::equals_str(&a, "launch") {
        match second {
            None => CliAction::Usage { message: crate::text::string_of("Usage: linuxy launch <name>") },
            Some(t) => CliAction::Launch { name: crate::text::string_of(t.as_str()) },
        }
    } else if crate::text::equals_str(&a, "remove") {
        match second {
            None => CliAction::Usage { message: crate::text::string_of("Usage: linuxy remove <name>") },
            Some(t) => CliAction::Remove { name: crate::text::string_of(t.as_str()) },
        }
    } else if crate::text::starts_with_str(&a, "-") {
        CliAction::Options
    } else {
        let first = args[0].as_str();
        match suffix_kind_exec(first) {
            Some(k) => {
                if !is_link_exec(first) && first_exists {
                    CliAction::InstallFile { kind: k, path: crate::text::string_of(first) }
                } else if is_terminal {
                    CliAction::ListApps
                } else {
                    CliAction::Ignore
                }
            },
            None => if is_terminal {
                CliAction::ListApps
            } else {
                CliAction::Ignore
            },
        }
    }
}

/// One row of the listing: name, sandbox state and path, left-aligned in
/// columns of 30, 10 and 20 characters separated by a space.
pub open spec fn listing_row(name: Seq<char>, sandbox: Seq<char>, path: Seq<char>) -> Seq<char> {
    crate::text::pad_right(name, 30) + " "@ + crate::text::pad_right(sandbox, 10) + " "@
        + crate::text::pad_right(path, 20)
}

pub open spec fn bool_text(b: bool) -> Seq<char> {
    if b {
        "true"@
    } else {
        "false"@
    }
}

fn listing_row_exec(name: &str, sandbox: &str, path: &str) -> (r: String)
    ensures
        r@ == listing_row(name@, sandbox@, path@),
{
    let mut out = crate::text::pad_right_exec(&to_chars(name), 30);
    crate::text::push_str(&mut out, " ");
    crate::text::push_all(&mut out, &crate::text::pad_right_exec(&to_chars(sandbox), 10));
    crate::text::push_str(&mut out, " ");
    crate::text::push_all(&mut out, &crate::text::pad_right_exec(&to_chars(path), 20));
    crate::text::from_chars(&out)
}

/// The heading of the listing.
pub fn listing_header() -> (r: String)
    ensures
        r@ == listing_row("NAME"@, "SANDBOX"@, "PATH"@),
{
    listing_row_exec("NAME", "SANDBOX", "PATH")
}

/// The listing row of an application.
pub fn listing_line(name: &str, sandboxed: bool, path: &str) -> (r: String)
    ensures
        r@ == listing_row(name@, bool_text(sandboxed), path@),
{
    if sandboxed {
        listing_row_exec(name, "true", path)
    } else {
        listing_row_exec(name, "false", path)
    }
}

/// The line printed before an installation from the command line.
pub fn installing_message(arg: &str) -> (r: String)
    ensures
        r@ == "Installing "@ + arg@ + "..."@,
{
    crate::text::concat3("Installing ", arg, "...")
}

/// The line printed when an argument is left to the graphical interface.
pub fn ignored_message(arg: &str) -> (r: String)
    ensures
        r@ == "Unrecognized argument '"@ + arg@ + "' — ignoring, continuing to GUI"@,
{
    crate::text::concat3("Unrecognized argument '", arg, "' — ignoring, continuing to GUI")
}

} // verus!

verus! {

/// Law: a first argument that carries a URL scheme (a deep link such as
/// `linuxy://host/file.deb`) never starts an installation, whatever it ends
/// with and whether or not a file of that name exists; only `install` with
/// a link downloads.
pub proof fn law_deep_links_never_install(args: Seq<Seq<char>>, first_exists: bool, is_terminal: bool)
    requires
        args.len() > 0,
        is_link(args[0]),
    ensures
        !(cli_plan(args, first_exists, is_terminal) is InstallFile),
        !(cli_plan(args, first_exists, is_terminal) is InstallUrl),
{
    reveal_strlit("install");
    reveal_strlit("list");
    reveal_strlit("launch");
    reveal_strlit("remove");
    reveal_strlit("://");
    let a = args[0];
    let j = choose|j: int| crate::text::matches_at(a, j, "://"@);
    assert(a.subrange(j, j + 3)[0] == ':');
    assert(a[j] == ':');
}

/// Law: the documented `install` subcommand installs what it names, in a
/// terminal or not, whether or not a file of that name exists (a missing
/// file is reported by the installation): a link is downloaded, anything
/// else is installed as a local file.
pub proof fn law_install_subcommand_installs(args: Seq<Seq<char>>, first_exists: bool, is_terminal: bool)
    requires
        args.len() >= 2,
        args[0] == "install"@,
    ensures
        cli_plan(args, first_exists, is_terminal) matches PlanView::InstallUrl { url, .. } ==> url == args[1],
        cli_plan(args, first_exists, is_terminal) matches PlanView::InstallFile { path, .. } ==> path == args[1],
        cli_plan(args, first_exists, is_terminal) is InstallUrl || cli_plan(args, first_exists, is_terminal) is InstallFile,
{
}

} // verus!

verus! {

/// A text that ends with `x` ends with each of `x`'s final characters.
proof fn lemma_ends_char(s: Seq<char>, x: Seq<char>, k: int)
    requires
        ends_with(s, x),
        1 <= k <= x.len(),
    ensures
        s.len() >= x.len(),
        s[s.len() - k] == x[x.len() - k],
{
    let a = s.len() - x.len();
    assert(s.subrange(a, a + x.len())[x.len() - k] == s[s.len() - k]);
}

/// The package suffixes exclude one another.
proof fn lemma_suffixes_exclusive(p: Seq<char>)
    ensures
        ends_with_ci(p, ".rpm"@) ==> !ends_with_ci(p, ".appimage"@) && !ends_with_ci(p, ".deb"@),
        ends_with_ci(p, ".deb"@) ==> !ends_with_ci(p, ".appimage"@),
        ends_with_ci(p, ".exe"@) || ends_with_ci(p, ".msi"@) ==> !ends_with_ci(p, ".appimage"@) && !ends_with_ci(
            p,
            ".deb"@,
        ) && !ends_with_ci(p, ".rpm"@),
{
    reveal_strlit(".appimage");
    reveal_strlit(".deb");
    reveal_strlit(".rpm");
    reveal_strlit(".exe");
    reveal_strlit(".msi");
    let l = ascii_lower(p);
    assert(".appimage"@ =~= seq!['.', 'a', 'p', 'p', 'i', 'm', 'a', 'g', 'e']);
    assert(".deb"@ =~= seq!['.', 'd', 'e', 'b']);
    assert(".rpm"@ =~= seq!['.', 'r', 'p', 'm']);
    assert(".exe"@ =~= seq!['.', 'e', 'x', 'e']);
    assert(".msi"@ =~= seq!['.', 'm', 's', 'i']);
    if ends_with(l, ".appimage"@) {
        lemma_ends_char(l, ".appimage"@, 1);
        lemma_ends_char(l, ".appimage"@, 2);
    }
    if ends_with(l, ".deb"@) {
        lemma_ends_char(l, ".deb"@, 1);
    }
    if ends_with(l, ".rpm"@) {
        lemma_ends_char(l, ".rpm"@, 1);
    }
    if ends_with(l, ".exe"@) {
        lemma_ends_char(l, ".exe"@, 1);
        lemma_ends_char(l, ".exe"@, 2);
    }
    if ends_with(l, ".msi"@) {
        lemma_ends_char(l, ".msi"@, 1);
    }
}

/// Law: `install <path>` hands a local path to the installer its suffix
/// names, in any ASCII letter case: `.rpm` to the RPM installer, `.deb` to
/// the Debian one, `.exe` and `.msi` to the executable one, `.appimage` (and
/// a path with none of these suffixes) to the AppImage one; and a path with
/// one of these suffixes is handed to the same installer as when it is given
/// alone as an existing file.
pub proof fn law_install_kind_by_suffix(p: Seq<char>, first_exists: bool, is_terminal: bool)
    requires
        !is_link(p),
    ensures
        ends_with_ci(p, ".rpm"@) ==> cli_plan(seq!["install"@, p], first_exists, is_terminal)
            == (PlanView::InstallFile { kind: PackageKind::Rpm, path: p }),
        ends_with_ci(p, ".deb"@) ==> cli_plan(seq!["install"@, p], first_exists, is_terminal)
            == (PlanView::InstallFile { kind: PackageKind::Deb, path: p }),
        ends_with_ci(p, ".exe"@) || ends_with_ci(p, ".msi"@) ==> cli_plan(seq!["install"@, p], first_exists, is_terminal)
            == (PlanView::InstallFile { kind: PackageKind::Executable, path: p }),
        ends_with_ci(p, ".appimage"@) ==> cli_plan(seq!["install"@, p], first_exists, is_terminal)
            == (PlanView::InstallFile { kind: PackageKind::AppImage, path: p }),
        !ends_with_ci(p, ".rpm"@) && !ends_with_ci(p, ".deb"@) && !ends_with_ci(p, ".exe"@) && !ends_with_ci(
            p,
            ".msi"@,
        ) ==> cli_plan(seq!["install"@, p], first_exists, is_terminal)
            == (PlanView::InstallFile { kind: PackageKind::AppImage, path: p }),
        suffix_kind(p) is Some && !crate::text::starts_with(p, "-"@) ==> cli_plan(
            seq!["install"@, p],
            first_exists,
            is_terminal,
        ) == cli_plan(seq![p], true, is_terminal),
{
    lemma_suffixes_exclusive(p);
    let args = seq!["install"@, p];
    assert(args[0] == "install"@ && args[1] == p && args.len() == 2);
    if suffix_kind(p) is Some {
        reveal_strlit("install");
        reveal_strlit("list");
        reveal_strlit("launch");
        reveal_strlit("remove");
        reveal_strlit(".appimage");
        reveal_strlit(".deb");
        reveal_strlit(".rpm");
        reveal_strlit(".exe");
        reveal_strlit(".msi");
        let l = ascii_lower(p);
        // a path with a package suffix has a dot among its last four
        // characters, which no subcommand has
        assert(p != "install"@ && p != "list"@ && p != "launch"@ && p != "remove"@) by {
            assert("install"@ =~= seq!['i', 'n', 's', 't', 'a', 'l', 'l']);
            assert("list"@ =~= seq!['l', 'i', 's', 't']);
            assert("launch"@ =~= seq!['l', 'a', 'u', 'n', 'c', 'h']);
            assert("remove"@ =~= seq!['r', 'e', 'm', 'o', 'v', 'e']);
            assert(".appimage"@ =~= seq!['.', 'a', 'p', 'p', 'i', 'm', 'a', 'g', 'e']);
            assert(".deb"@ =~= seq!['.', 'd', 'e', 'b']);
            assert(".rpm"@ =~= seq!['.', 'r', 'p', 'm']);
            assert(".exe"@ =~= seq!['.', 'e', 'x', 'e']);
            assert(".msi"@ =~= seq!['.', 'm', 's', 'i']);
            if ends_with(l, ".appimage"@) {
                lemma_ends_char(l, ".appimage"@, 9);
                assert(crate::text::lower_char(p[p.len() - 9]) == '.');
            } else if ends_with(l, ".deb"@) {
                lemma_ends_char(l, ".deb"@, 4);
                assert(crate::text::lower_char(p[p.len() - 4]) == '.');
            } else if ends_with(l, ".rpm"@) {
                lemma_ends_char(l, ".rpm"@, 4);
                assert(crate::text::lower_char(p[p.len() - 4]) == '.');
            } else if ends_with(l, ".exe"@) {
                lemma_ends_char(l, ".exe"@, 4);
                assert(crate::text::lower_char(p[p.len() - 4]) == '.');
            } else {
                lemma_ends_char(l, ".msi"@, 4);
                assert(crate::text::lower_char(p[p.len() - 4]) == '.');
            }
        }
        assert(seq![p][0] == p);
    }
}

} // verus!
