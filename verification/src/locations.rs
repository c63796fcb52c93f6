//! Where the library keeps what it installs, relative to the home directory.
use vstd::prelude::*;
use crate::path::join;
use crate::text::to_chars;

verus! {

/// The directories the manager works in.
pub struct LibraryDirs {
    pub home: String,
    /// Installed AppImages.
    pub appimages: String,
    /// Installed plain executables.
    pub bin: String,
    /// Desktop entries.
    pub applications: String,
    /// Extracted icons.
    pub icons: String,
    /// The folder the watcher observes.
    pub downloads: String,
}

impl LibraryDirs {
    pub open spec fn layout_of(&self, home: Seq<char>) -> bool {
        &&& self.home@ == home
        &&& self.appimages@ == join(home, ".local/appimages"@)
        &&& self.bin@ == join(home, ".local/bin"@)
        &&& self.applications@ == join(home, ".local/share/applications"@)
        &&& self.icons@ == join(home, ".local/share/icons"@)
        &&& self.downloads@ == join(home, "Downloads"@)
    }

    /// The directories below the home directory `home`.
    pub fn from_home(home: &str) -> (r: LibraryDirs)
        ensures
            r.layout_of(home@),
    {
        let h = to_chars(home);
        LibraryDirs {
            home: crate::text::string_of(home),
            appimages: crate::text::from_chars(&crate::path::join_str(&h, ".local/appimages")),
            bin: crate::text::from_chars(&crate::path::join_str(&h, ".local/bin")),
            applications: crate::text::from_chars(&crate::path::join_str(&h, ".local/share/applications")),
            icons: crate::text::from_chars(&crate::path::join_str(&h, ".local/share/icons")),
            downloads: crate::text::from_chars(&crate::path::join_str(&h, "Downloads")),
        }
    }

    /// The directories below the current user's home directory, if it can be
    /// found.
    pub fn locate() -> (r: Option<LibraryDirs>)
        ensures
            r matches Some(d) ==> d.layout_of(d.home@),
    {
        match home_dir() {
            Some(h) => Some(LibraryDirs::from_home(h.as_str())),
            None => None,
        }
    }
}

/// `dirs::home_dir`: the current user's home directory, taken from `HOME`
/// or the password database. What comes back depends on the environment,
/// so nothing is stated of it.
#[verifier::external_body]
fn home_dir() -> (r: Option<String>) {
    match ::dirs::home_dir() {
        Some(p) => Some(p.to_string_lossy().into_owned()),
        None => None,
    }
}

} // verus!
