//! Interpretation of the update tool's results.
use vstd::prelude::*;
use crate::text::{ascii_lower, contains, contains_str, lower, to_chars};

verus! {

/// The marker the update tool prints when a newer version exists.
pub open spec fn update_marker() -> Seq<char> {
    "update is available"@
}

/// An update check signals an available update: exit code 1, or the marker
/// in either output stream, in any ASCII case.
pub open spec fn indicates_update(code: Option<i32>, stdout: Seq<char>, stderr: Seq<char>) -> bool {
    code == Some(1i32) || contains(ascii_lower(stdout), update_marker()) || contains(
        ascii_lower(stderr),
        update_marker(),
    )
}

/// Whether an update check's exit code and output signal an available update.
pub fn update_check_indicates_available(code: Option<i32>, stdout: &str, stderr: &str) -> (r: bool)
    ensures
        r == indicates_update(code, stdout@, stderr@),
{
    let out = lower(&to_chars(stdout));
    let err = lower(&to_chars(stderr));
    code == Some(1i32) || contains_str(&out, "update is available") || contains_str(
        &err,
        "update is available",
    )
}

} // verus!

verus! {

/// The update state of one installed AppImage.
#[derive(Clone, Debug)]
pub struct UpdateInfo {
    pub path: String,
    pub name: String,
    pub has_update: bool,
    pub error: Option<String>,
}

/// The update tool finished normally: exit code 0 (success) or 1 (an update
/// is available). A process ends successfully exactly when its exit code is
/// 0.
pub open spec fn check_completed(code: Option<i32>) -> bool {
    code == Some(0i32) || code == Some(1i32)
}

/// The answer of a single update check: whether an update is available when
/// the tool finished normally, the trimmed error output otherwise.
pub fn interpret_update_check(code: Option<i32>, stdout: &str, stderr: &str) -> (r: Result<bool, String>)
    ensures
        check_completed(code) ==> r == Ok::<bool, String>(indicates_update(code, stdout@, stderr@)),
        !check_completed(code) ==> r is Err && r->Err_0@ == "Update check failed: "@ + crate::text::trim(stderr@),
{
    if code == Some(0i32) || code == Some(1i32) {
        Ok(update_check_indicates_available(code, stdout, stderr))
    } else {
        Err(crate::text::failure_message("Update check failed: ", stderr))
    }
}

/// The answer of applying an update: success exactly when the tool exited
/// with code 0.
pub fn interpret_update_apply(code: Option<i32>, stderr: &str) -> (r: Result<String, String>)
    ensures
        code == Some(0i32) ==> r is Ok && r->Ok_0@ == "Update applied successfully."@,
        code != Some(0i32) ==> r is Err && r->Err_0@ == "Update failed: "@ + crate::text::trim(stderr@),
{
    if code == Some(0i32) {
        Ok(crate::text::string_of("Update applied successfully."))
    } else {
        Err(crate::text::failure_message("Update failed: ", stderr))
    }
}

/// The name an AppImage is shown under in the update list: the `Name=` of
/// its desktop entry when that could be read and has one, its base name
/// otherwise.
pub open spec fn update_name(base: Seq<char>, desktop: Option<Seq<char>>) -> Seq<char> {
    match desktop {
        Some(c) => match crate::desktop::first_value(crate::text::lines(c), "Name="@) {
            Some(n) => n,
            None => base,
        },
        None => base,
    }
}

pub fn update_display_name(base: &str, desktop: Option<&str>) -> (r: String)
    ensures
        r@ == update_name(base@, match desktop {
            Some(c) => Some(c@),
            None => None,
        }),
{
    match desktop {
        Some(c) => match crate::desktop::first_name_value(c) {
            Some(n) => n,
            None => crate::text::string_of(base),
        },
        None => crate::text::string_of(base),
    }
}

impl UpdateInfo {
    /// The entry for an AppImage whose check ran: whether an update is
    /// available, and the trimmed error output when the tool did not finish
    /// normally.
    pub fn from_check(path: &str, name: &str, code: Option<i32>, stdout: &str, stderr: &str) -> (r: UpdateInfo)
        ensures
            r.path@ == path@,
            r.name@ == name@,
            r.has_update == indicates_update(code, stdout@, stderr@),
            check_completed(code) ==> r.error is None,
            !check_completed(code) ==> r.error is Some && r.error->Some_0@ == crate::text::trim(stderr@),
    {
        let error = if code == Some(0i32) || code == Some(1i32) {
            None
        } else {
            Some(crate::text::failure_message("", stderr))
        };
        proof {
            reveal_strlit("");
            assert(""@ + crate::text::trim(stderr@) =~= crate::text::trim(stderr@));
        }
        UpdateInfo {
            path: crate::text::string_of(path),
            name: crate::text::string_of(name),
            has_update: update_check_indicates_available(code, stdout, stderr),
            error,
        }
    }

    /// The entry for an AppImage whose check could not be run.
    pub fn from_failure(path: &str, name: &str, error: &str) -> (r: UpdateInfo)
        ensures
            r.path@ == path@,
            r.name@ == name@,
            !r.has_update,
            r.error is Some && r.error->Some_0@ == error@,
    {
        UpdateInfo {
            path: crate::text::string_of(path),
            name: crate::text::string_of(name),
            has_update: false,
            error: Some(crate::text::string_of(error)),
        }
    }
}

} // verus!

