//! The link to the keyboard data of the guest.

use vstd::prelude::*;

use crate::text::{begins, begins_with, opt_text};

verus! {

/// Where the keyboard data lie in the guest.
pub const XKB_TARGET: &'static str = "/usr/share/xkeyboard-config-2";

/// The directory that holds the link to them.
pub const XKB_DIR: &'static str = "/usr/share/X11";

/// `path` relative to `base`, or none where it cannot be had.
pub uninterp spec fn relative_path(path: Seq<char>, base: Seq<char>) -> Option<Seq<char>>;

/// Calls `pathdiff::diff_paths` on two paths of a Unix system: the path is that
/// of `relative_path`.
#[verifier::external_body]
fn diff_paths(path: &str, base: &str) -> (r: Option<String>)
    ensures
        opt_text(r) == relative_path(path@, base@),
{
    pathdiff::diff_paths(path, base).map(|p| p.to_string_lossy().into_owned())
}

/// Where the link should lead, given the relative path, if there is one.
pub fn link_target(relative: Option<String>) -> (r: String)
    ensures
        r@ == (match relative {
            Some(p) => p@,
            None => XKB_TARGET@,
        }),
{
    match relative {
        Some(p) => p,
        None => XKB_TARGET.to_owned(),
    }
}

/// Where the link has to lead instead, given where it leads: an absolute target
/// is wrong, for the app's root is not that of the guest.
pub fn fix_xkb_symlink(target: &str) -> (r: Option<String>)
    ensures
        match r {
            Some(t) => begins(target@, "/"@) && t@ == (match relative_path(XKB_TARGET@, XKB_DIR@) {
                Some(p) => p,
                None => XKB_TARGET@,
            }),
            None => !begins(target@, "/"@),
        },
{
    if begins_with(target, "/") {
        Some(link_target(diff_paths(XKB_TARGET, XKB_DIR)))
    } else {
        None
    }
}

/// What is said of a link that could not be made.
pub fn link_error(e: &str) -> (r: String)
    ensures
        r@ == "Failed to create relative symlink for xkb: "@ + e@,
{
    let mut r = "Failed to create relative symlink for xkb: ".to_owned();
    r.append(e);
    r
}

} // verus!
