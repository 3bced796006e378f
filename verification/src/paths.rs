//! The shell's rule for `~` at the start of a path, and its test for files
//! that can be run.
use vstd::prelude::*;
use crate::text::{append, copy, copy_from, text_view};

verus! {

/// Whether `path` names the home directory or something below it: it is
/// `~`, or it begins with `~/`.
pub open spec fn names_home(path: Seq<char>) -> bool {
    path.len() >= 1 && path[0] == '~' && (path.len() == 1 || path[1] == '/')
}

/// The path with its leading `~` replaced by the home directory, where it
/// has one and the home directory is known; else the path as it is.
pub open spec fn expanded(path: Seq<char>, home: Option<Seq<char>>) -> Seq<char> {
    match home {
        Some(dir) => if names_home(path) {
            dir + path.skip(1)
        } else {
            path
        },
        None => path,
    }
}

/// Decides [`names_home`].
pub fn begins_at_home(path: &[char]) -> (r: bool)
    ensures
        r == names_home(path@),
{
    path.len() >= 1 && path[0] == '~' && (path.len() == 1 || path[1] == '/')
}

/// Asks `home::home_dir` for the home directory of the user, and hands it
/// on as text; a directory whose name is not valid Unicode counts as
/// unknown. Trusted, and nothing is claimed of the result: it depends on
/// the environment of the process.
#[verifier::external_body]
fn home_directory() -> (r: Option<Vec<char>>) {
    match home::home_dir() {
        Some(dir) => dir.to_str().map(|text| text.chars().collect()),
        None => None,
    }
}

/// Computes [`expanded`]; `home` is the home directory, if it is known.
pub fn expand_home(path: &[char], home: Option<Vec<char>>) -> (r: Vec<char>)
    ensures
        r@ == expanded(path@, text_view(home)),
{
    match home {
        Some(dir) => {
            if begins_at_home(path) {
                let mut r = dir;
                let rest = copy_from(path, 1);
                append(&mut r, rest.as_slice());
                r
            } else {
                copy(path)
            }
        },
        None => copy(path),
    }
}

/// Replaces a leading `~` by the home directory of the user, which is
/// looked up only for a path that has one. Which directory that is, and
/// whether one is known, lies with the environment: the result is
/// [`expanded`] for the answer that came.
pub fn resolve_home(path: &[char]) -> (r: Vec<char>)
    ensures
        !names_home(path@) ==> r@ == path@,
        exists|home: Option<Seq<char>>| r@ == expanded(path@, home),
{
    if begins_at_home(path) {
        let home = home_directory();
        let ghost answer = text_view(home);
        let r = expand_home(path, home);
        proof {
            assert(r@ == expanded(path@, answer));
        }
        r
    } else {
        let r = copy(path);
        proof {
            assert(r@ == expanded(path@, None));
        }
        r
    }
}

/// Whether a file with the permission bits `mode` can be run by anyone:
/// at least one of its three execute bits is set.
pub open spec fn runnable(mode: u32) -> bool {
    mode & 0o111 != 0
}

/// Decides [`runnable`].
pub fn has_execute_bit(mode: u32) -> (r: bool)
    ensures
        r == runnable(mode),
{
    mode & 0o111 != 0
}

} // verus!
