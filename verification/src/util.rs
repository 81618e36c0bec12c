//! Small helpers around the directory and the end of the log.

use vstd::prelude::*;
use vstd::string::StringExecFns;
use std::path::Path;
use crate::error::{ErrorView, JsonlDBError};

verus! {

/// Calls `Path::parent` of std, which gives the path without its last
/// component if there is one. What a component is depends on the platform,
/// so nothing is said of the result.
#[verifier::external_body]
fn path_parent(p: &str) -> (parent: Option<String>) {
    Path::new(p).parent().map(|x| x.to_string_lossy().into_owned())
}

/// Whether a file needs a line feed before the next record is appended: it
/// is not empty and does not end in one. `last` is the last byte of the
/// file, or nothing where it could not be read.
pub fn file_needs_lf(len: u64, last: Option<u8>) -> (needs: bool)
    ensures
        needs == (len > 0 && last != Some(10u8)),
{
    if len > 0 {
        match last {
            Some(byte) => byte != 10,
            None => true,
        }
    } else {
        false
    }
}

/// The reason of the error for a path without a parent.
pub open spec fn no_parent_reason(p: Seq<char>) -> Seq<char> {
    seq!['"'] + p + "\" does not have a parent directory"@
}

/// The directory of `p`, given what std says its parent is: an error where
/// there is none, the current directory where the parent is empty, else the
/// parent.
pub open spec fn parent_dir_of(p: Seq<char>, parent: Option<Seq<char>>) -> Result<Seq<char>, ErrorView> {
    match parent {
        None => Err(ErrorView::IoError { reason: no_parent_reason(p) }),
        Some(dir) => if dir.len() == 0 {
            Ok(seq!['.'])
        } else {
            Ok(dir)
        },
    }
}

/// The directory of `p`, given what std says its parent is.
pub fn parent_dir_from(p: &str, parent: Option<String>) -> (result: Result<String, JsonlDBError>)
    ensures
        match result {
            Ok(dir) => parent_dir_of(p@, parent.deep_view()) == Ok::<Seq<char>, ErrorView>(dir@),
            Err(e) => parent_dir_of(p@, parent.deep_view()) == Err::<Seq<char>, ErrorView>(e@),
        },
{
    match parent {
        None => {
            proof {
                reveal_strlit("\"");
            }
            let mut reason = String::from_str("\"");
            reason.append(p);
            reason.append("\" does not have a parent directory");
            assert(reason@ =~= no_parent_reason(p@));
            Err(JsonlDBError::io_error_from_reason(reason))
        },
        Some(dir) => {
            if dir.as_str().is_empty() {
                proof {
                    reveal_strlit(".");
                }
                let here = String::from_str(".");
                assert(here@ =~= seq!['.']);
                Ok(here)
            } else {
                Ok(dir)
            }
        },
    }
}

/// The directory of `p`: what `parent_dir_from` makes of the parent that std
/// finds for the path.
pub fn parent_dir(p: &str) -> (result: Result<String, JsonlDBError>)
    ensures
        exists|parent: Option<Seq<char>>|
            match result {
                Ok(dir) => #[trigger] parent_dir_of(p@, parent) == Ok::<Seq<char>, ErrorView>(dir@),
                Err(e) => parent_dir_of(p@, parent) == Err::<Seq<char>, ErrorView>(e@),
            },
{
    let parent = path_parent(p);
    let ghost seen = parent.deep_view();
    let result = parent_dir_from(p, parent);
    assert(match result {
        Ok(dir) => parent_dir_of(p@, seen) == Ok::<Seq<char>, ErrorView>(dir@),
        Err(e) => parent_dir_of(p@, seen) == Err::<Seq<char>, ErrorView>(e@),
    });
    result
}

/// The parts of the path of a file in the directory `dirname` beside it,
/// given what std says the parent and the file name of its path are: the
/// parent, `dirname` and the file name, to be joined in this order. There
/// are none where the path has no parent or no file name.
pub fn replace_dirname_from(parent: Option<String>, file_name: Option<String>, dirname: &str) -> (parts: Option<(String, String, String)>)
    ensures
        parts.deep_view() == (match (parent.deep_view(), file_name.deep_view()) {
            (Some(base), Some(name)) => Some((base, dirname@, name)),
            _ => None,
        }),
{
    match (parent, file_name) {
        (Some(base), Some(name)) => Some((base, String::from_str(dirname), name)),
        _ => None,
    }
}

} // verus!
