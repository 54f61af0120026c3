//! Paths as texts.

use vstd::prelude::*;

use crate::text::{concat2, concat3};

verus! {

/// A path under a directory. An absolute path stands for itself.
pub open spec fn under(dir: Seq<char>, path: Seq<char>) -> Seq<char> {
    if path.len() > 0 && path[0] == '/' {
        path
    } else if dir.len() == 0 || dir.last() == '/' {
        dir + path
    } else {
        dir + "/"@ + path
    }
}

/// A path under a directory.
pub fn path_under(dir: &str, path: &str) -> (result: String)
    ensures
        result@ == under(dir@, path@),
{
    if path.unicode_len() > 0 && path.get_char(0) == '/' {
        return path.to_owned();
    }
    let len: usize = dir.unicode_len();
    if len == 0 || dir.get_char(len - 1) == '/' {
        concat2(dir, path)
    } else {
        concat3(dir, "/", path)
    }
}

} // verus!
