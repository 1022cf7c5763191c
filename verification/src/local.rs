//! The file system the core itself runs on: one endpoint among several, with
//! nothing privileged about it. Listing a directory is the caller's; how
//! paths of this machine are taken apart and put together is here, read the
//! way [`crate::watch`] reads them.
use vstd::prelude::*;

use crate::text::{append_chars, chars_of, opt_text, string_of};
use crate::watch::{directory_exec, directory_of, parts, parts_exec, start_exec, start_of};

verus! {

/// The directory above a path: `None` at the root and for the empty path.
pub open spec fn spec_parent(path: Seq<char>) -> Option<Seq<char>> {
    let q = parts(path);
    if q.len() > 0 {
        Some(directory_of(start_of(path), q))
    } else if start_of(path) == seq!['.'] {
        Some(Seq::empty())
    } else {
        None
    }
}

/// A name put below a directory: a name that starts at the root stands for
/// itself, and a separator goes between where there is none yet.
pub open spec fn spec_join(directory: Seq<char>, name: Seq<char>) -> Seq<char> {
    if name.len() > 0 && name[0] == '/' {
        name
    } else if directory.len() > 0 && directory.last() != '/' {
        directory + seq!['/'] + name
    } else {
        directory + name
    }
}

/// A session on the machine the core runs on. Holds nothing: there is no
/// connection to keep, and every call works from a full path.
#[derive(Debug, Default, Clone, Copy)]
pub struct LocalSession;

impl LocalSession {
    pub fn new() -> (s: Self) {
        LocalSession
    }

    /// The directory above, or `None` when already at the top.
    pub fn parent(&self, path: &str) -> (r: Option<String>)
        ensures
            opt_text(r) == spec_parent(path@),
    {
        let p = chars_of(path);
        let q = parts_exec(&p);
        let start = start_exec(&p);
        if q.len() > 0 {
            Some(string_of(&directory_exec(&start, &q)))
        } else if start.len() == 1 && start[0] == '.' {
            assert(start@ =~= seq!['.']);
            Some(String::new())
        } else {
            proof {
                if start@.len() == 1 {
                    assert(start@ != seq!['.']);
                }
            }
            None
        }
    }

    /// Joins in the notation of this machine, which is not the POSIX joining
    /// used for servers.
    pub fn join(&self, directory: &str, name: &str) -> (s: String)
        ensures
            s@ == spec_join(directory@, name@),
    {
        let d = chars_of(directory);
        let n = chars_of(name);
        if n.len() > 0 && n[0] == '/' {
            return string_of(&n);
        }
        let mut v = d;
        if v.len() > 0 && v[v.len() - 1] != '/' {
            v.push('/');
        }
        append_chars(&mut v, &n);
        string_of(&v)
    }
}

} // verus!
