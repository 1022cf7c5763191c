//! SFTP: what an attempt to connect carries, how the user proves who they
//! are, and the check of the server's key. Opening the connection itself is
//! the caller's.
pub mod auth;
pub mod hostkey;

use vstd::prelude::*;

pub use auth::AuthMethod;
pub use hostkey::{fingerprint, HostKeyDecision};

use crate::fs::{DirEntry, EntryKind, EntryView, Permissions};
use crate::text::{chars_of, decimal, decimal_of, opt_text, string_of};

verus! {

/// Everything needed for one attempt.
pub struct ConnectParams {
    pub host: String,
    pub port: u16,
    pub user: String,
    pub method: AuthMethod,
    /// What the user has already agreed to about the server's key.
    pub host_key: HostKeyDecision,
    /// Which `known_hosts` file to consult; `None` is the one the terminal
    /// uses.
    pub known_hosts: Option<String>,
    /// Transfers at once on this connection.
    pub concurrency: u8,
    /// Attempts before a broken job is paused.
    pub retries: u8,
    /// Write through a temporary name.
    pub temporary_name: bool,
}

/// What kind an SFTP file type is.
pub open spec fn sftp_kind(is_dir: bool, is_file: bool, is_link: bool) -> EntryKind {
    if is_dir {
        EntryKind::Directory
    } else if is_file {
        EntryKind::File
    } else if is_link {
        EntryKind::Symlink
    } else {
        EntryKind::Other
    }
}

/// A name, or else a number, as text.
pub open spec fn named_or_numbered(name: Option<String>, id: Option<u32>) -> Option<Seq<char>> {
    match name {
        Some(n) => Some(n@),
        None => match id {
            Some(i) => Some(decimal(i as nat)),
            None => None,
        },
    }
}

/// The row an SFTP directory entry makes: a size for files only, the nine
/// permission bits, owner and group by name where the server sends one and
/// by number otherwise, and where a link leads for links only.
pub open spec fn spec_row(
    name: Seq<char>,
    kind: EntryKind,
    size: Option<u64>,
    mtime: Option<u32>,
    mode: Option<u32>,
    user: Option<String>,
    uid: Option<u32>,
    group: Option<String>,
    gid: Option<u32>,
    link_target: Option<String>,
    kind_of_target: Option<EntryKind>,
) -> EntryView {
    EntryView {
        name,
        kind,
        size: if kind == EntryKind::File { size } else { None },
        modified: match mtime {
            Some(t) => Some(t as i64),
            None => None,
        },
        permissions: match mode {
            Some(b) => Some(Permissions(b & 0o777)),
            None => None,
        },
        owner: named_or_numbered(user, uid),
        group: named_or_numbered(group, gid),
        link_target: if kind == EntryKind::Symlink { opt_text(link_target) } else { None },
        kind_of_target: if kind == EntryKind::Symlink { kind_of_target } else { None },
    }
}

fn named_or_numbered_exec(name: Option<String>, id: Option<u32>) -> (r: Option<String>)
    ensures
        opt_text(r) == named_or_numbered(name, id),
{
    match name {
        Some(n) => Some(n),
        None => match id {
            Some(i) => Some(string_of(&decimal_of(i as u64))),
            None => None,
        },
    }
}

/// One entry of an SFTP directory listing as a row; `.` and `..` are not
/// rows. Where a link leads, and what it leads to, are read by the caller
/// and kept for links only.
pub fn row_from_attributes(
    name: &str,
    is_dir: bool,
    is_file: bool,
    is_link: bool,
    size: Option<u64>,
    mtime: Option<u32>,
    mode: Option<u32>,
    user: Option<String>,
    uid: Option<u32>,
    group: Option<String>,
    gid: Option<u32>,
    link_target: Option<String>,
    kind_of_target: Option<EntryKind>,
) -> (r: Option<DirEntry>)
    ensures
        r is None <==> (name@ == seq!['.'] || name@ == seq!['.', '.']),
        r matches Some(e) ==> e@ == spec_row(
            name@,
            sftp_kind(is_dir, is_file, is_link),
            size,
            mtime,
            mode,
            user,
            uid,
            group,
            gid,
            link_target,
            kind_of_target,
        ),
{
    let n = chars_of(name);
    let dot = n.len() == 1 && n[0] == '.';
    let dots = n.len() == 2 && n[0] == '.' && n[1] == '.';
    proof {
        if n@.len() == 1 {
            assert(dot == (n@ =~= seq!['.']));
            assert(n@ != seq!['.', '.']);
        } else if n@.len() == 2 {
            assert(dots == (n@ =~= seq!['.', '.']));
            assert(n@ != seq!['.']);
        } else {
            assert(n@ != seq!['.']);
            assert(n@ != seq!['.', '.']);
        }
    }
    if dot || dots {
        return None;
    }
    let kind = if is_dir {
        EntryKind::Directory
    } else if is_file {
        EntryKind::File
    } else if is_link {
        EntryKind::Symlink
    } else {
        EntryKind::Other
    };
    let link = matches!(kind, EntryKind::Symlink);
    Some(
        DirEntry {
            name: name.to_string(),
            kind,
            size: if matches!(kind, EntryKind::File) { size } else { None },
            modified: match mtime {
                Some(t) => Some(t as i64),
                None => None,
            },
            permissions: match mode {
                Some(b) => Some(Permissions(b & 0o777)),
                None => None,
            },
            owner: named_or_numbered_exec(user, uid),
            group: named_or_numbered_exec(group, gid),
            link_target: if link { link_target } else { None },
            kind_of_target: if link { kind_of_target } else { None },
        },
    )
}

} // verus!
