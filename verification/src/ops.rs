//! What can be done to files beyond reading them: counting what a recursive
//! operation would touch, permission bits, and names that are names.
use vstd::prelude::*;

use crate::text::{chars_of, contains_char, has_char, trim, trimmed, same_chars};

verus! {

/// What a recursive operation is about to touch. Counting stops at [`Measurement::CAP`].
#[derive(Debug, Clone, Copy, PartialEq, Eq, Default, Structural)]
pub struct Measurement {
    pub files: u64,
    pub directories: u64,
    /// Links are counted separately, because they are what a careless delete
    /// gets wrong.
    pub symlinks: u64,
    pub bytes: u64,
    /// True when counting stopped early, so the window can say "more than".
    pub truncated: bool,
}

impl Measurement {
    /// How many entries are counted before the answer is good enough.
    pub const CAP: u64 = 10_000;

    /// Nothing counted yet.
    pub fn empty() -> (m: Self)
        ensures
            m == (Measurement { files: 0, directories: 0, symlinks: 0, bytes: 0, truncated: false }),
    {
        Measurement { files: 0, directories: 0, symlinks: 0, bytes: 0, truncated: false }
    }

    pub fn total(&self) -> (t: u64)
        requires
            self.files + self.directories + self.symlinks <= u64::MAX,
        ensures
            t == self.files + self.directories + self.symlinks,
    {
        self.files + self.directories + self.symlinks
    }

    pub fn is_at_cap(&self) -> (b: bool)
        ensures
            b == self.truncated,
    {
        self.truncated
    }

    /// One file more, and its size when it has one.
    pub fn add_file(&mut self, bytes: Option<u64>)
        requires
            old(self).files < u64::MAX,
            old(self).bytes + (match bytes {
                Some(b) => b,
                None => 0u64,
            }) <= u64::MAX,
        ensures
            final(self).files == old(self).files + 1,
            final(self).bytes == old(self).bytes + (match bytes {
                Some(b) => b,
                None => 0u64,
            }),
            final(self).directories == old(self).directories,
            final(self).symlinks == old(self).symlinks,
            final(self).truncated == old(self).truncated,
    {
        self.files = self.files + 1;
        self.bytes = self.bytes + match bytes {
            Some(b) => b,
            None => 0,
        };
    }

    pub fn add_directory(&mut self)
        requires
            old(self).directories < u64::MAX,
        ensures
            *final(self) == (Measurement { directories: (old(self).directories + 1) as u64, ..*old(self) }),
    {
        self.directories = self.directories + 1;
    }

    /// A link is counted as a link: its target is not part of what a delete removes.
    pub fn add_symlink(&mut self)
        requires
            old(self).symlinks < u64::MAX,
        ensures
            *final(self) == (Measurement { symlinks: (old(self).symlinks + 1) as u64, ..*old(self) }),
    {
        self.symlinks = self.symlinks + 1;
    }

    pub fn reached_cap(&self) -> (b: bool)
        requires
            self.files + self.directories + self.symlinks <= u64::MAX,
        ensures
            b == (self.files + self.directories + self.symlinks >= Measurement::CAP),
    {
        self.total() >= Measurement::CAP
    }
}

/// The nine permission bits, as a dialog with nine boxes thinks of them.
#[derive(Debug, Clone, Copy, PartialEq, Eq, Structural)]
pub struct PermissionBits {
    pub owner_read: bool,
    pub owner_write: bool,
    pub owner_execute: bool,
    pub group_read: bool,
    pub group_write: bool,
    pub group_execute: bool,
    pub other_read: bool,
    pub other_write: bool,
    pub other_execute: bool,
}

pub open spec fn spec_from_mode(mode: u32) -> PermissionBits {
    PermissionBits {
        owner_read: mode & 0o400 != 0,
        owner_write: mode & 0o200 != 0,
        owner_execute: mode & 0o100 != 0,
        group_read: mode & 0o040 != 0,
        group_write: mode & 0o020 != 0,
        group_execute: mode & 0o010 != 0,
        other_read: mode & 0o004 != 0,
        other_write: mode & 0o002 != 0,
        other_execute: mode & 0o001 != 0,
    }
}

pub open spec fn bit(on: bool, value: u32) -> u32 {
    if on {
        value
    } else {
        0
    }
}

pub open spec fn spec_to_mode(b: PermissionBits) -> u32 {
    (bit(b.owner_read, 0o400) | bit(b.owner_write, 0o200) | bit(b.owner_execute, 0o100) | bit(
        b.group_read,
        0o040,
    ) | bit(b.group_write, 0o020) | bit(b.group_execute, 0o010) | bit(b.other_read, 0o004) | bit(
        b.other_write,
        0o002,
    ) | bit(b.other_execute, 0o001)) as u32
}

impl PermissionBits {
    pub fn from_mode(mode: u32) -> (b: Self)
        ensures
            b == spec_from_mode(mode),
    {
        PermissionBits {
            owner_read: mode & 0o400 != 0,
            owner_write: mode & 0o200 != 0,
            owner_execute: mode & 0o100 != 0,
            group_read: mode & 0o040 != 0,
            group_write: mode & 0o020 != 0,
            group_execute: mode & 0o010 != 0,
            other_read: mode & 0o004 != 0,
            other_write: mode & 0o002 != 0,
            other_execute: mode & 0o001 != 0,
        }
    }

    pub fn to_mode(self) -> (m: u32)
        ensures
            m == spec_to_mode(self),
    {
        bit_of(self.owner_read, 0o400) | bit_of(self.owner_write, 0o200) | bit_of(
            self.owner_execute,
            0o100,
        ) | bit_of(self.group_read, 0o040) | bit_of(self.group_write, 0o020) | bit_of(
            self.group_execute,
            0o010,
        ) | bit_of(self.other_read, 0o004) | bit_of(self.other_write, 0o002) | bit_of(
            self.other_execute,
            0o001,
        )
    }
}

fn bit_of(on: bool, value: u32) -> (r: u32)
    ensures
        r == bit(on, value),
{
    if on {
        value
    } else {
        0
    }
}

proof fn lemma_bits_read_back(
    a: bool,
    b: bool,
    c: bool,
    d: bool,
    e: bool,
    f: bool,
    g: bool,
    h: bool,
    i: bool,
    m: u32,
)
    requires
        m == (bit(a, 0o400) | bit(b, 0o200) | bit(c, 0o100) | bit(d, 0o040) | bit(e, 0o020) | bit(
            f,
            0o010,
        ) | bit(g, 0o004) | bit(h, 0o002) | bit(i, 0o001)),
    ensures
        (m & 0o400 != 0) == a,
        (m & 0o200 != 0) == b,
        (m & 0o100 != 0) == c,
        (m & 0o040 != 0) == d,
        (m & 0o020 != 0) == e,
        (m & 0o010 != 0) == f,
        (m & 0o004 != 0) == g,
        (m & 0o002 != 0) == h,
        (m & 0o001 != 0) == i,
{
    assert((m & 0o400 != 0) == a && (m & 0o200 != 0) == b && (m & 0o100 != 0) == c && (m & 0o040
        != 0) == d && (m & 0o020 != 0) == e && (m & 0o010 != 0) == f && (m & 0o004 != 0) == g
        && (m & 0o002 != 0) == h && (m & 0o001 != 0) == i) by (bit_vector)
        requires
            m == (if a {
                0o400u32
            } else {
                0
            } | if b {
                0o200u32
            } else {
                0
            } | if c {
                0o100u32
            } else {
                0
            } | if d {
                0o040u32
            } else {
                0
            } | if e {
                0o020u32
            } else {
                0
            } | if f {
                0o010u32
            } else {
                0
            } | if g {
                0o004u32
            } else {
                0
            } | if h {
                0o002u32
            } else {
                0
            } | if i {
                0o001u32
            } else {
                0
            }),
    ;
}

/// Nine boxes and an octal number say the same thing: a mode read into boxes
/// and written back is the mode without the bits outside the nine.
pub proof fn boxes_keep_the_nine_bits(mode: u32)
    ensures
        spec_to_mode(spec_from_mode(mode)) == mode & 0o777,
{
    assert((if mode & 0o400 != 0 {
        0o400u32
    } else {
        0
    } | if mode & 0o200 != 0 {
        0o200u32
    } else {
        0
    } | if mode & 0o100 != 0 {
        0o100u32
    } else {
        0
    } | if mode & 0o040 != 0 {
        0o040u32
    } else {
        0
    } | if mode & 0o020 != 0 {
        0o020u32
    } else {
        0
    } | if mode & 0o010 != 0 {
        0o010u32
    } else {
        0
    } | if mode & 0o004 != 0 {
        0o004u32
    } else {
        0
    } | if mode & 0o002 != 0 {
        0o002u32
    } else {
        0
    } | if mode & 0o001 != 0 {
        0o001u32
    } else {
        0
    }) == mode & 0o777) by (bit_vector);
}

/// And boxes written as a mode and read back are the same boxes.
pub proof fn a_mode_keeps_the_boxes(b: PermissionBits)
    ensures
        spec_from_mode(spec_to_mode(b)) == b,
{
    lemma_bits_read_back(
        b.owner_read,
        b.owner_write,
        b.owner_execute,
        b.group_read,
        b.group_write,
        b.group_execute,
        b.other_read,
        b.other_write,
        b.other_execute,
        spec_to_mode(b),
    );
}

/// The worth of a ticked box: `worth` when it is ticked, nothing otherwise.
pub open spec fn worth(ticked: bool, worth: int) -> int {
    if ticked {
        worth
    } else {
        0
    }
}

/// Each box stands for one binary digit of the mode, in the order `ls -l`
/// shows them: owner read, write, execute are the digits worth 256, 128 and
/// 64, the group's worth 32, 16 and 8, everybody else's worth 4, 2 and 1. A
/// mode read into boxes ticks exactly the boxes whose digit is set, and the
/// mode written from boxes is the sum of the worths of the ticked ones.
pub proof fn each_box_is_one_digit_of_the_mode(mode: u32, b: PermissionBits)
    ensures
        spec_from_mode(mode).owner_read == ((mode / 256) % 2 == 1),
        spec_from_mode(mode).owner_write == ((mode / 128) % 2 == 1),
        spec_from_mode(mode).owner_execute == ((mode / 64) % 2 == 1),
        spec_from_mode(mode).group_read == ((mode / 32) % 2 == 1),
        spec_from_mode(mode).group_write == ((mode / 16) % 2 == 1),
        spec_from_mode(mode).group_execute == ((mode / 8) % 2 == 1),
        spec_from_mode(mode).other_read == ((mode / 4) % 2 == 1),
        spec_from_mode(mode).other_write == ((mode / 2) % 2 == 1),
        spec_from_mode(mode).other_execute == (mode % 2 == 1),
        spec_to_mode(b) as int == worth(b.owner_read, 256) + worth(b.owner_write, 128) + worth(b.owner_execute, 64)
            + worth(b.group_read, 32) + worth(b.group_write, 16) + worth(b.group_execute, 8) + worth(
            b.other_read,
            4,
        ) + worth(b.other_write, 2) + worth(b.other_execute, 1),
{
    assert((mode & 0o400 != 0) == ((mode / 256) % 2 == 1) && (mode & 0o200 != 0) == ((mode / 128) % 2 == 1)
        && (mode & 0o100 != 0) == ((mode / 64) % 2 == 1) && (mode & 0o040 != 0) == ((mode / 32) % 2 == 1)
        && (mode & 0o020 != 0) == ((mode / 16) % 2 == 1) && (mode & 0o010 != 0) == ((mode / 8) % 2 == 1)
        && (mode & 0o004 != 0) == ((mode / 4) % 2 == 1) && (mode & 0o002 != 0) == ((mode / 2) % 2 == 1)
        && (mode & 0o001 != 0) == (mode % 2 == 1)) by (bit_vector);
    let x1 = bit(b.owner_read, 0o400);
    let x2 = bit(b.owner_write, 0o200);
    let x3 = bit(b.owner_execute, 0o100);
    let x4 = bit(b.group_read, 0o040);
    let x5 = bit(b.group_write, 0o020);
    let x6 = bit(b.group_execute, 0o010);
    let x7 = bit(b.other_read, 0o004);
    let x8 = bit(b.other_write, 0o002);
    let x9 = bit(b.other_execute, 0o001);
    assert((x1 | x2 | x3 | x4 | x5 | x6 | x7 | x8 | x9) == x1 + x2 + x3 + x4 + x5 + x6 + x7 + x8 + x9)
        by (bit_vector)
        requires
            x1 == 0 || x1 == 256,
            x2 == 0 || x2 == 128,
            x3 == 0 || x3 == 64,
            x4 == 0 || x4 == 32,
            x5 == 0 || x5 == 16,
            x6 == 0 || x6 == 8,
            x7 == 0 || x7 == 4,
            x8 == 0 || x8 == 2,
            x9 == 0 || x9 == 1,
    ;
}

/// A name that can be joined to a directory without landing somewhere else.
pub open spec fn spec_is_usable_name(name: Seq<char>) -> bool {
    &&& name.len() > 0
    &&& name != seq!['.']
    &&& name != seq!['.', '.']
    &&& !contains_char(name, '/')
    &&& !contains_char(name, '\\')
    &&& !contains_char(name, '\0')
    &&& trim(name) == name
}

/// Rejects a name that is not a name: empty, `.` or `..`, one carrying a
/// separator or a zero byte, or one with white space at either end.
pub fn is_usable_name(name: &str) -> (b: bool)
    ensures
        b == spec_is_usable_name(name@),
{
    let v = chars_of(name);
    if v.len() == 0 {
        return false;
    }
    let dot: Vec<char> = vec!['.'];
    let dots: Vec<char> = vec!['.', '.'];
    assert(dot@ =~= seq!['.']);
    assert(dots@ =~= seq!['.', '.']);
    if same_chars(&v, &dot) || same_chars(&v, &dots) {
        return false;
    }
    if has_char(&v, '/') || has_char(&v, '\\') || has_char(&v, '\0') {
        return false;
    }
    let t = trimmed(&v);
    same_chars(&t, &v)
}

} // verus!
