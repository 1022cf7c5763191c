//! Turning what an FTP server says about a directory into rows.
//!
//! `MLSD` is machine readable: facts and a UTC timestamp. `LIST` is whatever
//! the server felt like printing, historically a copy of `ls -l`, and that is
//! where the traps are: a name may contain spaces, a date without a year is
//! not always this year, and Windows servers print something else entirely.
use vstd::prelude::*;

use crate::fs::{DirEntry, EntryKind, EntryView, Permissions};
use crate::text::{
    all_digits, append_chars, chars_of, digits_value, find_from, fold_lower, folded, folded_chars,
    has_char, is_digit, lemma_find_from, parse_i64, parse_i64_exec, parse_u32, parse_u64,
    parse_unsigned, slice_range, split, split_pieces, string_of, tdiv, views,
};

verus! {

/// Days from 1970-01-01 to a civil date, by Howard Hinnant's algorithm, with
/// Rust's division that rounds towards zero.
pub open spec fn days_from_civil(year: int, month: int, day: int) -> int {
    let y = if month <= 2 {
        year - 1
    } else {
        year
    };
    let era = tdiv(
        if y >= 0 {
            y
        } else {
            y - 399
        },
        400,
    );
    let year_of_era = y - era * 400;
    let day_of_year = tdiv(
        153 * (month + if month > 2 {
            -3int
        } else {
            9int
        }) + 2,
        5,
    ) + day - 1;
    let day_of_era = year_of_era * 365 + tdiv(year_of_era, 4) - tdiv(year_of_era, 100)
        + day_of_year;
    era * 146_097 + day_of_era - 719_468
}

/// Seconds since the Unix epoch for a UTC date and time.
pub open spec fn epoch(year: int, month: int, day: int, hour: int, minute: int, second: int) -> int {
    days_from_civil(year, month, day) * 86_400 + hour * 3600 + minute * 60 + second
}

/// A number of seconds, where it fits the type timestamps are kept in.
pub open spec fn as_timestamp(seconds: int) -> Option<i64> {
    if i64::MIN <= seconds <= i64::MAX {
        Some(seconds as i64)
    } else {
        None
    }
}

proof fn lemma_tdiv_range(a: int, b: int)
    requires
        b >= 1,
    ensures
        a >= 0 ==> 0 <= tdiv(a, b) <= a,
        a < 0 ==> a <= tdiv(a, b) <= 0,
        a >= 0 ==> tdiv(a, b) * b <= a < tdiv(a, b) * b + b,
{
    if a >= 0 {
        assert(0 <= a / b <= a) by (nonlinear_arith)
            requires
                a >= 0,
                b >= 1,
        ;
        assert((a / b) * b <= a < (a / b) * b + b) by (nonlinear_arith)
            requires
                a >= 0,
                b >= 1,
        ;
    } else {
        assert(0 <= (-a) / b <= -a) by (nonlinear_arith)
            requires
                -a > 0,
                b >= 1,
        ;
    }
}

const BIG: i128 = 0x1_0000_0000_0000_0000_0000;

fn tdiv_exec(a: i128, b: i128) -> (q: i128)
    requires
        0 < b,
        -BIG <= a <= BIG,
    ensures
        q == tdiv(a as int, b as int),
{
    if a >= 0 {
        a / b
    } else {
        -((-a) / b)
    }
}

/// `days_from_civil`, computed.
fn days_from_civil_exec(year: i64, month: u32, day: u32) -> (d: i128)
    ensures
        d == days_from_civil(year as int, month as int, day as int),
        -0x1_0000_0000_0000_0000_0000 < d < 0x1_0000_0000_0000_0000_0000,
{
    let m = month as i128;
    let y: i128 = if m <= 2 {
        year as i128 - 1
    } else {
        year as i128
    };
    let shifted: i128 = if y >= 0 {
        y
    } else {
        y - 399
    };
    let era = tdiv_exec(shifted, 400);
    proof {
        lemma_tdiv_range(shifted as int, 400);
    }
    assert(-0x80_0000_0000_0000 <= era <= 0x80_0000_0000_0000) by (nonlinear_arith)
        requires
            shifted >= 0 ==> 0 <= era * 400 <= shifted,
            shifted < 0 ==> shifted <= era <= 0,
            shifted < 0 ==> era == -((-shifted) / 400),
            -0x8000_0000_0000_0400 <= shifted <= 0x8000_0000_0000_0000,
    {
        if shifted < 0 {
            assert((-shifted) / 400 <= 0x80_0000_0000_0000) by (nonlinear_arith)
                requires
                    0 < -shifted <= 0x8000_0000_0000_0400,
            ;
        }
    }
    assert(-0x80_0000_0000_0000 * 400 <= era * 400 <= 0x80_0000_0000_0000 * 400) by (nonlinear_arith)
        requires
            -0x80_0000_0000_0000 <= era <= 0x80_0000_0000_0000,
    ;
    let year_of_era = y - era * 400;
    let offset: i128 = if m > 2 {
        -3
    } else {
        9
    };
    let numerator: i128 = 153 * (m + offset) + 2;
    let q = tdiv_exec(numerator, 5);
    proof {
        lemma_tdiv_range(numerator as int, 5);
    }
    let day_of_year = q + day as i128 - 1;
    let q4 = tdiv_exec(year_of_era, 4);
    let q100 = tdiv_exec(year_of_era, 100);
    proof {
        lemma_tdiv_range(year_of_era as int, 4);
        lemma_tdiv_range(year_of_era as int, 100);
    }
    assert(-0x1000_0000_0000_0000_0000 <= year_of_era * 365 <= 0x1000_0000_0000_0000_0000) by (nonlinear_arith)
        requires
            -0x1_0000_0000_0000_0000 <= year_of_era <= 0x1_0000_0000_0000_0000,
    ;
    let day_of_era = year_of_era * 365 + q4 - q100 + day_of_year;
    assert(-0x80_0000_0000_0000 * 146_097 <= era * 146_097 <= 0x80_0000_0000_0000 * 146_097)
        by (nonlinear_arith)
        requires
            -0x80_0000_0000_0000 <= era <= 0x80_0000_0000_0000,
    ;
    era * 146_097 + day_of_era - 719_468
}

/// `epoch`, computed exactly.
fn epoch_exec(year: i64, month: u32, day: u32, hour: u64, minute: u32, second: u32) -> (s: i128)
    ensures
        s == epoch(year as int, month as int, day as int, hour as int, minute as int, second as int),
{
    let d = days_from_civil_exec(year, month, day);
    assert(-0x1_0000_0000_0000_0000_0000 * 86_400 <= d * 86_400 <= 0x1_0000_0000_0000_0000_0000
        * 86_400) by (nonlinear_arith)
        requires
            -0x1_0000_0000_0000_0000_0000 < d < 0x1_0000_0000_0000_0000_0000,
    ;
    assert(hour * 3600 <= 0xffff_ffff_ffff_ffff * 3600) by (nonlinear_arith)
        requires
            hour <= 0xffff_ffff_ffff_ffff,
    ;
    d * 86_400 + hour as i128 * 3600 + minute as i128 * 60 + second as i128
}

/// Seconds since the Unix epoch for a UTC date and time.
pub fn epoch_seconds(year: i64, month: u32, day: u32, hour: u32, minute: u32, second: u32) -> (s: i64)
    requires
        i64::MIN <= epoch(year as int, month as int, day as int, hour as int, minute as int, second as int)
            <= i64::MAX,
    ensures
        s == epoch(year as int, month as int, day as int, hour as int, minute as int, second as int),
{
    epoch_exec(year, month, day, hour as u64, minute, second) as i64
}

fn as_timestamp_exec(seconds: i128) -> (r: Option<i64>)
    ensures
        r == as_timestamp(seconds as int),
{
    if i64::MIN as i128 <= seconds && seconds <= i64::MAX as i128 {
        Some(seconds as i64)
    } else {
        None
    }
}

/// The year a moment falls in: an estimate, settled by at most `steps` looks
/// at where the neighbouring years begin.
pub open spec fn settle_year(seconds: int, year: int, steps: nat) -> int
    decreases steps,
{
    if steps == 0 {
        year
    } else if seconds < epoch(year, 1, 1, 0, 0, 0) {
        settle_year(seconds, year - 1, (steps - 1) as nat)
    } else if seconds >= epoch(year + 1, 1, 1, 0, 0, 0) {
        settle_year(seconds, year + 1, (steps - 1) as nat)
    } else {
        year
    }
}

pub open spec fn year_of(seconds: int) -> int {
    settle_year(seconds, 1970 + tdiv(seconds, 31_556_952), 3)
}

fn year_of_exec(seconds: i64) -> (y: i64)
    ensures
        y == year_of(seconds as int),
        -0x60_0000_0000 <= y <= 0x60_0000_0000,
{
    let q = tdiv_exec(seconds as i128, 31_556_952);
    proof {
        lemma_tdiv_range(seconds as int, 31_556_952);
        let q = tdiv(seconds as int, 31_556_952);
        if seconds >= 0 {
            assert(q <= 0x50_0000_0000) by (nonlinear_arith)
                requires
                    q * 31_556_952 <= seconds <= 0x8000_0000_0000_0000,
            ;
        } else {
            lemma_tdiv_range(-seconds as int, 31_556_952);
            assert((-seconds as int) / 31_556_952 <= 0x50_0000_0000) by (nonlinear_arith)
                requires
                    0 < -seconds <= 0x8000_0000_0000_0000,
            ;
        }
    }
    let mut year: i64 = 1970 + q as i64;
    let mut steps: u32 = 3;
    while steps > 0
        invariant
            steps <= 3,
            -0x50_0000_0000 - 1970 - (3 - steps) <= year <= 0x50_0000_0000 + 1970 + (3 - steps),
            year_of(seconds as int) == settle_year(seconds as int, year as int, steps as nat),
        decreases steps,
    {
        let start = epoch_exec(year, 1, 1, 0, 0, 0);
        let next = epoch_exec(year + 1, 1, 1, 0, 0, 0);
        if (seconds as i128) < start {
            year = year - 1;
        } else if (seconds as i128) >= next {
            year = year + 1;
        } else {
            return year;
        }
        steps = steps - 1;
    }
    year
}

/// The month a name begins with, counted from one.
pub open spec fn month_names() -> Seq<Seq<char>> {
    seq![
        seq!['j', 'a', 'n'],
        seq!['f', 'e', 'b'],
        seq!['m', 'a', 'r'],
        seq!['a', 'p', 'r'],
        seq!['m', 'a', 'y'],
        seq!['j', 'u', 'n'],
        seq!['j', 'u', 'l'],
        seq!['a', 'u', 'g'],
        seq!['s', 'e', 'p'],
        seq!['o', 'c', 't'],
        seq!['n', 'o', 'v'],
        seq!['d', 'e', 'c'],
    ]
}

/// The first month whose short name the lower-cased name starts with.
pub open spec fn month_from(name: Seq<char>, i: int) -> Option<u32>
    decreases 12 - i,
{
    if i >= 12 || i < 0 {
        None
    } else if crate::text::starts_with(folded(name), month_names()[i]) {
        Some((i + 1) as u32)
    } else {
        month_from(name, i + 1)
    }
}

pub open spec fn month_from_name(name: Seq<char>) -> Option<u32> {
    month_from(name, 0)
}

fn month_name_exec(i: usize) -> (m: Vec<char>)
    requires
        i < 12,
    ensures
        m@ == month_names()[i as int],
{
    let m: Vec<char> = if i == 0 {
        vec!['j', 'a', 'n']
    } else if i == 1 {
        vec!['f', 'e', 'b']
    } else if i == 2 {
        vec!['m', 'a', 'r']
    } else if i == 3 {
        vec!['a', 'p', 'r']
    } else if i == 4 {
        vec!['m', 'a', 'y']
    } else if i == 5 {
        vec!['j', 'u', 'n']
    } else if i == 6 {
        vec!['j', 'u', 'l']
    } else if i == 7 {
        vec!['a', 'u', 'g']
    } else if i == 8 {
        vec!['s', 'e', 'p']
    } else if i == 9 {
        vec!['o', 'c', 't']
    } else if i == 10 {
        vec!['n', 'o', 'v']
    } else {
        vec!['d', 'e', 'c']
    };
    assert(m@ =~= month_names()[i as int]);
    m
}

fn month_from_name_exec(name: &[char]) -> (r: Option<u32>)
    ensures
        r == month_from_name(name@),
{
    let lower = folded_chars(name);
    let mut i: usize = 0;
    while i < 12
        invariant
            i <= 12,
            lower@ == folded(name@),
            month_from_name(name@) == month_from(name@, i as int),
        decreases 12 - i,
    {
        let m = month_name_exec(i);
        if crate::text::starts_with_exec(&lower, &m) {
            return Some((i + 1) as u32);
        }
        i = i + 1;
    }
    None
}

/// `YYYYMMDDHHMMSS` before any fraction, always UTC: fourteen digits at
/// least, and only digits.
pub open spec fn parse_mlsd_time(value: Seq<char>) -> Option<i64> {
    let digits = split(value, '.')[0];
    if digits.len() < 14 || !all_digits(digits) {
        None
    } else {
        as_timestamp(
            epoch(
                digits_value(digits.subrange(0, 4)) as int,
                digits_value(digits.subrange(4, 6)) as int,
                digits_value(digits.subrange(6, 8)) as int,
                digits_value(digits.subrange(8, 10)) as int,
                digits_value(digits.subrange(10, 12)) as int,
                digits_value(digits.subrange(12, 14)) as int,
            ),
        )
    }
}

/// The value of two or four digits.
fn digits_exec(v: &[char], from: usize, to: usize) -> (n: u32)
    requires
        from <= to <= v@.len(),
        to - from <= 4,
        all_digits(v@.subrange(from as int, to as int)),
    ensures
        n == digits_value(v@.subrange(from as int, to as int)),
{
    match crate::text::digits_up_to(v, from, to, 0xffff_ffff) {
        Some(n) => n as u32,
        None => {
            proof {
                lemma_digits_below(v@.subrange(from as int, to as int));
            }
            0
        },
    }
}

pub open spec fn pow10(n: nat) -> nat
    decreases n,
{
    if n == 0 {
        1
    } else {
        10 * pow10((n - 1) as nat)
    }
}

/// A run of `n` digits stands for less than ten to the `n`.
proof fn lemma_digits_bound(s: Seq<char>)
    requires
        all_digits(s),
    ensures
        digits_value(s) < pow10(s.len()),
    decreases s.len(),
{
    if s.len() > 0 {
        assert(all_digits(s.drop_last()));
        lemma_digits_bound(s.drop_last());
        assert(is_digit(s.last()));
        let d = digits_value(s.drop_last());
        let p = pow10((s.len() - 1) as nat);
        assert(d * 10 + crate::text::digit_val(s.last()) < 10 * p) by (nonlinear_arith)
            requires
                d < p,
                crate::text::digit_val(s.last()) <= 9,
        ;
    }
}

proof fn lemma_digits_below(s: Seq<char>)
    requires
        s.len() <= 4,
        all_digits(s),
    ensures
        digits_value(s) < 10_000,
{
    lemma_digits_bound(s);
    reveal_with_fuel(pow10, 5);
    if s.len() < 4 {
        assert(pow10(s.len()) <= 10_000);
    }
}

fn parse_mlsd_time_exec(value: &[char]) -> (r: Option<i64>)
    ensures
        r == parse_mlsd_time(value@),
{
    let pieces = split_pieces(value, '.');
    proof {
        crate::text::lemma_split_not_empty(value@, '.');
        assert(views(pieces@)[0] == pieces@[0]@);
    }
    let digits = &pieces[0];
    assert(digits@ == split(value@, '.')[0]);
    if digits.len() < 14 {
        return None;
    }
    let mut i: usize = 0;
    while i < digits.len()
        invariant
            i <= digits@.len(),
            digits@ == split(value@, '.')[0],
            forall|k: int| 0 <= k < i ==> is_digit(digits@[k]),
        decreases digits@.len() - i,
    {
        if !('0' <= digits[i] && digits[i] <= '9') {
            assert(!is_digit(digits@[i as int]));
            assert(!all_digits(digits@));
            assert(digits@ == split(value@, '.')[0]);
            return None;
        }
        i = i + 1;
    }
    proof {
        assert forall|a: int, b: int| 0 <= a <= b <= digits@.len() implies all_digits(
            #[trigger] digits@.subrange(a, b),
        ) by {
            assert forall|k: int| 0 <= k < b - a implies is_digit(digits@.subrange(a, b)[k]) by {
                assert(digits@.subrange(a, b)[k] == digits@[a + k]);
            }
        }
    }
    let year = digits_exec(digits, 0, 4);
    let month = digits_exec(digits, 4, 6);
    let day = digits_exec(digits, 6, 8);
    let hour = digits_exec(digits, 8, 10);
    let minute = digits_exec(digits, 10, 12);
    let second = digits_exec(digits, 12, 14);
    as_timestamp_exec(epoch_exec(year as i64, month, day, hour as u64, minute, second))
}

/// What the facts of an `MLSD` line have said so far.
pub struct FactsSeen {
    pub kind: EntryKind,
    pub size: Option<u64>,
    pub modified: Option<i64>,
    pub permissions: Option<Permissions>,
    pub owner: Option<Seq<char>>,
    pub group: Option<Seq<char>>,
    pub link_target: Option<Seq<char>>,
    /// The line is the current or the parent directory, which is no row.
    pub not_a_row: bool,
}

pub open spec fn nothing_seen() -> FactsSeen {
    FactsSeen {
        kind: EntryKind::File,
        size: None,
        modified: None,
        permissions: None,
        owner: None,
        group: None,
        link_target: None,
        not_a_row: false,
    }
}

/// What one `fact=value` does. Keys and the type's value are compared without
/// regard to case; a fact without `=` says nothing.
pub open spec fn apply_fact(st: FactsSeen, fact: Seq<char>) -> FactsSeen {
    match crate::text::split_once(fact, '=') {
        None => st,
        Some((key, value)) => {
            let k = folded(key);
            if k == "type"@ {
                let v = folded(value);
                if v == "dir"@ {
                    FactsSeen { kind: EntryKind::Directory, ..st }
                } else if v == "file"@ {
                    FactsSeen { kind: EntryKind::File, ..st }
                } else if v == "cdir"@ || v == "pdir"@ {
                    FactsSeen { not_a_row: true, ..st }
                } else if crate::text::starts_with(v, "os.unix=slink"@) {
                    FactsSeen {
                        kind: EntryKind::Symlink,
                        link_target: match crate::text::split_once(value, ':') {
                            Some((_, path)) => Some(path),
                            None => None,
                        },
                        ..st
                    }
                } else {
                    FactsSeen { kind: EntryKind::Other, ..st }
                }
            } else if k == "size"@ {
                FactsSeen {
                    size: match parse_unsigned(value, u64::MAX as nat) {
                        Some(n) => Some(n as u64),
                        None => None,
                    },
                    ..st
                }
            } else if k == "modify"@ {
                FactsSeen { modified: parse_mlsd_time(value), ..st }
            } else if k == "unix.mode"@ {
                FactsSeen {
                    permissions: match crate::text::parse_octal_u32(
                        crate::text::strip_prefix_all(value, "0o"@),
                    ) {
                        Some(m) => Some(Permissions(m % 512)),
                        None => None,
                    },
                    ..st
                }
            } else if k == "unix.ownername"@ {
                FactsSeen { owner: Some(value), ..st }
            } else if k == "unix.groupname"@ {
                FactsSeen { group: Some(value), ..st }
            } else if k == "unix.owner"@ {
                FactsSeen {
                    owner: if st.owner is Some {
                        st.owner
                    } else {
                        Some(value)
                    },
                    ..st
                }
            } else if k == "unix.group"@ {
                FactsSeen {
                    group: if st.group is Some {
                        st.group
                    } else {
                        Some(value)
                    },
                    ..st
                }
            } else {
                st
            }
        },
    }
}

/// The facts applied in order.
pub open spec fn apply_facts(st: FactsSeen, facts: Seq<Seq<char>>) -> FactsSeen
    decreases facts.len(),
{
    if facts.len() == 0 {
        st
    } else {
        apply_fact(apply_facts(st, facts.drop_last()), facts.last())
    }
}

/// One `MLSD` line: `fact=value;fact=value; name`. The name is everything
/// after the first space, spaces and semicolons included; a line without a
/// name or without a single fact is no row, and neither are the current and
/// the parent directory. Only files keep a size.
pub open spec fn mlsd_line(line: Seq<char>) -> Option<EntryView> {
    let l = crate::text::strip_line_end(line);
    match crate::text::split_once(l, ' ') {
        None => None,
        Some((facts, name)) => if name.len() == 0 || !crate::text::contains_char(facts, '=') {
            None
        } else {
            let st = apply_facts(nothing_seen(), split(facts, ';'));
            if st.not_a_row {
                None
            } else {
                Some(
                    EntryView {
                        name,
                        kind: st.kind,
                        size: if st.kind == EntryKind::File {
                            st.size
                        } else {
                            None
                        },
                        modified: st.modified,
                        permissions: st.permissions,
                        owner: st.owner,
                        group: st.group,
                        link_target: st.link_target,
                        kind_of_target: None,
                    },
                )
            }
        },
    }
}

/// The facts seen so far, held while a line is read.
struct FactState {
    kind: EntryKind,
    size: Option<u64>,
    modified: Option<i64>,
    permissions: Option<Permissions>,
    owner: Option<String>,
    group: Option<String>,
    link_target: Option<String>,
    not_a_row: bool,
}

impl FactState {
    spec fn seen(&self) -> FactsSeen {
        FactsSeen {
            kind: self.kind,
            size: self.size,
            modified: self.modified,
            permissions: self.permissions,
            owner: crate::text::opt_text(self.owner),
            group: crate::text::opt_text(self.group),
            link_target: crate::text::opt_text(self.link_target),
            not_a_row: self.not_a_row,
        }
    }
}

fn apply_fact_exec(st: &mut FactState, fact: &[char])
    ensures
        final(st).seen() == apply_fact(old(st).seen(), fact@),
{
    let (key, value) = match crate::text::split_once_exec(fact, '=') {
        None => return ,
        Some(kv) => kv,
    };
    let k = folded_chars(&key);
    if crate::text::is_text(&k, "type") {
        let v = folded_chars(&value);
        if crate::text::is_text(&v, "dir") {
            st.kind = EntryKind::Directory;
        } else if crate::text::is_text(&v, "file") {
            st.kind = EntryKind::File;
        } else if crate::text::is_text(&v, "cdir") || crate::text::is_text(&v, "pdir") {
            st.not_a_row = true;
        } else if crate::text::starts_with_text(&v, "os.unix=slink") {
            st.kind = EntryKind::Symlink;
            st.link_target = match crate::text::split_once_exec(&value, ':') {
                Some((_, path)) => Some(string_of(&path)),
                None => None,
            };
        } else {
            st.kind = EntryKind::Other;
        }
    } else if crate::text::is_text(&k, "size") {
        st.size = parse_u64(&value);
    } else if crate::text::is_text(&k, "modify") {
        st.modified = parse_mlsd_time_exec(&value);
    } else if crate::text::is_text(&k, "unix.mode") {
        let prefix = chars_of("0o");
        let digits = crate::text::strip_prefix_all_exec(&value, &prefix);
        st.permissions = match crate::text::parse_octal_u32_exec(&digits) {
            Some(m) => Some(Permissions(m % 512)),
            None => None,
        };
    } else if crate::text::is_text(&k, "unix.ownername") {
        st.owner = Some(string_of(&value));
    } else if crate::text::is_text(&k, "unix.groupname") {
        st.group = Some(string_of(&value));
    } else if crate::text::is_text(&k, "unix.owner") {
        if st.owner.is_none() {
            st.owner = Some(string_of(&value));
        }
    } else if crate::text::is_text(&k, "unix.group") {
        if st.group.is_none() {
            st.group = Some(string_of(&value));
        }
    }
}

/// One `MLSD` line: `fact=value;fact=value; name`.
pub fn parse_mlsd_line(line: &str) -> (r: Option<DirEntry>)
    ensures
        crate::fs::entry_opt(r) == mlsd_line(line@),
{
    let raw = chars_of(line);
    let l = crate::text::strip_line_end_exec(&raw);
    let (facts, name) = match crate::text::split_once_exec(&l, ' ') {
        None => return None,
        Some(parts) => parts,
    };
    if name.len() == 0 || !has_char(&facts, '=') {
        return None;
    }
    let pieces = split_pieces(&facts, ';');
    let mut st = FactState {
        kind: EntryKind::File,
        size: None,
        modified: None,
        permissions: None,
        owner: None,
        group: None,
        link_target: None,
        not_a_row: false,
    };
    let ghost all = views(pieces@);
    let mut i: usize = 0;
    while i < pieces.len()
        invariant
            i <= pieces@.len(),
            all == views(pieces@),
            st.seen() == apply_facts(nothing_seen(), all.take(i as int)),
        decreases pieces@.len() - i,
    {
        proof {
            assert(all.take(i + 1).drop_last() =~= all.take(i as int));
            assert(all[i as int] == pieces@[i as int]@);
        }
        apply_fact_exec(&mut st, &pieces[i]);
        i = i + 1;
    }
    assert(all.take(pieces@.len() as int) =~= all);
    if st.not_a_row {
        return None;
    }
    let size = if st.kind == EntryKind::File {
        st.size
    } else {
        None
    };
    Some(
        DirEntry {
            name: string_of(&name),
            kind: st.kind,
            size,
            modified: st.modified,
            permissions: st.permissions,
            owner: st.owner,
            group: st.group,
            link_target: st.link_target,
            kind_of_target: None,
        },
    )
}

/// How many bytes a character takes in UTF-8.
pub open spec fn utf8_len(c: char) -> nat {
    if (c as u32) < 0x80 {
        1
    } else if (c as u32) < 0x800 {
        2
    } else if (c as u32) < 0x10000 {
        3
    } else {
        4
    }
}

/// The length of a text in bytes, which is what `str::len` counts.
pub open spec fn byte_len(s: Seq<char>) -> nat
    decreases s.len(),
{
    if s.len() == 0 {
        0
    } else {
        byte_len(s.drop_last()) + utf8_len(s.last())
    }
}

proof fn lemma_byte_len_grows(s: Seq<char>, i: int)
    requires
        0 <= i <= s.len(),
    ensures
        byte_len(s.take(i)) <= byte_len(s),
    decreases s.len() - i,
{
    if i < s.len() {
        lemma_byte_len_grows(s, i + 1);
        assert(s.take(i + 1).drop_last() =~= s.take(i));
    } else {
        assert(s.take(i) =~= s);
    }
}

/// Whether a text takes more than ten bytes.
fn longer_than_ten_bytes(v: &[char]) -> (b: bool)
    ensures
        b == (byte_len(v@) > 10),
{
    let mut n: u64 = 0;
    let mut i: usize = 0;
    while i < v.len() && n <= 10
        invariant
            i <= v@.len(),
            n == byte_len(v@.take(i as int)),
            n <= 14,
        decreases v@.len() - i,
    {
        let c = v[i];
        let w: u64 = if (c as u32) < 0x80 {
            1
        } else if (c as u32) < 0x800 {
            2
        } else if (c as u32) < 0x10000 {
            3
        } else {
            4
        };
        assert(v@.take(i + 1).drop_last() =~= v@.take(i as int));
        n = n + w;
        i = i + 1;
    }
    proof {
        lemma_byte_len_grows(v@, i as int);
        if i == v@.len() {
            assert(v@.take(i as int) =~= v@);
        }
    }
    n > 10
}

/// The fields of a Unix line, read from `pos` on: each begins after a run
/// of white space and ends at the next space. Where the line runs out first,
/// there is no such line.
pub open spec fn unix_fields(v: Seq<char>, pos: int, n: nat, acc: Seq<Seq<char>>) -> Option<
    (Seq<Seq<char>>, int),
>
    decreases n,
{
    if n == 0 {
        Some((acc, pos))
    } else {
        let start = crate::text::skip_ws(v, pos);
        let end = find_from(v, ' ', start);
        if end >= v.len() {
            None
        } else {
            unix_fields(v, end, (n - 1) as nat, acc.push(v.subrange(start, end)))
        }
    }
}

/// `rwxr-xr-x` read back into nine bits: every letter but `-` is a set bit.
pub open spec fn mode_bits(letters: Seq<char>) -> nat
    decreases letters.len(),
{
    if letters.len() == 0 {
        0
    } else {
        mode_bits(letters.drop_last()) * 2 + if letters.last() != '-' {
            1nat
        } else {
            0nat
        }
    }
}

/// The nine letters after the type letter, when there are nine.
pub open spec fn mode_letters(mode: Seq<char>) -> Option<Permissions> {
    if mode.len() < 10 {
        None
    } else {
        Some(Permissions(mode_bits(mode.subrange(1, 10)) as u32))
    }
}

proof fn lemma_mode_bits_bound(s: Seq<char>)
    ensures
        mode_bits(s) < pow2_of(s.len()),
    decreases s.len(),
{
    if s.len() > 0 {
        lemma_mode_bits_bound(s.drop_last());
    }
}

pub open spec fn pow2_of(n: nat) -> nat
    decreases n,
{
    if n == 0 {
        1
    } else {
        2 * pow2_of((n - 1) as nat)
    }
}

fn mode_letters_exec(mode: &[char]) -> (r: Option<Permissions>)
    ensures
        r == mode_letters(mode@),
{
    if mode.len() < 10 {
        return None;
    }
    let ghost letters = mode@.subrange(1, 10);
    let mut bits: u32 = 0;
    let mut i: usize = 1;
    while i < 10
        invariant
            1 <= i <= 10 <= mode@.len(),
            letters == mode@.subrange(1, 10),
            bits == mode_bits(letters.take(i - 1)),
            bits < pow2_of((i - 1) as nat),
            pow2_of((i - 1) as nat) <= 512,
        decreases 10 - i,
    {
        proof {
            assert(letters.take(i as int).drop_last() =~= letters.take(i - 1));
            assert(letters.take(i as int).last() == mode@[i as int]);
            reveal_with_fuel(pow2_of, 10);
        }
        let b: u32 = if mode[i] != '-' {
            1
        } else {
            0
        };
        bits = bits * 2 + b;
        i = i + 1;
    }
    assert(letters.take(9) =~= letters);
    Some(Permissions(bits))
}

/// `Sep 11 17:02` or `Sep 11 2025`. A date without a year that would lie
/// more than a day after `now` belongs to the year before.
pub open spec fn unix_time(month: Seq<char>, day: Seq<char>, last: Seq<char>, now: int) -> Option<i64> {
    match (month_from_name(month), parse_unsigned(day, u32::MAX as nat)) {
        (Some(m), Some(d)) => match crate::text::split_once(last, ':') {
            Some((h, mi)) => match (
                parse_unsigned(h, u32::MAX as nat),
                parse_unsigned(mi, u32::MAX as nat),
            ) {
                (Some(hour), Some(minute)) => {
                    let this_year = year_of(now);
                    let candidate = epoch(this_year, m as int, d as int, hour as int, minute as int, 0);
                    as_timestamp(
                        if candidate > now + 86_400 {
                            epoch(this_year - 1, m as int, d as int, hour as int, minute as int, 0)
                        } else {
                            candidate
                        },
                    )
                },
                _ => None,
            },
            None => match parse_i64(last) {
                Some(year) => as_timestamp(epoch(year, m as int, d as int, 0, 0, 0)),
                None => None,
            },
        },
        _ => None,
    }
}

fn unix_time_exec(month: &[char], day: &[char], last: &[char], now: i64) -> (r: Option<i64>)
    ensures
        r == unix_time(month@, day@, last@, now as int),
{
    let m = match month_from_name_exec(month) {
        Some(m) => m,
        None => return None,
    };
    let d = match parse_u32(day) {
        Some(d) => d,
        None => return None,
    };
    match crate::text::split_once_exec(last, ':') {
        Some((h, mi)) => {
            let (hour, minute) = match (parse_u32(&h), parse_u32(&mi)) {
                (Some(a), Some(b)) => (a, b),
                _ => return None,
            };
            let this_year = year_of_exec(now);
            let candidate = epoch_exec(this_year, m, d, hour as u64, minute, 0);
            if candidate > now as i128 + 86_400 {
                as_timestamp_exec(epoch_exec(this_year - 1, m, d, hour as u64, minute, 0))
            } else {
                as_timestamp_exec(candidate)
            }
        },
        None => match parse_i64_exec(last) {
            Some(year) => as_timestamp_exec(epoch_exec(year, m, d, 0, 0, 0)),
            None => None,
        },
    }
}

/// The kind a Unix mode letter stands for.
pub open spec fn unix_kind(c: char) -> EntryKind {
    if c == 'd' {
        EntryKind::Directory
    } else if c == '-' {
        EntryKind::File
    } else if c == 'l' {
        EntryKind::Symlink
    } else {
        EntryKind::Other
    }
}

/// `s.split_once(p)` for a text pattern.
pub open spec fn split_once_text(s: Seq<char>, p: Seq<char>) -> Option<(Seq<char>, Seq<char>)> {
    let i = crate::text::find_seq_from(s, p, 0);
    if i >= 0 {
        Some((s.take(i), s.skip(i + p.len())))
    } else {
        None
    }
}

/// One line in the shape `ls -l` prints. The name is whatever follows the
/// eighth field, spaces and all, and a link is split from its target.
pub open spec fn unix_line(v: Seq<char>, now: int) -> Option<EntryView> {
    match unix_fields(v, 0, 8, Seq::empty()) {
        None => None,
        Some((fields, rest)) => {
            let whole_name = v.subrange(crate::text::skip_ws(v, rest), v.len() as int);
            if whole_name.len() == 0 {
                None
            } else {
                let mode = fields[0];
                let kind = unix_kind(mode[0]);
                let (name, link_target) = match split_once_text(whole_name, " -> "@) {
                    Some((n, t)) => if kind == EntryKind::Symlink {
                        (n, Some(t))
                    } else {
                        (whole_name, None)
                    },
                    None => (whole_name, None),
                };
                Some(
                    EntryView {
                        name,
                        kind,
                        size: if kind == EntryKind::File {
                            match parse_unsigned(fields[4], u64::MAX as nat) {
                                Some(n) => Some(n as u64),
                                None => None,
                            }
                        } else {
                            None
                        },
                        modified: unix_time(fields[5], fields[6], fields[7], now),
                        permissions: mode_letters(mode),
                        owner: Some(fields[2]),
                        group: Some(fields[3]),
                        link_target,
                        kind_of_target: None,
                    },
                )
            }
        },
    }
}

fn split_once_text_exec(v: &[char], p: &str) -> (r: Option<(Vec<char>, Vec<char>)>)
    ensures
        match r {
            Some((a, b)) => split_once_text(v@, p@) == Some((a@, b@)),
            None => split_once_text(v@, p@) is None,
        },
{
    let pat = chars_of(p);
    proof {
        crate::text::lemma_find_seq(v@, pat@, 0);
    }
    match crate::text::find_seq(v, &pat, 0) {
        Some(i) => {
            assert(crate::text::occurs_at(v@, pat@, i as int));
            let len = v.len();
            let n = pat.len();
            let a = slice_range(v, 0, i);
            let b = slice_range(v, i + n, len);
            assert(a@ =~= v@.take(i as int));
            assert(b@ =~= v@.skip(i + pat@.len()));
            Some((a, b))
        },
        None => None,
    }
}

fn unix_line_exec(v: &[char], now: i64) -> (r: Option<DirEntry>)
    ensures
        crate::fs::entry_opt(r) == unix_line(v@, now as int),
{
    let mut fields: Vec<Vec<char>> = Vec::new();
    let mut pos: usize = 0;
    let mut k: usize = 0;
    assert(views(fields@) =~= Seq::<Seq<char>>::empty());
    while k < 8
        invariant
            k <= 8,
            pos <= v@.len(),
            fields@.len() == k,
            unix_fields(v@, 0, 8, Seq::empty()) == unix_fields(
                v@,
                pos as int,
                (8 - k) as nat,
                views(fields@),
            ),
        decreases 8 - k,
    {
        let start = crate::text::skip_ws_at(v, pos);
        proof {
            crate::text::lemma_skip_ws(v@, pos as int);
        }
        let end = crate::text::find_char_from(v, ' ', start);
        proof {
            lemma_find_from(v@, ' ', start as int);
        }
        if end >= v.len() {
            return None;
        }
        let f = slice_range(v, start, end);
        let ghost before = fields@;
        fields.push(f);
        proof {
            assert(views(fields@) =~= views(before).push(v@.subrange(start as int, end as int)));
        }
        pos = end;
        k = k + 1;
    }
    let ghost fs = views(fields@);
    assert(unix_fields(v@, 0, 8, Seq::empty()) == Some((fs, pos as int)));
    proof {
        assert forall|j: int| 0 <= j < 8 implies fs[j] == #[trigger] fields@[j]@ by {}
    }
    let start = crate::text::skip_ws_at(v, pos);
    proof {
        crate::text::lemma_skip_ws(v@, pos as int);
    }
    let whole_name = slice_range(v, start, v.len());
    if whole_name.len() == 0 {
        return None;
    }
    let mode = &fields[0];
    proof {
        assert(mode@.len() > 0) by {
            assert(unix_fields(v@, 0, 8, Seq::empty()) is Some);
            lemma_first_field_not_empty(v@);
        }
    }
    let kind = if mode[0] == 'd' {
        EntryKind::Directory
    } else if mode[0] == '-' {
        EntryKind::File
    } else if mode[0] == 'l' {
        EntryKind::Symlink
    } else {
        EntryKind::Other
    };
    let (name, link_target) = match split_once_text_exec(&whole_name, " -> ") {
        Some((n, t)) => if kind == EntryKind::Symlink {
            (n, Some(string_of(&t)))
        } else {
            (whole_name, None)
        },
        None => (whole_name, None),
    };
    let size = if kind == EntryKind::File {
        parse_u64(&fields[4])
    } else {
        None
    };
    let modified = unix_time_exec(&fields[5], &fields[6], &fields[7], now);
    Some(
        DirEntry {
            name: string_of(&name),
            kind,
            size,
            modified,
            permissions: mode_letters_exec(mode),
            owner: Some(string_of(&fields[2])),
            group: Some(string_of(&fields[3])),
            link_target,
            kind_of_target: None,
        },
    )
}

/// The first field of a Unix line is never empty: it begins where white
/// space ends, and a space is white space.
proof fn lemma_first_field_not_empty(v: Seq<char>)
    requires
        unix_fields(v, 0, 8, Seq::empty()) is Some,
    ensures
        unix_fields(v, 0, 8, Seq::empty())->Some_0.0.len() == 8,
        unix_fields(v, 0, 8, Seq::empty())->Some_0.0[0].len() > 0,
{
    crate::text::lemma_skip_ws(v, 0);
    let start = crate::text::skip_ws(v, 0);
    lemma_find_from(v, ' ', start);
    let end = find_from(v, ' ', start);
    assert(end < v.len());
    assert(start < end) by {
        if start == end {
            assert(crate::text::ws(' '));
        }
    }
    let x = v.subrange(start, end);
    let acc = Seq::<Seq<char>>::empty().push(x);
    assert(unix_fields(v, 0, 8, Seq::empty()) == unix_fields(v, end, 7, acc));
    lemma_fields_keep(v, end, 7, acc);
    let r = unix_fields(v, 0, 8, Seq::empty())->Some_0.0;
    assert(r.take(1)[0] == r[0]);
}

/// Reading more fields keeps the ones already read.
proof fn lemma_fields_keep(v: Seq<char>, pos: int, n: nat, acc: Seq<Seq<char>>)
    requires
        unix_fields(v, pos, n, acc) is Some,
    ensures
        unix_fields(v, pos, n, acc)->Some_0.0.len() == acc.len() + n,
        unix_fields(v, pos, n, acc)->Some_0.0.take(acc.len() as int) == acc,
    decreases n,
{
    if n > 0 {
        let start = crate::text::skip_ws(v, pos);
        let end = find_from(v, ' ', start);
        assert(end < v.len());
        let x = v.subrange(start, end);
        assert(unix_fields(v, pos, n, acc) == unix_fields(v, end, (n - 1) as nat, acc.push(x)));
        lemma_fields_keep(v, end, (n - 1) as nat, acc.push(x));
        let r = unix_fields(v, pos, n, acc)->Some_0.0;
        assert(r.take(acc.len() as int) =~= r.take(acc.len() + 1 as int).take(acc.len() as int));
        assert(acc.push(x).take(acc.len() as int) =~= acc);
    } else {
        let r = unix_fields(v, pos, n, acc)->Some_0.0;
        assert(r.take(acc.len() as int) =~= acc);
    }
}

/// `/` read as `-`, so that a date splits on either.
pub open spec fn dashes(s: Seq<char>) -> Seq<char> {
    s.map_values(|c: char| if c == '/' { '-' } else { c })
}

/// The hour of a twelve-hour clock on a twenty-four-hour one.
pub open spec fn clock_hour(hour: nat, pm: bool, am: bool) -> nat {
    if pm && hour != 12 {
        hour + 12
    } else if !pm && am && hour == 12 {
        0
    } else {
        hour
    }
}

/// `09-11-26` and `05:02PM`, read as UTC. Two-digit years from 70 on are the
/// twentieth century, the rest this one.
pub open spec fn windows_time(date: Seq<char>, time: Seq<char>) -> Option<i64> {
    let parts = split(dashes(date), '-');
    if parts.len() < 3 {
        None
    } else {
        match (
            parse_unsigned(parts[0], u32::MAX as nat),
            parse_unsigned(parts[1], u32::MAX as nat),
            parse_i64(parts[2]),
        ) {
            (Some(month), Some(day), Some(y)) => {
                let year = if y >= 100 {
                    y
                } else if y >= 70 {
                    1900 + y
                } else {
                    2000 + y
                };
                let upper = crate::text::upper_ascii(time);
                let pm = crate::text::ends_with(upper, "PM"@);
                let am = crate::text::ends_with(upper, "AM"@);
                let clock = if pm || am {
                    upper.take(upper.len() - 2)
                } else {
                    upper
                };
                match crate::text::split_once(clock, ':') {
                    None => None,
                    Some((h, m)) => match (
                        parse_unsigned(crate::text::trim(h), u32::MAX as nat),
                        parse_unsigned(crate::text::trim(m), u32::MAX as nat),
                    ) {
                        (Some(hour), Some(minute)) => as_timestamp(
                            epoch(
                                year,
                                month as int,
                                day as int,
                                clock_hour(hour, pm, am) as int,
                                minute as int,
                                0,
                            ),
                        ),
                        _ => None,
                    },
                }
            },
            _ => None,
        }
    }
}

fn windows_time_exec(date: &[char], time: &[char]) -> (r: Option<i64>)
    ensures
        r == windows_time(date@, time@),
{
    let mut d: Vec<char> = Vec::new();
    let mut i: usize = 0;
    while i < date.len()
        invariant
            i <= date@.len(),
            d@ == dashes(date@.take(i as int)),
        decreases date@.len() - i,
    {
        let c = if date[i] == '/' {
            '-'
        } else {
            date[i]
        };
        d.push(c);
        i = i + 1;
        assert(dashes(date@.take(i as int)) =~= dashes(date@.take(i - 1)).push(c));
    }
    assert(date@.take(date@.len() as int) =~= date@);
    let parts = split_pieces(&d, '-');
    if parts.len() < 3 {
        return None;
    }
    proof {
        assert(views(parts@)[0] == parts@[0]@);
        assert(views(parts@)[1] == parts@[1]@);
        assert(views(parts@)[2] == parts@[2]@);
    }
    let (month, day, y) = match (parse_u32(&parts[0]), parse_u32(&parts[1]), parse_i64_exec(&parts[2])) {
        (Some(a), Some(b), Some(c)) => (a, b, c),
        _ => return None,
    };
    let year: i64 = if y >= 100 {
        y
    } else if y >= 70 {
        1900 + y
    } else {
        2000 + y
    };
    let upper = crate::text::uppered(time);
    let pm_text = chars_of("PM");
    let am_text = chars_of("AM");
    let pm = crate::text::ends_with_exec(&upper, &pm_text);
    let am = crate::text::ends_with_exec(&upper, &am_text);
    proof {
        reveal_strlit("PM");
        reveal_strlit("AM");
    }
    let clock = if pm || am {
        slice_range(&upper, 0, upper.len() - 2)
    } else {
        slice_range(&upper, 0, upper.len())
    };
    assert(clock@ =~= (if pm || am {
        upper@.take(upper@.len() - 2)
    } else {
        upper@
    }));
    let (h, m) = match crate::text::split_once_exec(&clock, ':') {
        None => return None,
        Some(hm) => hm,
    };
    let ht = crate::text::trimmed(&h);
    let mt = crate::text::trimmed(&m);
    let (hour, minute) = match (parse_u32(&ht), parse_u32(&mt)) {
        (Some(a), Some(b)) => (a, b),
        _ => return None,
    };
    let hour24: u64 = if pm && hour != 12 {
        hour as u64 + 12
    } else if !pm && am && hour == 12 {
        0
    } else {
        hour as u64
    };
    as_timestamp_exec(epoch_exec(year, month, day, hour24, minute, 0))
}

/// The first three runs of characters that are not white space, as
/// `split_whitespace` yields them: where each begins and ends.
pub open spec fn token_at(v: Seq<char>, pos: int) -> (int, int) {
    let s = crate::text::skip_ws(v, pos);
    (s, crate::text::next_ws(v, s))
}

/// `09-11-26  05:02PM       <DIR>          name`, as IIS prints it. The name is
/// the rest of the line after the place where the third field is first found.
pub open spec fn windows_line(v: Seq<char>) -> Option<EntryView> {
    let (s1, e1) = token_at(v, 0);
    let (s2, e2) = token_at(v, e1);
    let (s3, e3) = token_at(v, e2);
    if s1 >= v.len() || s2 >= v.len() || s3 >= v.len() {
        None
    } else {
        let date = v.subrange(s1, e1);
        let time = v.subrange(s2, e2);
        let third = v.subrange(s3, e3);
        let after = crate::text::find_seq_from(v, third, 0) + third.len();
        let name = v.subrange(crate::text::skip_ws(v, after), v.len() as int);
        if name.len() == 0 {
            None
        } else {
            let dir = crate::text::same_ignoring_case(third, "<DIR>"@);
            Some(
                EntryView {
                    name,
                    kind: if dir {
                        EntryKind::Directory
                    } else {
                        EntryKind::File
                    },
                    size: if dir {
                        None
                    } else {
                        match parse_unsigned(third, u64::MAX as nat) {
                            Some(n) => Some(n as u64),
                            None => None,
                        }
                    },
                    modified: windows_time(date, time),
                    permissions: None,
                    owner: None,
                    group: None,
                    link_target: None,
                    kind_of_target: None,
                },
            )
        }
    }
}

fn token_at_exec(v: &[char], pos: usize) -> (r: (usize, usize))
    requires
        pos <= v@.len(),
    ensures
        (r.0 as int, r.1 as int) == token_at(v@, pos as int),
        r.0 <= r.1 <= v@.len(),
{
    let s = crate::text::skip_ws_at(v, pos);
    proof {
        crate::text::lemma_skip_ws(v@, pos as int);
    }
    let e = crate::text::next_ws_at(v, s);
    proof {
        crate::text::lemma_next_ws(v@, s as int);
    }
    (s, e)
}

fn windows_line_exec(v: &[char]) -> (r: Option<DirEntry>)
    ensures
        crate::fs::entry_opt(r) == windows_line(v@),
{
    let (s1, e1) = token_at_exec(v, 0);
    let (s2, e2) = token_at_exec(v, e1);
    let (s3, e3) = token_at_exec(v, e2);
    let len = v.len();
    if s1 >= len || s2 >= len || s3 >= len {
        return None;
    }
    let date = slice_range(v, s1, e1);
    let time = slice_range(v, s2, e2);
    let third = slice_range(v, s3, e3);
    proof {
        crate::text::lemma_find_seq(v@, third@, 0);
        assert(crate::text::occurs_at(v@, third@, s3 as int)) by {
            assert(v@.subrange(s3 as int, s3 + third@.len()) =~= third@);
        }
    }
    let found = match crate::text::find_seq(v, &third, 0) {
        Some(k) => k,
        None => return None,
    };
    let after = found + third.len();
    let start = crate::text::skip_ws_at(v, after);
    proof {
        crate::text::lemma_skip_ws(v@, after as int);
    }
    let name = slice_range(v, start, len);
    if name.len() == 0 {
        return None;
    }
    let dir_text = chars_of("<DIR>");
    let dir = crate::text::eq_ignore_case(&third, &dir_text);
    let kind = if dir {
        EntryKind::Directory
    } else {
        EntryKind::File
    };
    let size = if dir {
        None
    } else {
        parse_u64(&third)
    };
    Some(
        DirEntry {
            name: string_of(&name),
            kind,
            size,
            modified: windows_time_exec(&date, &time),
            permissions: None,
            owner: None,
            group: None,
            link_target: None,
            kind_of_target: None,
        },
    )
}

/// Whether a line begins with a letter that starts an `ls -l` mode.
pub open spec fn unix_start(c: char) -> bool {
    c == '-' || c == 'd' || c == 'l' || c == 'b' || c == 'c' || c == 'p' || c == 's'
}

/// One `LIST` line, in whichever dialect the server speaks: one that begins
/// like an `ls -l` mode and runs past ten bytes is read as Unix, anything else
/// as Windows. `now` places a date that has no year.
pub open spec fn list_line(line: Seq<char>, now: int) -> Option<EntryView> {
    let l = crate::text::strip_line_end(line);
    if l.len() == 0 {
        None
    } else if unix_start(l[0]) && byte_len(l) > 10 {
        unix_line(l, now)
    } else {
        windows_line(l)
    }
}

/// One `LIST` line, in whichever dialect the server speaks.
pub fn parse_list_line(line: &str, now: i64) -> (r: Option<DirEntry>)
    ensures
        crate::fs::entry_opt(r) == list_line(line@, now as int),
{
    let raw = chars_of(line);
    let l = crate::text::strip_line_end_exec(&raw);
    if l.len() == 0 {
        return None;
    }
    let c = l[0];
    let unix_like = c == '-' || c == 'd' || c == 'l' || c == 'b' || c == 'c' || c == 'p' || c == 's';
    if unix_like && longer_than_ten_bytes(&l) {
        unix_line_exec(&l, now)
    } else {
        windows_line_exec(&l)
    }
}

/// Whether a text begins with the three characters `x`, `y`, `z`.
pub open spec fn begins(s: Seq<char>, x: char, y: char, z: char) -> bool {
    s.len() >= 3 && s[0] == x && s[1] == y && s[2] == z
}

proof fn lemma_starts_with_three(f: Seq<char>, p: Seq<char>)
    requires
        p.len() == 3,
    ensures
        crate::text::starts_with(f, p) == begins(f, p[0], p[1], p[2]),
{
    if begins(f, p[0], p[1], p[2]) {
        assert(f.take(3) =~= p);
    }
    if crate::text::starts_with(f, p) {
        assert(f.take(3)[0] == f[0] && f.take(3)[1] == f[1] && f.take(3)[2] == f[2]);
    }
}

/// A month is named by the first three letters of its English name, in any
/// case, and months count from January as one to December as twelve; a
/// name that begins with none of them names no month.
pub proof fn months_count_in_calendar_order(name: Seq<char>)
    ensures
        begins(folded(name), 'j', 'a', 'n') ==> month_from_name(name) == Some(1u32),
        begins(folded(name), 'f', 'e', 'b') ==> month_from_name(name) == Some(2u32),
        begins(folded(name), 'm', 'a', 'r') ==> month_from_name(name) == Some(3u32),
        begins(folded(name), 'a', 'p', 'r') ==> month_from_name(name) == Some(4u32),
        begins(folded(name), 'm', 'a', 'y') ==> month_from_name(name) == Some(5u32),
        begins(folded(name), 'j', 'u', 'n') ==> month_from_name(name) == Some(6u32),
        begins(folded(name), 'j', 'u', 'l') ==> month_from_name(name) == Some(7u32),
        begins(folded(name), 'a', 'u', 'g') ==> month_from_name(name) == Some(8u32),
        begins(folded(name), 's', 'e', 'p') ==> month_from_name(name) == Some(9u32),
        begins(folded(name), 'o', 'c', 't') ==> month_from_name(name) == Some(10u32),
        begins(folded(name), 'n', 'o', 'v') ==> month_from_name(name) == Some(11u32),
        begins(folded(name), 'd', 'e', 'c') ==> month_from_name(name) == Some(12u32),
        !(begins(folded(name), 'j', 'a', 'n') || begins(folded(name), 'f', 'e', 'b') || begins(
            folded(name),
            'm',
            'a',
            'r',
        ) || begins(folded(name), 'a', 'p', 'r') || begins(folded(name), 'm', 'a', 'y') || begins(
            folded(name),
            'j',
            'u',
            'n',
        ) || begins(folded(name), 'j', 'u', 'l') || begins(folded(name), 'a', 'u', 'g') || begins(
            folded(name),
            's',
            'e',
            'p',
        ) || begins(folded(name), 'o', 'c', 't') || begins(folded(name), 'n', 'o', 'v') || begins(
            folded(name),
            'd',
            'e',
            'c',
        )) ==> month_from_name(name) is None,
{
    let f = folded(name);
    let m = month_names();
    assert forall|i: int| 0 <= i < 12 implies #[trigger] m[i].len() == 3 && crate::text::starts_with(f, m[i])
        == begins(f, m[i][0], m[i][1], m[i][2]) by {
        lemma_starts_with_three(f, m[i]);
    }
    assert(m[0][0] == 'j' && m[0][1] == 'a' && m[0][2] == 'n');
    assert(m[1][0] == 'f' && m[1][1] == 'e' && m[1][2] == 'b');
    assert(m[2][0] == 'm' && m[2][1] == 'a' && m[2][2] == 'r');
    assert(m[3][0] == 'a' && m[3][1] == 'p' && m[3][2] == 'r');
    assert(m[4][0] == 'm' && m[4][1] == 'a' && m[4][2] == 'y');
    assert(m[5][0] == 'j' && m[5][1] == 'u' && m[5][2] == 'n');
    assert(m[6][0] == 'j' && m[6][1] == 'u' && m[6][2] == 'l');
    assert(m[7][0] == 'a' && m[7][1] == 'u' && m[7][2] == 'g');
    assert(m[8][0] == 's' && m[8][1] == 'e' && m[8][2] == 'p');
    assert(m[9][0] == 'o' && m[9][1] == 'c' && m[9][2] == 't');
    assert(m[10][0] == 'n' && m[10][1] == 'o' && m[10][2] == 'v');
    assert(m[11][0] == 'd' && m[11][1] == 'e' && m[11][2] == 'c');
    reveal_with_fuel(month_from, 13);
}

} // verus!
