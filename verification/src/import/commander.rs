//! `wcx_ftp.ini`, the FTP plug-in of Total Commander.
//!
//! One section per connection, and a password stored as hex. The method behind
//! it is a small generator run from four fixed starting points: rotate every
//! byte, shuffle the lot, exclusive-or, subtract. None of that is encryption:
//! there is no key, and the same four numbers read it back.
use vstd::prelude::*;
use vstd::utf8::{decode_utf8, encode_utf8, valid_utf8};

use super::ini::{
    hex_bytes, says_one, section_view, sections_view, value_in, value_is_one, without_ws, Section,
    SectionView,
};
use super::{gathered, imported_view, imported_views, opt_view, with_password_view, Found, Imported, ImportedView, Source};
use crate::config::AuthKind;
use crate::endpoint::Protocol;
use crate::ftp::Encryption;
use crate::text::{chars_of, parse_unsigned, rsplit_once, same_ignoring_case, split_once, string_of, trim};

verus! {

/// The generator the method is built on: a linear congruence run from a
/// known starting point. Its state is the number it holds.
pub struct Generator(pub u32);

/// The state after one step.
pub open spec fn next_state(s: u32) -> u32 {
    ((s as int * Generator::MULTIPLIER as int + 1) % 0x1_0000_0000) as u32
}

/// A state scaled to a number below `limit`.
pub open spec fn scaled(s: u32, limit: u32) -> u32 {
    ((s as int * limit as int) / 0x1_0000_0000) as u32
}

/// The state after `n` steps from `seed`.
pub open spec fn state_after(seed: u32, n: nat) -> u32
    decreases n,
{
    if n == 0 {
        seed
    } else {
        next_state(state_after(seed, (n - 1) as nat))
    }
}

/// The `n`-th number (counting from 0) a generator started at `seed` draws
/// below `limit`.
pub open spec fn draw(seed: u32, n: nat, limit: u32) -> u32 {
    scaled(state_after(seed, n + 1), limit)
}

impl Generator {
    pub const MULTIPLIER: u64 = 0x0808_8405;

    /// One step, and a number below `limit` (0 when `limit` is 0).
    pub fn below(&mut self, limit: u32) -> (r: u32)
        ensures
            final(self).0 == next_state(old(self).0),
            r == scaled(final(self).0, limit),
            limit > 0 ==> r < limit,
    {
        let s = self.0 as u64;
        assert(s * 0x0808_8405 <= 0xFFFF_FFFFu64 * 0x0808_8405) by (nonlinear_arith)
            requires
                s <= 0xFFFF_FFFFu64,
        ;
        let next = ((s * Self::MULTIPLIER + 1) % 0x1_0000_0000) as u32;
        self.0 = next;
        let n = next as u64;
        let l = limit as u64;
        assert(n * l <= 0xFFFF_FFFFu64 * 0xFFFF_FFFFu64) by (nonlinear_arith)
            requires
                n <= 0xFFFF_FFFFu64,
                l <= 0xFFFF_FFFFu64,
        ;
        assert(n * l < 0x1_0000_0000 * l || l == 0) by (nonlinear_arith)
            requires
                n < 0x1_0000_0000,
        ;
        let r = (n * l) / 0x1_0000_0000;
        assert(r <= l) by (nonlinear_arith)
            requires
                r == (n * l) / 0x1_0000_0000,
                n * l < 0x1_0000_0000 * l || l == 0,
        ;
        assert(l > 0 ==> r < l) by (nonlinear_arith)
            requires
                r == (n * l) / 0x1_0000_0000,
                n * l < 0x1_0000_0000 * l || l == 0,
        ;
        r as u32
    }
}

/// A byte rotated left by `n` places, `n` below 8.
pub open spec fn rotl(x: u8, n: u32) -> u8 {
    if n == 0 {
        x
    } else {
        ((x << n) | (x >> (8 - n))) as u8
    }
}

fn rotate(x: u8, n: u32) -> (r: u8)
    requires
        n < 8,
    ensures
        r == rotl(x, n),
{
    if n == 0 {
        x
    } else {
        (x << n) | (x >> (8 - n))
    }
}

/// The first pass undone: every byte below `len` rotated by the next draw
/// below 8 from 849521.
pub open spec fn rotated(b: Seq<u8>, len: nat) -> Seq<u8> {
    Seq::new(
        b.len(),
        |i: int|
            if i < len {
                rotl(b[i], draw(849_521, i as nat, 8))
            } else {
                b[i]
            },
    )
}

pub open spec fn swapped(b: Seq<u8>, x: int, y: int) -> Seq<u8> {
    b.update(x, b[y]).update(y, b[x])
}

/// The first `k` of the swaps, each between the next two draws below `limit`
/// from 12345.
pub open spec fn shuffled(b: Seq<u8>, limit: u32, k: nat) -> Seq<u8>
    decreases k,
{
    if k == 0 {
        b
    } else {
        let j = (k - 1) as nat;
        swapped(
            shuffled(b, limit, j),
            draw(12_345, 2 * j, limit) as int,
            draw(12_345, 2 * j + 1, limit) as int,
        )
    }
}

/// Every byte below `len` exclusive-ored with the next draw below 256 from
/// 42340.
pub open spec fn masked(b: Seq<u8>, len: nat) -> Seq<u8> {
    Seq::new(
        b.len(),
        |i: int|
            if i < len {
                b[i] ^ (draw(42_340, i as nat, 256) as u8)
            } else {
                b[i]
            },
    )
}

/// Every byte below `len` less the next draw below 256 from 54321, wrapping.
pub open spec fn shifted(b: Seq<u8>, len: nat) -> Seq<u8> {
    Seq::new(
        b.len(),
        |i: int|
            if i < len {
                b[i].wrapping_sub(draw(54_321, i as nat, 256) as u8)
            } else {
                b[i]
            },
    )
}

/// The four passes undone on the stored bytes, and the check at the end left
/// off.
pub open spec fn unscrambled(b: Seq<u8>) -> Seq<u8> {
    let len = (b.len() - 4) as nat;
    shifted(masked(shuffled(rotated(b, len), len as u32, 256), len), len).take(len as int)
}

/// What `char::is_control` answers: the characters of Unicode's category Cc.
pub open spec fn is_control(c: char) -> bool {
    c <= '\u{1f}' || ('\u{7f}' <= c && c <= '\u{9f}')
}

/// Text that can be a password: not empty, and no control character in it.
pub open spec fn readable(t: Seq<char>) -> bool {
    t.len() > 0 && forall|i: int| 0 <= i < t.len() ==> !is_control(#[trigger] t[i])
}

/// What a stored value holds: its hex read as bytes, the passes undone, and
/// the result taken only where it reads as text that can be a password.
pub open spec fn spec_decode(stored: Seq<char>) -> Option<Seq<char>> {
    let hex = encode_utf8(without_ws(stored));
    if hex.len() == 0 || hex.len() % 2 != 0 {
        None
    } else {
        match hex_bytes(hex) {
            None => None,
            Some(bytes) => if bytes.len() <= 4 {
                None
            } else {
                let plain = unscrambled(bytes);
                if valid_utf8(plain) && readable(decode_utf8(plain)) {
                    Some(decode_utf8(plain))
                } else {
                    None
                }
            },
        }
    }
}

pub(crate) fn readable_exec(t: &str) -> (b: bool)
    ensures
        b == readable(t@),
{
    let v = chars_of(t);
    if v.len() == 0 {
        return false;
    }
    let mut i: usize = 0;
    while i < v.len()
        invariant
            i <= v@.len(),
            v@ == t@,
            forall|j: int| 0 <= j < i ==> !is_control(#[trigger] v@[j]),
        decreases v@.len() - i,
    {
        let c = v[i];
        if c <= '\u{1f}' || ('\u{7f}' <= c && c <= '\u{9f}') {
            return false;
        }
        i = i + 1;
    }
    true
}

/// Turns a stored password back into the password; `None` where the value
/// is not one.
pub fn decode(stored: &str) -> (r: Option<String>)
    ensures
        match r {
            Some(p) => spec_decode(stored@) == Some(p@),
            None => spec_decode(stored@) is None,
        },
{
    let stripped = super::ini::strip_ws(stored);
    let hex = stripped.as_str().as_bytes();
    if hex.len() == 0 || hex.len() % 2 != 0 {
        return None;
    }
    let mut bytes = match super::ini::hex_bytes_exec(hex) {
        Some(b) => b,
        None => {
            return None;
        },
    };
    if bytes.len() <= 4 {
        return None;
    }
    let length = bytes.len() - 4;
    let ghost stored_bytes = bytes@;
    let ghost len = length as nat;

    let mut turn = Generator(849_521);
    let mut i: usize = 0;
    while i < length
        invariant
            i <= length,
            length == bytes@.len() - 4,
            bytes@.len() == stored_bytes.len(),
            len == length,
            turn.0 == state_after(849_521, i as nat),
            forall|j: int| 0 <= j < i ==> #[trigger] bytes@[j] == rotl(stored_bytes[j], draw(849_521, j as nat, 8)),
            forall|j: int| i <= j < bytes@.len() ==> #[trigger] bytes@[j] == stored_bytes[j],
        decreases length - i,
    {
        let t = turn.below(8);
        let b = rotate(bytes[i], t);
        bytes.set(i, b);
        i = i + 1;
    }
    let ghost after_turn = bytes@;
    assert(after_turn =~= rotated(stored_bytes, len));

    let limit = length as u32;
    assert(limit <= length) by (bit_vector)
        requires
            limit == length as u32,
    ;
    let mut shuffle = Generator(12_345);
    let mut k: usize = 0;
    while k < 256
        invariant
            k <= 256,
            length == bytes@.len() - 4,
            limit <= length,
            len == length,
            limit == len as u32,
            shuffle.0 == state_after(12_345, 2 * k as nat),
            bytes@ == shuffled(after_turn, limit, k as nat),
        decreases 256 - k,
    {
        let a = shuffle.below(limit) as usize;
        let b = shuffle.below(limit) as usize;
        proof {
            assert(state_after(12_345, 2 * k as nat + 1) == next_state(state_after(12_345, 2 * k as nat)));
            assert(state_after(12_345, 2 * k as nat + 2) == next_state(state_after(12_345, 2 * k as nat + 1)));
        }
        let ghost before = bytes@;
        let x = bytes[a];
        let y = bytes[b];
        bytes.set(a, y);
        bytes.set(b, x);
        assert(bytes@ =~= swapped(before, a as int, b as int));
        k = k + 1;
    }
    let ghost after_shuffle = bytes@;

    let mut mask = Generator(42_340);
    let mut i: usize = 0;
    while i < length
        invariant
            i <= length,
            length == bytes@.len() - 4,
            bytes@.len() == after_shuffle.len(),
            mask.0 == state_after(42_340, i as nat),
            forall|j: int| 0 <= j < i ==> #[trigger] bytes@[j] == after_shuffle[j] ^ (draw(42_340, j as nat, 256) as u8),
            forall|j: int| i <= j < bytes@.len() ==> #[trigger] bytes@[j] == after_shuffle[j],
        decreases length - i,
    {
        let m = mask.below(256) as u8;
        let b = bytes[i] ^ m;
        bytes.set(i, b);
        i = i + 1;
    }
    let ghost after_mask = bytes@;
    assert(after_mask =~= masked(after_shuffle, len));

    let mut shift = Generator(54_321);
    let mut i: usize = 0;
    while i < length
        invariant
            i <= length,
            length == bytes@.len() - 4,
            bytes@.len() == after_mask.len(),
            shift.0 == state_after(54_321, i as nat),
            forall|j: int| 0 <= j < i ==> #[trigger] bytes@[j] == after_mask[j].wrapping_sub(draw(54_321, j as nat, 256) as u8),
            forall|j: int| i <= j < bytes@.len() ==> #[trigger] bytes@[j] == after_mask[j],
        decreases length - i,
    {
        let s = shift.below(256) as u8;
        let b = bytes[i].wrapping_sub(s);
        bytes.set(i, b);
        i = i + 1;
    }
    assert(bytes@ =~= shifted(after_mask, len));
    bytes.truncate(length);
    assert(bytes@ =~= unscrambled(stored_bytes));
    if !crate::editing::utf8_ok(&bytes) {
        return None;
    }
    let text = crate::editing::utf8_text(&bytes);
    if readable_exec(text.as_str()) {
        Some(text)
    } else {
        None
    }
}

/// The connection one section describes, if it describes one.
pub open spec fn entry_of(s: SectionView) -> Option<ImportedView> {
    if s.name.len() == 0 || same_ignoring_case(s.name, "default"@) {
        None
    } else {
        match value_in(s.entries, "host"@, 0) {
            None => None,
            Some(raw) => {
                let (address, from_path) = match split_once(raw, '/') {
                    Some((a, rest)) => (a, Some(seq!['/'] + rest)),
                    None => (raw, None),
                };
                let (host, port) = match rsplit_once(address, ':') {
                    Some((h, p)) => (h, parse_unsigned(p, u16::MAX as nat)),
                    None => (address, None),
                };
                if host.len() == 0 {
                    None
                } else {
                    let secure = says_one(value_in(s.entries, "ssl"@, 0)) || says_one(
                        value_in(s.entries, "usetls"@, 0),
                    );
                    let password = match value_in(s.entries, "password"@, 0) {
                        Some(p) => spec_decode(p),
                        None => None,
                    };
                    let entry = ImportedView {
                        name: s.name,
                        folder: Seq::empty(),
                        protocol: if secure {
                            Protocol::Ftps
                        } else {
                            Protocol::Ftp
                        },
                        host,
                        port: match port {
                            Some(n) => n as u16,
                            None => 21,
                        },
                        user: match value_in(s.entries, "username"@, 0) {
                            Some(u) => u,
                            None => Seq::empty(),
                        },
                        auth: AuthKind::Password,
                        key_path: None,
                        remote_path: match value_in(s.entries, "remotedir"@, 0) {
                            Some(d) => if d.len() > 0 {
                                Some(d)
                            } else {
                                from_path
                            },
                            None => from_path,
                        },
                        encryption: if secure {
                            Some(Encryption::Explicit)
                        } else {
                            None
                        },
                        has_password: false,
                        password: None,
                    };
                    Some(with_password_view(entry, password))
                }
            },
        }
    }
}

/// Every connection a file describes, in order.
pub open spec fn spec_parse(text: Seq<char>) -> Seq<ImportedView> {
    gathered(super::ini::spec_parse(text), |s: SectionView| entry_of(s))
}

fn entry_exec(section: &Section) -> (r: Option<Imported>)
    ensures
        opt_view(r) == entry_of(section_view(*section)),
{
    let ghost sv = section_view(*section);
    let name = chars_of(section.name.as_str());
    let default_word = chars_of("default");
    if name.len() == 0 || crate::text::eq_ignore_case(&name, &default_word) {
        return None;
    }
    let raw = match section.get("host") {
        Some(h) => chars_of(h),
        None => {
            return None;
        },
    };
    let (address, from_path) = match crate::text::split_once_exec(&raw, '/') {
        Some((a, rest)) => {
            let mut p: Vec<char> = vec!['/'];
            crate::text::append_chars(&mut p, &rest);
            assert(p@ =~= seq!['/'] + rest@);
            (a, Some(string_of(&p)))
        },
        None => (raw, None),
    };
    let (host, port) = match crate::text::rsplit_once_exec(&address, ':') {
        Some((h, p)) => (h, crate::text::parse_u16(&p)),
        None => (address, None),
    };
    if host.len() == 0 {
        return None;
    }
    let secure = value_is_one(section, "ssl") || value_is_one(section, "usetls");
    let password = match section.get("password") {
        Some(p) => decode(p),
        None => None,
    };
    let mut entry = Imported::named(section.name.as_str());
    entry.protocol = if secure {
        Protocol::Ftps
    } else {
        Protocol::Ftp
    };
    entry.encryption = if secure {
        Some(Encryption::Explicit)
    } else {
        None
    };
    entry.host = string_of(&host);
    entry.port = match port {
        Some(n) => n,
        None => 21,
    };
    entry.user = match section.get("username") {
        Some(u) => u.to_string(),
        None => String::new(),
    };
    entry.auth = AuthKind::Password;
    entry.remote_path = match section.get("remotedir") {
        Some(d) => if !d.is_empty() {
            Some(d.to_string())
        } else {
            from_path
        },
        None => from_path,
    };
    let done = entry.with_password(password);
    proof {
        let want = entry_of(sv);
        assert(imported_view(done).host == want->Some_0.host);
        assert(imported_view(done).port == want->Some_0.port);
        assert(imported_view(done).remote_path == want->Some_0.remote_path);
        assert(imported_view(done).password == want->Some_0.password);
        assert(imported_view(done).has_password == want->Some_0.has_password);
        assert(imported_view(done).name == want->Some_0.name);
        assert(imported_view(done).folder == want->Some_0.folder);
        assert(imported_view(done).protocol == want->Some_0.protocol);
        assert(imported_view(done).user == want->Some_0.user);
        assert(imported_view(done).auth == want->Some_0.auth);
        assert(imported_view(done).key_path == want->Some_0.key_path);
        assert(imported_view(done).encryption == want->Some_0.encryption);
        assert(imported_view(done) == want->Some_0);
    }
    Some(done)
}

/// Reads a file into its connections.
pub fn parse(text: &str, path: &str) -> (found: Found)
    ensures
        found.source == Source::WcxFtp,
        found.path@ == path@,
        imported_views(found.entries@) == spec_parse(text@),
        found.warnings@.len() == 0,
{
    let sections = super::ini::parse(text);
    let ghost secs = sections_view(sections@);
    let mut found = Found::new(Source::WcxFtp, path);
    let mut i: usize = 0;
    assert(imported_views(found.entries@) =~= Seq::<ImportedView>::empty());
    assert(secs.take(0) =~= Seq::<SectionView>::empty());
    while i < sections.len()
        invariant
            i <= sections@.len(),
            secs == sections_view(sections@),
            secs == super::ini::spec_parse(text@),
            found.source == Source::WcxFtp,
            found.path@ == path@,
            found.warnings@.len() == 0,
            imported_views(found.entries@) == gathered(secs.take(i as int), |s: SectionView| entry_of(s)),
        decreases sections@.len() - i,
    {
        assert(secs.take(i + 1).drop_last() =~= secs.take(i as int));
        assert(secs.take(i + 1).last() == section_view(sections@[i as int]));
        let ghost before = found.entries@;
        match entry_exec(&sections[i]) {
            Some(e) => {
                found.entries.push(e);
                assert(imported_views(found.entries@) =~= imported_views(before).push(imported_view(e)));
            },
            None => {},
        }
        i = i + 1;
    }
    assert(secs.take(i as int) =~= secs);
    found
}

/// An entry read from a section carries the section's name, and as its user
/// the value of the section's `username` key (the first one, in any case),
/// or no user where the section has none.
pub proof fn the_user_is_the_username(s: SectionView)
    ensures
        entry_of(s) matches Some(e) ==> e.name == s.name && e.user == match value_in(
            s.entries,
            seq!['u', 's', 'e', 'r', 'n', 'a', 'm', 'e'],
            0,
        ) {
            Some(u) => u,
            None => Seq::<char>::empty(),
        },
{
    reveal_strlit("username");
    assert("username"@ =~= seq!['u', 's', 'e', 'r', 'n', 'a', 'm', 'e']);
}

} // verus!
