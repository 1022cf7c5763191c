//! A small INI reader: sections in square brackets, `key=value` lines,
//! comments, and values left alone otherwise.
use vstd::prelude::*;
use vstd::utf8::encode_utf8;

use crate::text::{
    chars_of, lemma_split_not_empty, parse_unsigned, same_ignoring_case, split, split_pieces,
    string_of, trim, trim_end, trim_start, views,
};

verus! {

/// One section, in the order the file had them.
#[derive(Debug, Clone, PartialEq, Eq)]
pub struct Section {
    pub name: String,
    pub entries: Vec<(String, String)>,
}

/// A section as plain values.
pub struct SectionView {
    pub name: Seq<char>,
    pub entries: Seq<(Seq<char>, Seq<char>)>,
}

pub open spec fn pair_view(p: (String, String)) -> (Seq<char>, Seq<char>) {
    (p.0@, p.1@)
}

pub open spec fn section_view(s: Section) -> SectionView {
    SectionView { name: s.name@, entries: s.entries@.map_values(|p: (String, String)| pair_view(p)) }
}

pub open spec fn sections_view(v: Seq<Section>) -> Seq<SectionView> {
    v.map_values(|s: Section| section_view(s))
}

/// The value of the first entry whose key is `key`, case ignored.
pub open spec fn value_in(entries: Seq<(Seq<char>, Seq<char>)>, key: Seq<char>, i: int) -> Option<Seq<char>>
    decreases entries.len() - i,
{
    if i < 0 || i >= entries.len() {
        None
    } else if same_ignoring_case(entries[i].0, key) {
        Some(entries[i].1)
    } else {
        value_in(entries, key, i + 1)
    }
}

/// A number type a value can be read as.
pub trait Number: Sized {
    /// What `str::parse` makes of a text.
    spec fn parsed(s: Seq<char>) -> Option<Self>;

    fn parse_text(s: &[char]) -> (r: Option<Self>)
        ensures
            r == Self::parsed(s@),
    ;
}

impl Number for u16 {
    open spec fn parsed(s: Seq<char>) -> Option<u16> {
        match parse_unsigned(s, u16::MAX as nat) {
            Some(n) => Some(n as u16),
            None => None,
        }
    }

    fn parse_text(s: &[char]) -> (r: Option<u16>) {
        crate::text::parse_u16(s)
    }
}

impl Number for u32 {
    open spec fn parsed(s: Seq<char>) -> Option<u32> {
        match parse_unsigned(s, u32::MAX as nat) {
            Some(n) => Some(n as u32),
            None => None,
        }
    }

    fn parse_text(s: &[char]) -> (r: Option<u32>) {
        crate::text::parse_u32(s)
    }
}

impl Number for u8 {
    open spec fn parsed(s: Seq<char>) -> Option<u8> {
        match parse_unsigned(s, u8::MAX as nat) {
            Some(n) => Some(n as u8),
            None => None,
        }
    }

    fn parse_text(s: &[char]) -> (r: Option<u8>) {
        crate::text::parse_u8(s)
    }
}

impl Section {
    /// The value of a key, compared without regard to case.
    pub fn get(&self, key: &str) -> (r: Option<&str>)
        ensures
            match r {
                Some(v) => value_in(section_view(*self).entries, key@, 0) == Some(v@),
                None => value_in(section_view(*self).entries, key@, 0) is None,
            },
    {
        let k = chars_of(key);
        let ghost entries = section_view(*self).entries;
        let mut i: usize = 0;
        while i < self.entries.len()
            invariant
                i <= self.entries@.len(),
                k@ == key@,
                entries == section_view(*self).entries,
                value_in(entries, key@, 0) == value_in(entries, key@, i as int),
            decreases self.entries@.len() - i,
        {
            let name = chars_of(self.entries[i].0.as_str());
            assert(entries[i as int] == pair_view(self.entries@[i as int]));
            if crate::text::eq_ignore_case(&name, &k) {
                return Some(self.entries[i].1.as_str());
            }
            i = i + 1;
        }
        None
    }

    /// The value of a key, trimmed and read as a number.
    pub fn number<T: Number>(&self, key: &str) -> (r: Option<T>)
        ensures
            r == match value_in(section_view(*self).entries, key@, 0) {
                Some(v) => T::parsed(trim(v)),
                None => None,
            },
    {
        match self.get(key) {
            Some(v) => {
                let c = chars_of(v);
                let t = crate::text::trimmed(&c);
                T::parse_text(&t)
            },
            None => None,
        }
    }
}

/// The lines of a text, as `str::lines` gives them when every carriage return
/// at the end of a line is dropped as well.
pub open spec fn lines_of(text: Seq<char>) -> Seq<Seq<char>> {
    let p = split(text, '\n');
    if p.last().len() == 0 {
        p.drop_last()
    } else {
        p
    }
}

/// A line without the carriage returns at its end.
pub open spec fn without_cr(s: Seq<char>) -> Seq<char>
    decreases s.len(),
{
    if s.len() > 0 && s.last() == '\r' {
        without_cr(s.drop_last())
    } else {
        s
    }
}

/// The name a line gives a section, when it is a header: `[name]`, with
/// white space around the brackets and inside them dropped.
pub open spec fn header_of(line: Seq<char>) -> Option<Seq<char>> {
    let t = trim_end(line);
    if t.len() >= 2 && t[0] == '[' && t.last() == ']' {
        Some(trim(t.subrange(1, t.len() - 1)))
    } else {
        None
    }
}

/// What one line does to the sections read so far: a comment or a blank
/// line nothing, a header opens a section, a `key=value` line adds to the last
/// one, with the key trimmed and the value kept as written after the `=`.
pub open spec fn read_line(sections: Seq<SectionView>, raw: Seq<char>) -> Seq<SectionView> {
    let line = trim_start(without_cr(raw));
    if line.len() == 0 || line[0] == ';' || line[0] == '#' {
        sections
    } else {
        match header_of(line) {
            Some(name) => sections.push(SectionView { name, entries: Seq::empty() }),
            None => match crate::text::split_once(line, '=') {
                Some((key, value)) => {
                    let last = sections.last();
                    sections.update(
                        sections.len() - 1,
                        SectionView {
                            name: last.name,
                            entries: last.entries.push((trim(key), trim_start(value))),
                        },
                    )
                },
                None => sections,
            },
        }
    }
}

pub open spec fn read_lines(sections: Seq<SectionView>, lines: Seq<Seq<char>>) -> Seq<SectionView>
    decreases lines.len(),
{
    if lines.len() == 0 {
        sections
    } else {
        read_line(read_lines(sections, lines.drop_last()), lines.last())
    }
}

/// Whether a section is worth keeping: it has a name or something in it.
pub open spec fn kept(s: SectionView) -> bool {
    s.name.len() > 0 || s.entries.len() > 0
}

/// The sections of a text. What comes before the first header is filed under
/// the empty name, and a section with neither name nor entries is dropped.
pub open spec fn spec_parse(text: Seq<char>) -> Seq<SectionView> {
    read_lines(seq![SectionView { name: Seq::empty(), entries: Seq::empty() }], lines_of(text)).filter(
        |s: SectionView| kept(s),
    )
}

proof fn lemma_read_lines_not_empty(sections: Seq<SectionView>, lines: Seq<Seq<char>>)
    requires
        sections.len() > 0,
    ensures
        read_lines(sections, lines).len() > 0,
    decreases lines.len(),
{
    if lines.len() > 0 {
        lemma_read_lines_not_empty(sections, lines.drop_last());
    }
}

fn without_cr_exec(v: &[char]) -> (out: Vec<char>)
    ensures
        out@ == without_cr(v@),
{
    let mut j: usize = v.len();
    assert(v@.take(v@.len() as int) =~= v@);
    while j > 0 && v[j - 1] == '\r'
        invariant
            j <= v@.len(),
            without_cr(v@) == without_cr(v@.take(j as int)),
        decreases j,
    {
        assert(v@.take(j as int).drop_last() =~= v@.take(j - 1));
        j = j - 1;
    }
    let out = crate::text::slice_range(v, 0, j);
    assert(out@ =~= v@.take(j as int));
    out
}

fn header_exec(line: &[char]) -> (r: Option<Vec<char>>)
    ensures
        match r {
            Some(n) => header_of(line@) == Some(n@),
            None => header_of(line@) is None,
        },
{
    let t = crate::text::trimmed_end(line);
    if t.len() >= 2 && t[0] == '[' && t[t.len() - 1] == ']' {
        let inner = crate::text::slice_range(&t, 1, t.len() - 1);
        Some(crate::text::trimmed(&inner))
    } else {
        None
    }
}

fn section_of(name: Vec<char>) -> (s: Section)
    ensures
        section_view(s) == (SectionView { name: name@, entries: Seq::empty() }),
{
    let s = Section { name: string_of(&name), entries: Vec::new() };
    assert(section_view(s).entries =~= Seq::<(Seq<char>, Seq<char>)>::empty());
    s
}

/// Splits text into sections.
pub fn parse(text: &str) -> (sections: Vec<Section>)
    ensures
        sections_view(sections@) == spec_parse(text@),
{
    let chars = chars_of(text);
    let pieces = split_pieces(&chars, '\n');
    proof {
        lemma_split_not_empty(text@, '\n');
    }
    let count = if pieces[pieces.len() - 1].len() == 0 {
        pieces.len() - 1
    } else {
        pieces.len()
    };
    let ghost lines = lines_of(text@);
    proof {
        assert(views(pieces@).last() == pieces@[pieces@.len() - 1]@);
        assert(lines =~= views(pieces@).take(count as int));
    }
    let mut sections: Vec<Section> = Vec::new();
    sections.push(section_of(Vec::new()));
    let ghost start = seq![SectionView { name: Seq::empty(), entries: Seq::empty() }];
    assert(sections_view(sections@) =~= start);
    let mut i: usize = 0;
    while i < count
        invariant
            count <= pieces@.len(),
            lines == views(pieces@).take(count as int),
            i <= count,
            sections@.len() > 0,
            sections_view(sections@) == read_lines(start, lines.take(i as int)),
        decreases count - i,
    {
        proof {
            assert(lines.take(i + 1).drop_last() =~= lines.take(i as int));
            assert(lines.take(i + 1).last() == pieces@[i as int]@);
        }
        let raw = &pieces[i];
        let no_cr = without_cr_exec(raw);
        let line = crate::text::trimmed_start(&no_cr);
        let ghost before = sections_view(sections@);
        if line.len() == 0 || line[0] == ';' || line[0] == '#' {
        } else {
            match header_exec(&line) {
                Some(name) => {
                    sections.push(section_of(name));
                    assert(sections_view(sections@) =~= before.push(
                        SectionView { name: name@, entries: Seq::empty() },
                    ));
                },
                None => match crate::text::split_once_exec(&line, '=') {
                    Some((key, value)) => {
                        let k = crate::text::trimmed(&key);
                        let v = crate::text::trimmed_start(&value);
                        let ks = string_of(&k);
                        let vs = string_of(&v);
                        let last = sections.len() - 1;
                        let mut section = sections.remove(last);
                        let ghost old_section = section;
                        assert(section_view(old_section) == before.last());
                        section.entries.push((ks, vs));
                        assert(section_view(section).entries =~= section_view(
                            old_section,
                        ).entries.push((k@, v@)));
                        sections.push(section);
                        assert(sections_view(sections@) =~= before.update(
                            before.len() - 1,
                            SectionView {
                                name: before.last().name,
                                entries: before.last().entries.push((k@, v@)),
                            },
                        ));
                    },
                    None => {},
                },
            }
        }
        i = i + 1;
    }
    assert(lines.take(count as int) =~= lines);
    let ghost all = sections_view(sections@);
    let mut out: Vec<Section> = Vec::new();
    let mut rest = sections;
    let ghost mut k: int = 0;
    let ghost full = rest@;
    assert(rest@ =~= full.skip(0));
    while rest.len() > 0
        invariant
            0 <= k <= full.len(),
            rest@ == full.skip(k),
            all == sections_view(full),
            sections_view(out@) == sections_view(full.take(k)).filter(|s: SectionView| kept(s)),
        decreases rest@.len(),
    {
        let s = rest.remove(0);
        proof {
            assert(s == full[k]);
            assert(full.take(k + 1) =~= full.take(k).push(s));
            assert(sections_view(full.take(k + 1)) =~= sections_view(full.take(k)).push(
                section_view(s),
            ));
            assert(sections_view(full.take(k)).push(section_view(s)).drop_last() =~= sections_view(
                full.take(k),
            ));
            reveal_with_fuel(Seq::filter, 1);
        }
        let ghost before = out@;
        if !s.name.as_str().is_empty() || s.entries.len() > 0 {
            out.push(s);
            assert(sections_view(out@) =~= sections_view(before).push(section_view(s)));
        }
        proof {
            k = k + 1;
            assert(rest@ =~= full.skip(k));
        }
    }
    assert(full.take(k) =~= full);
    out
}

/// A pair of characters read as a hexadecimal byte the way
/// `u8::from_str_radix(pair, 16)` reads it: two digits, or a `+` and one.
pub open spec fn hex_byte(a: u8, b: u8) -> Option<u8> {
    match (crate::text::hex_val((a as u32) as char), crate::text::hex_val((b as u32) as char)) {
        (Some(x), Some(y)) => Some((x * 16 + y) as u8),
        (None, Some(y)) => if a == 43 {
            Some(y as u8)
        } else {
            None
        },
        _ => None,
    }
}

/// PuTTY's `%XX` escaping undone on the bytes of a text: a `%` followed by
/// two more bytes that read as a hexadecimal byte stands for that byte.
pub open spec fn unescaped(b: Seq<u8>) -> Seq<u8>
    decreases b.len(),
{
    if b.len() == 0 {
        b
    } else if b[0] == 37 && b.len() > 2 && hex_byte(b[1], b[2]) is Some {
        seq![hex_byte(b[1], b[2])->Some_0] + unescaped(b.skip(3))
    } else {
        seq![b[0]] + unescaped(b.skip(1))
    }
}

fn hex_byte_exec(a: u8, b: u8) -> (r: Option<u8>)
    ensures
        r == hex_byte(a, b),
{
    let ca = crate::text::char_from(a as u32);
    let cb = crate::text::char_from(b as u32);
    match (crate::text::hex_digit(ca), crate::text::hex_digit(cb)) {
        (Some(x), Some(y)) => Some(x * 16 + y),
        (None, Some(y)) => if a == 43 {
            Some(y)
        } else {
            None
        },
        _ => None,
    }
}

/// PuTTY's registry escaping undone, and the bytes read as text.
pub fn unescape(text: &str) -> (s: String)
    ensures
        s@ == super::spec_decode(unescaped(encode_utf8(text@))),
{
    let bytes = text.as_bytes();
    let len = bytes.len();
    let mut out: Vec<u8> = Vec::new();
    let mut i: usize = 0;
    assert(bytes@.skip(0) =~= bytes@);
    while i < len
        invariant
            i <= len,
            len == bytes@.len(),
            out@ + unescaped(bytes@.skip(i as int)) == unescaped(bytes@),
        decreases len - i,
    {
        let ghost rest = bytes@.skip(i as int);
        let ghost before = out@;
        if bytes[i] == 37 && len - i > 2 {
            match hex_byte_exec(bytes[i + 1], bytes[i + 2]) {
                Some(byte) => {
                    assert(rest[1] == bytes@[i + 1] && rest[2] == bytes@[i + 2]);
                    assert(rest.skip(3) =~= bytes@.skip(i + 3));
                    out.push(byte);
                    assert(out@ + unescaped(bytes@.skip(i + 3)) =~= before + unescaped(rest));
                    i = i + 3;
                    continue;
                },
                None => {},
            }
        }
        assert(rest.skip(1) =~= bytes@.skip(i + 1));
        assert(rest[0] == bytes@[i as int]);
        proof {
            if rest.len() >= 3 {
                assert(rest[1] == bytes@[i + 1] && rest[2] == bytes@[i + 2]);
            }
        }
        out.push(bytes[i]);
        assert(out@ + unescaped(bytes@.skip(i + 1)) =~= before + unescaped(rest));
        i = i + 1;
    }
    assert(bytes@.skip(i as int) =~= Seq::<u8>::empty());
    assert(out@ + unescaped(Seq::<u8>::empty()) =~= out@);
    super::decode(&out)
}


/// The characters of a text with its white space left out.
pub open spec fn without_ws(s: Seq<char>) -> Seq<char>
    decreases s.len(),
{
    if s.len() == 0 {
        s
    } else if crate::text::ws(s.last()) {
        without_ws(s.drop_last())
    } else {
        without_ws(s.drop_last()).push(s.last())
    }
}

/// A text with its white space left out.
pub fn strip_ws(text: &str) -> (out: String)
    ensures
        out@ == without_ws(text@),
{
    let v = chars_of(text);
    let mut kept: Vec<char> = Vec::new();
    let mut i: usize = 0;
    while i < v.len()
        invariant
            i <= v@.len(),
            v@ == text@,
            kept@ == without_ws(v@.take(i as int)),
        decreases v@.len() - i,
    {
        assert(v@.take(i + 1).drop_last() =~= v@.take(i as int));
        if !crate::text::is_whitespace(v[i]) {
            kept.push(v[i]);
        }
        i = i + 1;
    }
    assert(v@.take(v@.len() as int) =~= v@);
    string_of(&kept)
}

/// Bytes read two at a time as hexadecimal bytes, the way `chunks_exact(2)`
/// and `u8::from_str_radix(pair, 16)` read them: `None` where a pair is not
/// a byte, and a last byte without a partner left out.
pub open spec fn hex_bytes(b: Seq<u8>) -> Option<Seq<u8>>
    decreases b.len(),
{
    if b.len() < 2 {
        Some(Seq::empty())
    } else {
        match (hex_byte(b[0], b[1]), hex_bytes(b.skip(2))) {
            (Some(x), Some(rest)) => Some(seq![x] + rest),
            _ => None,
        }
    }
}

/// Two bytes of hex make one byte.
pub proof fn lemma_hex_bytes_len(b: Seq<u8>)
    ensures
        hex_bytes(b) matches Some(r) ==> r.len() == b.len() / 2,
    decreases b.len(),
{
    if b.len() >= 2 {
        lemma_hex_bytes_len(b.skip(2));
    }
}

pub fn hex_bytes_exec(b: &[u8]) -> (r: Option<Vec<u8>>)
    ensures
        match r {
            Some(v) => hex_bytes(b@) == Some(v@),
            None => hex_bytes(b@) is None,
        },
{
    let mut out: Vec<u8> = Vec::new();
    let mut i: usize = 0;
    assert(b@.skip(0) =~= b@);
    while i < b.len() && b.len() - i >= 2
        invariant
            i <= b@.len(),
            hex_bytes(b@) == match hex_bytes(b@.skip(i as int)) {
                Some(rest) => Some(out@ + rest),
                None => None,
            },
        decreases b@.len() - i,
    {
        let ghost rest = b@.skip(i as int);
        assert(rest[0] == b@[i as int] && rest[1] == b@[i + 1]);
        assert(rest.skip(2) =~= b@.skip(i + 2));
        match hex_byte_exec(b[i], b[i + 1]) {
            Some(x) => {
                let ghost before = out@;
                out.push(x);
                proof {
                    match hex_bytes(b@.skip(i + 2)) {
                        Some(r2) => {
                            assert(out@ + r2 =~= before + (seq![x] + r2));
                        },
                        None => {},
                    }
                }
            },
            None => {
                return None;
            },
        }
        i = i + 2;
    }
    assert(b@.skip(i as int).len() < 2);
    assert(out@ + Seq::<u8>::empty() =~= out@);
    Some(out)
}


/// Whether a value, trimmed, is `1`: how these files say yes.
pub open spec fn says_one(v: Option<Seq<char>>) -> bool {
    v matches Some(t) && trim(t) == "1"@
}

pub fn value_is_one(section: &Section, key: &str) -> (b: bool)
    ensures
        b == says_one(value_in(section_view(*section).entries, key@, 0)),
{
    match section.get(key) {
        Some(v) => {
            let c = chars_of(v);
            let t = crate::text::trimmed(&c);
            crate::text::is_text(&t, "1")
        },
        None => false,
    }
}

/// A value, trimmed, read as a number no larger than `max`.
pub open spec fn number_value(entries: Seq<(Seq<char>, Seq<char>)>, key: Seq<char>, max: nat) -> Option<nat> {
    match value_in(entries, key, 0) {
        Some(v) => parse_unsigned(trim(v), max),
        None => None,
    }
}

} // verus!
