//! `~/.ssh/config`: a name, an address, a user, a port and a key file for
//! every host named in it. Read the way OpenSSH reads it in the one respect
//! that matters: the first value for a keyword wins, so `Host *` at the bottom
//! fills in what the specific blocks left out.
use vstd::prelude::*;

use super::ini::{lines_of, value_in};
use super::{imported_view, imported_views, Found, Imported, ImportedView, Source};
use crate::config::AuthKind;
use crate::endpoint::Protocol;
use crate::text::{chars_of, parse_unsigned, same_ignoring_case, string_of, trim, views, wild, words};

verus! {

/// One `Host` line and everything under it, as plain values.
pub struct BlockView {
    pub patterns: Seq<Seq<char>>,
    pub entries: Seq<(Seq<char>, Seq<char>)>,
}

/// Whether a character ends a keyword: white space or `=`.
pub open spec fn ends_keyword(c: char) -> bool {
    crate::text::ws(c) || c == '='
}

/// Where the first character that ends a keyword is, at or after `i`.
pub open spec fn keyword_end(s: Seq<char>, i: int) -> int
    decreases s.len() - i,
{
    if i < 0 || i >= s.len() {
        s.len() as int
    } else if ends_keyword(s[i]) {
        i
    } else {
        keyword_end(s, i + 1)
    }
}

/// Every leading `=`, space and tab taken off.
pub open spec fn strip_separators(s: Seq<char>) -> Seq<char>
    decreases s.len(),
{
    if s.len() > 0 && (s[0] == '=' || s[0] == ' ' || s[0] == '\t') {
        strip_separators(s.drop_first())
    } else {
        s
    }
}

/// A value without the double quotes around it, where it has both.
pub open spec fn spec_unquote(v: Seq<char>) -> Seq<char> {
    if v.len() >= 2 && v[0] == '"' && v.last() == '"' {
        v.subrange(1, v.len() - 1)
    } else {
        v
    }
}

/// What one line does to the blocks read so far. A `Host` line opens a
/// block with its patterns; any other keyword adds to the last block, and
/// before the first block it is ignored.
pub open spec fn read_line(blocks: Seq<BlockView>, raw: Seq<char>) -> Seq<BlockView> {
    let line = trim(raw);
    let k = keyword_end(line, 0);
    if line.len() == 0 || line[0] == '#' || k >= line.len() {
        blocks
    } else {
        let keyword = line.take(k);
        let rest = trim(strip_separators(line.skip(k + 1)));
        if same_ignoring_case(keyword, "Host"@) {
            blocks.push(BlockView { patterns: words(rest), entries: Seq::empty() })
        } else if blocks.len() > 0 {
            blocks.update(
                blocks.len() - 1,
                BlockView {
                    patterns: blocks.last().patterns,
                    entries: blocks.last().entries.push((keyword, spec_unquote(rest))),
                },
            )
        } else {
            blocks
        }
    }
}

pub open spec fn read_lines(blocks: Seq<BlockView>, lines: Seq<Seq<char>>) -> Seq<BlockView>
    decreases lines.len(),
{
    if lines.len() == 0 {
        blocks
    } else {
        read_line(read_lines(blocks, lines.drop_last()), lines.last())
    }
}

/// Whether a block's patterns cover a name.
pub open spec fn block_covers(b: BlockView, name: Seq<char>) -> bool {
    exists|k: int| 0 <= k < b.patterns.len() && wild(#[trigger] b.patterns[k], name, true)
}

/// The value for a keyword, from the first block at or after `j` that covers
/// the name and says anything about the keyword.
pub open spec fn look(blocks: Seq<BlockView>, j: int, name: Seq<char>, keyword: Seq<char>) -> Option<Seq<char>>
    decreases blocks.len() - j,
{
    if j < 0 || j >= blocks.len() {
        None
    } else if block_covers(blocks[j], name) && value_in(blocks[j].entries, keyword, 0) is Some {
        value_in(blocks[j].entries, keyword, 0)
    } else {
        look(blocks, j + 1, name, keyword)
    }
}

/// Whether a pattern is a rule for other hosts rather than a host.
pub open spec fn is_rule(p: Seq<char>) -> bool {
    crate::text::contains_char(p, '*') || crate::text::contains_char(p, '?') || (p.len() > 0 && p[0]
        == '!')
}

/// The entry for one host named in the block at `i`.
pub open spec fn entry_for(blocks: Seq<BlockView>, i: int, name: Seq<char>) -> ImportedView {
    let key_path = look(blocks, i, name, "IdentityFile"@);
    ImportedView {
        name,
        folder: Seq::empty(),
        protocol: Protocol::Sftp,
        host: match look(blocks, i, name, "HostName"@) {
            Some(h) => h,
            None => name,
        },
        port: match look(blocks, i, name, "Port"@) {
            Some(p) => match parse_unsigned(p, u16::MAX as nat) {
                Some(n) => n as u16,
                None => 22,
            },
            None => 22,
        },
        user: match look(blocks, i, name, "User"@) {
            Some(u) => u,
            None => Seq::empty(),
        },
        auth: if key_path is Some {
            AuthKind::KeyFile
        } else {
            AuthKind::Agent
        },
        key_path,
        remote_path: None,
        encryption: None,
        has_password: false,
        password: None,
    }
}

/// The entries for the hosts among the patterns `ps` of the block at `i`, in
/// order: every pattern that is not a rule.
pub open spec fn block_entries(blocks: Seq<BlockView>, i: int, ps: Seq<Seq<char>>) -> Seq<ImportedView>
    decreases ps.len(),
{
    if ps.len() == 0 {
        Seq::empty()
    } else {
        let before = block_entries(blocks, i, ps.drop_last());
        if is_rule(ps.last()) {
            before
        } else {
            before.push(entry_for(blocks, i, ps.last()))
        }
    }
}

/// The entries for the hosts of the blocks from `i` on, in order.
pub open spec fn entries_from(blocks: Seq<BlockView>, i: int) -> Seq<ImportedView>
    decreases blocks.len() - i,
{
    if i < 0 || i >= blocks.len() {
        Seq::empty()
    } else {
        block_entries(blocks, i, blocks[i].patterns) + entries_from(blocks, i + 1)
    }
}

/// What a configuration holds: an entry for every host a `Host` line names.
pub open spec fn spec_parse(text: Seq<char>) -> Seq<ImportedView> {
    entries_from(read_lines(Seq::empty(), lines_of(text)), 0)
}

struct Block {
    patterns: Vec<String>,
    entries: Vec<(String, String)>,
}

spec fn string_views(v: Seq<String>) -> Seq<Seq<char>> {
    v.map_values(|p: String| p@)
}

spec fn block_view(b: Block) -> BlockView {
    BlockView {
        patterns: string_views(b.patterns@),
        entries: b.entries@.map_values(|p: (String, String)| super::ini::pair_view(p)),
    }
}

spec fn blocks_view(v: Seq<Block>) -> Seq<BlockView> {
    v.map_values(|b: Block| block_view(b))
}

fn keyword_end_exec(v: &[char]) -> (k: usize)
    ensures
        k == keyword_end(v@, 0),
        k <= v@.len(),
{
    let mut k: usize = 0;
    while k < v.len() && !(crate::text::is_whitespace(v[k]) || v[k] == '=')
        invariant
            k <= v@.len(),
            keyword_end(v@, 0) == keyword_end(v@, k as int),
        decreases v@.len() - k,
    {
        k = k + 1;
    }
    k
}

fn strip_separators_exec(v: &[char]) -> (out: Vec<char>)
    ensures
        out@ == strip_separators(v@),
{
    let mut i: usize = 0;
    assert(v@.skip(0) =~= v@);
    while i < v.len() && (v[i] == '=' || v[i] == ' ' || v[i] == '\t')
        invariant
            i <= v@.len(),
            strip_separators(v@) == strip_separators(v@.skip(i as int)),
        decreases v@.len() - i,
    {
        assert(v@.skip(i as int).drop_first() =~= v@.skip(i + 1));
        i = i + 1;
    }
    let out = crate::text::slice_range(v, i, v.len());
    assert(out@ =~= v@.skip(i as int));
    out
}

fn unquote(v: Vec<char>) -> (out: Vec<char>)
    ensures
        out@ == spec_unquote(v@),
{
    if v.len() >= 2 && v[0] == '"' && v[v.len() - 1] == '"' {
        crate::text::slice_range(&v, 1, v.len() - 1)
    } else {
        v
    }
}

fn strings_of(words: Vec<Vec<char>>) -> (out: Vec<String>)
    ensures
        string_views(out@) == views(words@),
{
    let mut out: Vec<String> = Vec::new();
    let mut i: usize = 0;
    assert(string_views(out@) =~= views(words@).take(0));
    while i < words.len()
        invariant
            i <= words@.len(),
            string_views(out@) == views(words@).take(i as int),
        decreases words@.len() - i,
    {
        let ghost prev = out@;
        let s = string_of(&words[i]);
        out.push(s);
        proof {
            assert(out@ == prev.push(s));
            assert(string_views(prev).len() == prev.len());
            assert(prev.len() == i);
            assert(string_views(out@).len() == i + 1);
            assert forall|j: int| 0 <= j < i + 1 implies #[trigger] string_views(out@)[j] == views(
                words@,
            ).take(i + 1)[j] by {
                if j < i {
                    assert(string_views(prev)[j] == views(words@).take(i as int)[j]);
                    assert(out@[j] == prev[j]);
                } else {
                    assert(out@[j] == s);
                }
            }
        }
        i = i + 1;
        assert(string_views(out@) =~= views(words@).take(i as int));
    }
    assert(views(words@).take(words@.len() as int) =~= views(words@));
    out
}

fn read_blocks(text: &str) -> (blocks: Vec<Block>)
    ensures
        blocks_view(blocks@) == read_lines(Seq::empty(), lines_of(text@)),
{
    let chars = chars_of(text);
    let pieces = crate::text::split_pieces(&chars, '\n');
    proof {
        crate::text::lemma_split_not_empty(text@, '\n');
    }
    let count = if pieces[pieces.len() - 1].len() == 0 {
        pieces.len() - 1
    } else {
        pieces.len()
    };
    let ghost lines = lines_of(text@);
    proof {
        assert(views(pieces@).last() == pieces@[pieces@.len() - 1]@);
        assert(lines =~= views(pieces@).take(count as int));
    }
    let mut blocks: Vec<Block> = Vec::new();
    assert(blocks_view(blocks@) =~= Seq::<BlockView>::empty());
    let mut i: usize = 0;
    while i < count
        invariant
            count <= pieces@.len(),
            lines == views(pieces@).take(count as int),
            i <= count,
            blocks_view(blocks@) == read_lines(Seq::empty(), lines.take(i as int)),
        decreases count - i,
    {
        proof {
            assert(lines.take(i + 1).drop_last() =~= lines.take(i as int));
            assert(lines.take(i + 1).last() == pieces@[i as int]@);
        }
        let line = crate::text::trimmed(&pieces[i]);
        let k = keyword_end_exec(&line);
        let ghost before = blocks_view(blocks@);
        if line.len() == 0 || line[0] == '#' || k >= line.len() {
        } else {
            let keyword = crate::text::slice_range(&line, 0, k);
            let after = crate::text::slice_range(&line, k + 1, line.len());
            assert(keyword@ =~= line@.take(k as int));
            assert(after@ =~= line@.skip(k + 1));
            let stripped = strip_separators_exec(&after);
            let rest = crate::text::trimmed(&stripped);
            let host_word = chars_of("Host");
            if crate::text::eq_ignore_case(&keyword, &host_word) {
                let ws = crate::text::words_of(&rest);
                let patterns = strings_of(ws);
                let b = Block { patterns, entries: Vec::new() };
                assert(block_view(b).entries =~= Seq::<(Seq<char>, Seq<char>)>::empty());
                blocks.push(b);
                assert(blocks_view(blocks@) =~= before.push(
                    BlockView { patterns: words(rest@), entries: Seq::empty() },
                ));
            } else if blocks.len() > 0 {
                let value = unquote(rest);
                let last = blocks.len() - 1;
                let mut b = blocks.remove(last);
                let ghost old_b = b;
                assert(block_view(old_b) == before.last());
                b.entries.push((string_of(&keyword), string_of(&value)));
                assert(block_view(b).entries =~= block_view(old_b).entries.push(
                    (keyword@, value@),
                ));
                assert(block_view(b).patterns == block_view(old_b).patterns);
                blocks.push(b);
                assert(blocks_view(blocks@) =~= before.update(
                    before.len() - 1,
                    BlockView {
                        patterns: before.last().patterns,
                        entries: before.last().entries.push((keyword@, spec_unquote(rest@))),
                    },
                ));
            }
        }
        i = i + 1;
    }
    assert(lines.take(count as int) =~= lines);
    blocks
}

fn value_of(entries: &Vec<(String, String)>, key: &[char]) -> (r: Option<String>)
    ensures
        match r {
            Some(v) => value_in(
                entries@.map_values(|p: (String, String)| super::ini::pair_view(p)),
                key@,
                0,
            ) == Some(v@),
            None => value_in(
                entries@.map_values(|p: (String, String)| super::ini::pair_view(p)),
                key@,
                0,
            ) is None,
        },
{
    let ghost es = entries@.map_values(|p: (String, String)| super::ini::pair_view(p));
    let mut i: usize = 0;
    while i < entries.len()
        invariant
            i <= entries@.len(),
            es == entries@.map_values(|p: (String, String)| super::ini::pair_view(p)),
            value_in(es, key@, 0) == value_in(es, key@, i as int),
        decreases entries@.len() - i,
    {
        let name = chars_of(entries[i].0.as_str());
        assert(es[i as int] == super::ini::pair_view(entries@[i as int]));
        if crate::text::eq_ignore_case(&name, key) {
            return Some(entries[i].1.clone());
        }
        i = i + 1;
    }
    None
}

fn covers(b: &Block, name: &[char]) -> (r: bool)
    ensures
        r == block_covers(block_view(*b), name@),
{
    let ghost ps = block_view(*b).patterns;
    let mut k: usize = 0;
    while k < b.patterns.len()
        invariant
            k <= b.patterns@.len(),
            ps == block_view(*b).patterns,
            forall|m: int| 0 <= m < k ==> !wild(#[trigger] ps[m], name@, true),
        decreases b.patterns@.len() - k,
    {
        let p = chars_of(b.patterns[k].as_str());
        assert(ps[k as int] == b.patterns@[k as int]@);
        if crate::text::wild_match(&p, name, true) {
            return true;
        }
        k = k + 1;
    }
    false
}

fn look_exec(blocks: &Vec<Block>, i: usize, name: &[char], keyword: &str) -> (r: Option<String>)
    requires
        i <= blocks@.len(),
    ensures
        match r {
            Some(v) => look(blocks_view(blocks@), i as int, name@, keyword@) == Some(v@),
            None => look(blocks_view(blocks@), i as int, name@, keyword@) is None,
        },
{
    let key = chars_of(keyword);
    let ghost bv = blocks_view(blocks@);
    let mut j = i;
    while j < blocks.len()
        invariant
            i <= j <= blocks@.len(),
            bv == blocks_view(blocks@),
            key@ == keyword@,
            look(bv, i as int, name@, keyword@) == look(bv, j as int, name@, keyword@),
        decreases blocks@.len() - j,
    {
        assert(bv[j as int] == block_view(blocks@[j as int]));
        if covers(&blocks[j], name) {
            match value_of(&blocks[j].entries, &key) {
                Some(v) => return Some(v),
                None => {},
            }
        }
        j = j + 1;
    }
    None
}

fn rule_exec(p: &[char]) -> (b: bool)
    ensures
        b == is_rule(p@),
{
    crate::text::has_char(p, '*') || crate::text::has_char(p, '?') || (p.len() > 0 && p[0] == '!')
}

fn entry_exec(blocks: &Vec<Block>, i: usize, pattern: &String) -> (e: Imported)
    requires
        i < blocks@.len(),
    ensures
        imported_view(e) == entry_for(blocks_view(blocks@), i as int, pattern@),
{
    let name = chars_of(pattern.as_str());
    let key_path = look_exec(blocks, i, &name, "IdentityFile");
    let mut entry = Imported::named(pattern.as_str());
    entry.protocol = Protocol::Sftp;
    entry.host = match look_exec(blocks, i, &name, "HostName") {
        Some(h) => h,
        None => pattern.clone(),
    };
    entry.port = match look_exec(blocks, i, &name, "Port") {
        Some(p) => {
            let pc = chars_of(p.as_str());
            match crate::text::parse_u16(&pc) {
                Some(n) => n,
                None => 22,
            }
        },
        None => 22,
    };
    entry.user = match look_exec(blocks, i, &name, "User") {
        Some(u) => u,
        None => String::new(),
    };
    entry.auth = if key_path.is_some() {
        AuthKind::KeyFile
    } else {
        AuthKind::Agent
    };
    entry.key_path = key_path;
    proof {
        let want = entry_for(blocks_view(blocks@), i as int, pattern@);
        assert(imported_view(entry).name == want.name);
        assert(imported_view(entry).folder == want.folder);
        assert(imported_view(entry).host == want.host);
        assert(imported_view(entry).port == want.port);
        assert(imported_view(entry).user == want.user);
        assert(imported_view(entry).auth == want.auth);
        assert(imported_view(entry).key_path == want.key_path);
    }
    entry
}

/// Reads a configuration into entries, one for every host it names.
pub fn parse(text: &str, path: &str) -> (found: Found)
    ensures
        found.source == Source::SshConfig,
        found.path@ == path@,
        imported_views(found.entries@) == spec_parse(text@),
        found.warnings@.len() == 0,
{
    let blocks = read_blocks(text);
    let ghost bv = blocks_view(blocks@);
    let mut found = Found::new(Source::SshConfig, path);
    let mut i: usize = 0;
    assert(imported_views(found.entries@) =~= Seq::<ImportedView>::empty());
    while i < blocks.len()
        invariant
            i <= blocks@.len(),
            bv == blocks_view(blocks@),
            found.source == Source::SshConfig,
            found.path@ == path@,
            found.warnings@.len() == 0,
            imported_views(found.entries@) + entries_from(bv, i as int) == entries_from(bv, 0),
        decreases blocks@.len() - i,
    {
        let ghost ps = bv[i as int].patterns;
        let ghost prefix = imported_views(found.entries@);
        assert(bv[i as int] == block_view(blocks@[i as int]));
        let mut k: usize = 0;
        assert(ps.take(0) =~= Seq::<Seq<char>>::empty());
        assert(prefix + block_entries(bv, i as int, ps.take(0)) =~= prefix);
        while k < blocks[i].patterns.len()
            invariant
                i < blocks@.len(),
                k <= blocks@[i as int].patterns@.len(),
                bv == blocks_view(blocks@),
                ps == bv[i as int].patterns,
                ps == string_views(blocks@[i as int].patterns@),
                found.source == Source::SshConfig,
                found.path@ == path@,
                found.warnings@.len() == 0,
                imported_views(found.entries@) == prefix + block_entries(bv, i as int, ps.take(k as int)),
            decreases blocks@[i as int].patterns@.len() - k,
        {
            let pattern = &blocks[i].patterns[k];
            let pc = chars_of(pattern.as_str());
            let ghost before = imported_views(found.entries@);
            let ghost old_entries = found.entries@;
            proof {
                assert(ps[k as int] == pattern@);
                assert(ps.take(k + 1).drop_last() =~= ps.take(k as int));
                assert(ps.take(k + 1).last() == pattern@);
            }
            if !rule_exec(&pc) {
                let e = entry_exec(&blocks, i, pattern);
                found.entries.push(e);
                proof {
                    assert(found.entries@ == old_entries.push(e));
                    assert(imported_views(found.entries@) =~= imported_views(old_entries).push(
                        imported_view(e),
                    ));
                    assert(imported_views(found.entries@) =~= prefix + block_entries(
                        bv,
                        i as int,
                        ps.take(k + 1),
                    ));
                }
            }
            k = k + 1;
        }
        assert(ps.take(ps.len() as int) =~= ps);
        assert(entries_from(bv, i as int) == block_entries(bv, i as int, ps) + entries_from(bv, i + 1));
        assert(imported_views(found.entries@) + entries_from(bv, i + 1) =~= prefix + entries_from(
            bv,
            i as int,
        ));
        i = i + 1;
    }
    assert(entries_from(bv, i as int) =~= Seq::<ImportedView>::empty());
    assert(imported_views(found.entries@) + Seq::<ImportedView>::empty() =~= imported_views(
        found.entries@,
    ));
    found
}

/// Whether a `Host` pattern covers a name: `*` for any run of characters,
/// `?` for any one.
pub fn glob(pattern: &str, name: &str) -> (b: bool)
    ensures
        b == wild(pattern@, name@, true),
{
    let p = chars_of(pattern);
    let n = chars_of(name);
    crate::text::wild_match(&p, &n, true)
}

} // verus!
