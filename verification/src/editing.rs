//! Working on a file that lives on a server: a copy comes down, something
//! edits it, and what comes back goes up again. What is decided here is what
//! may be edited, how the bytes of a file are read as text and written back
//! exactly as they were found (encoding, byte order mark, line endings), and
//! when a write-back would overwrite somebody else's change.
use vstd::prelude::*;
use vstd::utf8::{decode_utf8, encode_utf8, valid_utf8};

use crate::error::Error;
use crate::text::{chars_of, rsplit_once, string_of, trim, views};
use crate::update::strip_leading;

verus! {

/// The most a file may be for editing to be offered.
pub const LARGEST: u64 = 20 * 1024 * 1024;

/// How much of a file decides whether it is text.
pub const SNIFFED: usize = 8 * 1024;

/// The UTF-8 byte order mark.
pub const BOM: [u8; 3] = [0xEF, 0xBB, 0xBF];

/// The byte order mark as a sequence.
pub open spec fn bom() -> Seq<u8> {
    seq![0xEFu8, 0xBBu8, 0xBFu8]
}

/// What opens a file of a given kind.
#[derive(Debug, Clone, Copy, PartialEq, Eq, Structural)]
pub enum OpenWith {
    /// AmberBeam's own editor.
    Own,
    /// Whatever this machine opens that kind of file with.
    System,
    /// One named program, in [`EditRule::program`].
    Program,
}

/// One line of the table that says what may be edited, and with what.
#[derive(Debug, Clone, PartialEq, Eq)]
pub struct EditRule {
    /// Extensions without the dot, or whole file names for the ones that have
    /// no extension at all.
    pub extensions: Vec<String>,
    pub open_with: OpenWith,
    /// The program, when that is what this line says.
    pub program: Option<String>,
}

/// The kinds a fresh installation may edit: what a web server serves, what
/// configures it, and what it logs.
pub open spec fn shipped_kinds() -> Seq<Seq<char>> {
    seq![
        "php"@, "phtml"@, "inc"@, "html"@, "htm"@, "twig"@, "css"@, "scss"@, "less"@, "js"@,
        "mjs"@, "cjs"@, "ts"@, "json"@, "xml"@, "yml"@, "yaml"@, "toml"@, "md"@, "txt"@,
        "ini"@, "conf"@, "cfg"@, "env"@, "sql"@, "sh"@, "bash"@, "py"@, "rb"@, "pl"@, "log"@,
        "csv"@, "svg"@, "htaccess"@, "gitignore"@, "dockerfile"@, "makefile"@,
    ]
}

fn push_kind(v: &mut Vec<String>, kind: &str)
    ensures
        views_of(final(v)@) == views_of(old(v)@).push(kind@),
{
    let ghost before = v@;
    v.push(kind.to_string());
    assert(views_of(v@) =~= views_of(before).push(kind@));
}

/// The texts of a list of strings.
pub open spec fn views_of(v: Seq<String>) -> Seq<Seq<char>> {
    v.map_values(|s: String| s@)
}

impl EditRule {
    /// What a fresh installation starts with: one line, opened in AmberBeam's
    /// own editor, covering the kinds of `shipped_kinds`.
    pub fn shipped() -> (rules: Vec<Self>)
        ensures
            rules@.len() == 1,
            rules@[0].open_with == OpenWith::Own,
            rules@[0].program is None,
            views_of(rules@[0].extensions@) == shipped_kinds(),
    {
        let mut v: Vec<String> = Vec::new();
        assert(views_of(v@) =~= Seq::<Seq<char>>::empty());
        push_kind(&mut v, "php");
        push_kind(&mut v, "phtml");
        push_kind(&mut v, "inc");
        push_kind(&mut v, "html");
        push_kind(&mut v, "htm");
        push_kind(&mut v, "twig");
        push_kind(&mut v, "css");
        push_kind(&mut v, "scss");
        push_kind(&mut v, "less");
        push_kind(&mut v, "js");
        push_kind(&mut v, "mjs");
        push_kind(&mut v, "cjs");
        push_kind(&mut v, "ts");
        push_kind(&mut v, "json");
        push_kind(&mut v, "xml");
        push_kind(&mut v, "yml");
        push_kind(&mut v, "yaml");
        push_kind(&mut v, "toml");
        push_kind(&mut v, "md");
        push_kind(&mut v, "txt");
        push_kind(&mut v, "ini");
        push_kind(&mut v, "conf");
        push_kind(&mut v, "cfg");
        push_kind(&mut v, "env");
        push_kind(&mut v, "sql");
        push_kind(&mut v, "sh");
        push_kind(&mut v, "bash");
        push_kind(&mut v, "py");
        push_kind(&mut v, "rb");
        push_kind(&mut v, "pl");
        push_kind(&mut v, "log");
        push_kind(&mut v, "csv");
        push_kind(&mut v, "svg");
        push_kind(&mut v, "htaccess");
        push_kind(&mut v, "gitignore");
        push_kind(&mut v, "dockerfile");
        push_kind(&mut v, "makefile");
        assert(views_of(v@) =~= shipped_kinds());
        let mut rules: Vec<EditRule> = Vec::new();
        rules.push(EditRule { extensions: v, open_with: OpenWith::Own, program: None });
        rules
    }
}

/// A text in lower case, as `str::to_lowercase` makes it.
pub uninterp spec fn lower_case(s: Seq<char>) -> Seq<char>;

/// `str::to_lowercase`. Claimed: the result is `lower_case` of the text, a
/// function of the text alone. Unicode's full mapping is not stated.
#[verifier::external_body]
pub(crate) fn to_lower(s: &str) -> (r: String)
    ensures
        r@ == lower_case(s@),
{
    s.to_lowercase()
}

/// The part of a lower-cased name that says what kind of file it is: what
/// follows the last dot, when anything does. `.htaccess` is `htaccess`.
pub open spec fn spec_extension_of(lower: Seq<char>) -> Option<Seq<char>> {
    match rsplit_once(lower, '.') {
        Some((_, after)) => if after.len() > 0 {
            Some(after)
        } else {
            None
        },
        None => None,
    }
}

fn extension_of(lower: &[char]) -> (r: Option<Vec<char>>)
    ensures
        match r {
            Some(e) => spec_extension_of(lower@) == Some(e@),
            None => spec_extension_of(lower@) is None,
        },
{
    match crate::text::rsplit_once_exec(lower, '.') {
        Some((_, after)) => if after.len() > 0 {
            Some(after)
        } else {
            None
        },
        None => None,
    }
}

/// A kind as a rule line holds it, made comparable: trimmed, without leading
/// dots, lower-cased.
pub open spec fn wanted_kind(w: Seq<char>) -> Seq<char> {
    lower_case(strip_leading(trim(w), '.'))
}

/// Whether one kind of a rule line covers a lower-cased name.
pub open spec fn kind_covers(w: Seq<char>, lower: Seq<char>) -> bool {
    let k = wanted_kind(w);
    k.len() > 0 && (spec_extension_of(lower) == Some(k) || k == lower)
}

/// Whether a rule line covers a name.
pub open spec fn rule_covers(rule: EditRule, name: Seq<char>) -> bool {
    exists|j: int|
        0 <= j < rule.extensions@.len() && kind_covers(
            #[trigger] rule.extensions@[j]@,
            lower_case(name),
        )
}

/// The first line of the table covering a name, or -1.
pub open spec fn first_rule(rules: Seq<EditRule>, name: Seq<char>, i: int) -> int
    decreases rules.len() - i,
{
    if i < 0 || i >= rules.len() {
        -1
    } else if rule_covers(rules[i], name) {
        i
    } else {
        first_rule(rules, name, i + 1)
    }
}

fn kind_covers_exec(w: &str, lower: &[char], lower_text: &str) -> (b: bool)
    requires
        lower@ == lower_text@,
    ensures
        b == kind_covers(w@, lower@),
{
    let raw = chars_of(w);
    let t = crate::text::trimmed(&raw);
    let mut i: usize = 0;
    assert(t@.skip(0) =~= t@);
    while i < t.len() && t[i] == '.'
        invariant
            i <= t@.len(),
            strip_leading(t@, '.') == strip_leading(t@.skip(i as int), '.'),
        decreases t@.len() - i,
    {
        assert(t@.skip(i as int).drop_first() =~= t@.skip(i + 1));
        i = i + 1;
    }
    let stripped = string_of(&crate::text::slice_range(&t, i, t.len()));
    assert(stripped@ =~= t@.skip(i as int));
    let k = to_lower(stripped.as_str());
    let kc = chars_of(k.as_str());
    if kc.len() == 0 {
        return false;
    }
    let by_extension = match extension_of(lower) {
        Some(e) => crate::text::same_chars(&e, &kc),
        None => false,
    };
    by_extension || crate::text::same_chars(&kc, lower)
}

fn rule_covers_exec(rule: &EditRule, name: &str, lower: &[char], lower_text: &str) -> (b: bool)
    requires
        lower@ == lower_case(name@),
        lower_text@ == lower@,
    ensures
        b == rule_covers(*rule, name@),
{
    let mut j: usize = 0;
    while j < rule.extensions.len()
        invariant
            j <= rule.extensions@.len(),
            lower@ == lower_case(name@),
            lower_text@ == lower@,
            forall|m: int| 0 <= m < j ==> !kind_covers(#[trigger] rule.extensions@[m]@, lower@),
        decreases rule.extensions@.len() - j,
    {
        if kind_covers_exec(rule.extensions[j].as_str(), lower, lower_text) {
            return true;
        }
        j = j + 1;
    }
    false
}

/// Which line of the table covers a file, if any: the first that matches,
/// so a line added on top beats the long one underneath. Case is not a kind.
pub fn how_to_open<'a>(rules: &'a [EditRule], name: &str) -> (r: Option<&'a EditRule>)
    ensures
        match r {
            Some(rule) => first_rule(rules@, name@, 0) >= 0 && *rule == rules@[first_rule(
                rules@,
                name@,
                0,
            )],
            None => first_rule(rules@, name@, 0) == -1,
        },
{
    let lower_text = to_lower(name);
    let lower = chars_of(lower_text.as_str());
    let mut i: usize = 0;
    while i < rules.len()
        invariant
            i <= rules@.len(),
            lower@ == lower_case(name@),
            lower_text@ == lower@,
            first_rule(rules@, name@, 0) == first_rule(rules@, name@, i as int),
        decreases rules@.len() - i,
    {
        let rule = &rules[i];
        let covered = rule_covers_exec(rule, name, &lower, lower_text.as_str());
        if covered {
            return Some(rule);
        }
        i = i + 1;
    }
    None
}

/// What the bytes of a file turned out to be.
#[derive(Debug, Clone, Copy, PartialEq, Eq, Structural)]
pub enum Encoding {
    Utf8,
    /// Everything that is not valid UTF-8, read one byte per character.
    Latin1,
}

/// Size and modification time, as far as an endpoint will say.
pub type Stamp = (u64, Option<i64>);

/// Whether two looks at a file found the same one: the size has to match,
/// and the time counts only when both looks found one.
pub open spec fn spec_same_file(before: Stamp, now: Stamp) -> bool {
    before.0 == now.0 && match (before.1, now.1) {
        (Some(then), Some(since)) => then == since,
        _ => true,
    }
}

pub fn same_file(before: Stamp, now: Stamp) -> (b: bool)
    ensures
        b == spec_same_file(before, now),
{
    if before.0 != now.0 {
        return false;
    }
    match (before.1, now.1) {
        (Some(then), Some(since)) => then == since,
        _ => true,
    }
}

/// A file with a zero byte among its first `SNIFFED` bytes is not text.
pub open spec fn spec_looks_binary(bytes: Seq<u8>) -> bool {
    exists|i: int| 0 <= i < bytes.len() && i < SNIFFED && bytes[i] == 0
}

pub fn looks_binary(bytes: &[u8]) -> (b: bool)
    ensures
        b == spec_looks_binary(bytes@),
{
    let mut i: usize = 0;
    while i < bytes.len() && i < SNIFFED
        invariant
            i <= bytes@.len(),
            i <= SNIFFED,
            forall|k: int| 0 <= k < i ==> bytes@[k] != 0,
        decreases bytes@.len() - i,
    {
        if bytes[i] == 0 {
            return true;
        }
        i = i + 1;
    }
    false
}

/// The first line ending decides for the whole file: CR LF when the first
/// line feed follows a carriage return.
pub open spec fn spec_first_ending_is_crlf(bytes: Seq<u8>) -> bool {
    let at = first_lf(bytes, 0);
    at > 0 && bytes[at - 1] == 13
}

/// Where the first line feed at or after `i` is, or -1.
pub open spec fn first_lf(bytes: Seq<u8>, i: int) -> int
    decreases bytes.len() - i,
{
    if i < 0 || i >= bytes.len() {
        -1
    } else if bytes[i] == 10 {
        i
    } else {
        first_lf(bytes, i + 1)
    }
}

pub fn first_ending_is_crlf(bytes: &[u8]) -> (b: bool)
    ensures
        b == spec_first_ending_is_crlf(bytes@),
{
    let mut i: usize = 0;
    while i < bytes.len()
        invariant
            i <= bytes@.len(),
            first_lf(bytes@, 0) == first_lf(bytes@, i as int),
        decreases bytes@.len() - i,
    {
        if bytes[i] == 10 {
            if i == 0 {
                return false;
            }
            return bytes[i - 1] == 13;
        }
        i = i + 1;
    }
    false
}

/// The bytes after the byte order mark, where there is one.
pub open spec fn body_of(bytes: Seq<u8>) -> Seq<u8> {
    if bytes.len() >= 3 && bytes.take(3) == bom() {
        bytes.skip(3)
    } else {
        bytes
    }
}

pub open spec fn has_bom(bytes: Seq<u8>) -> bool {
    bytes.len() >= 3 && bytes.take(3) == bom()
}

fn has_bom_exec(bytes: &[u8]) -> (b: bool)
    ensures
        b == has_bom(bytes@),
{
    let b = bytes.len() >= 3 && bytes[0] == 0xEF && bytes[1] == 0xBB && bytes[2] == 0xBF;
    proof {
        if bytes@.len() >= 3 {
            if b {
                assert(bytes@.take(3) =~= bom());
            } else {
                assert(bytes@.take(3)[0] == bytes@[0]);
                assert(bytes@.take(3)[1] == bytes@[1]);
                assert(bytes@.take(3)[2] == bytes@[2]);
            }
        }
    }
    b
}

/// `std::str::from_utf8(bytes).is_ok()`. Claimed: it accepts exactly what
/// `vstd::utf8::valid_utf8` calls valid UTF-8, which is what its documentation
/// says it checks.
#[verifier::external_body]
pub(crate) fn utf8_ok(bytes: &[u8]) -> (b: bool)
    ensures
        b == valid_utf8(bytes@),
{
    std::str::from_utf8(bytes).is_ok()
}

/// How a file was written: its encoding, its mark, and its line endings.
pub open spec fn spec_shape_of(bytes: Seq<u8>) -> (Encoding, bool, bool) {
    let body = body_of(bytes);
    (
        if valid_utf8(body) {
            Encoding::Utf8
        } else {
            Encoding::Latin1
        },
        has_bom(bytes),
        spec_first_ending_is_crlf(body),
    )
}

pub(crate) fn body_bytes(bytes: &[u8]) -> (b: Vec<u8>)
    ensures
        b@ == body_of(bytes@),
{
    let from: usize = if has_bom_exec(bytes) {
        3
    } else {
        0
    };
    let mut out: Vec<u8> = Vec::new();
    let mut i = from;
    while i < bytes.len()
        invariant
            from <= i <= bytes@.len(),
            from == 0 || from == 3,
            from == 3 <==> has_bom(bytes@),
            out@ == bytes@.subrange(from as int, i as int),
        decreases bytes@.len() - i,
    {
        out.push(bytes[i]);
        i = i + 1;
    }
    assert(out@ =~= body_of(bytes@));
    out
}

pub fn shape_of(bytes: &[u8]) -> (shape: (Encoding, bool, bool))
    ensures
        shape == spec_shape_of(bytes@),
{
    let bom = has_bom_exec(bytes);
    let body = body_bytes(bytes);
    let encoding = if utf8_ok(&body) {
        Encoding::Utf8
    } else {
        Encoding::Latin1
    };
    (encoding, bom, first_ending_is_crlf(&body))
}

/// `s.replace("\r\n", "\n")`.
pub open spec fn crlf_to_lf(s: Seq<char>) -> Seq<char>
    decreases s.len(),
{
    if s.len() == 0 {
        s
    } else if s.len() >= 2 && s[0] == '\r' && s[1] == '\n' {
        seq!['\n'] + crlf_to_lf(s.skip(2))
    } else {
        seq![s[0]] + crlf_to_lf(s.skip(1))
    }
}

/// `s.replace('\n', "\r\n")`.
pub open spec fn lf_to_crlf(s: Seq<char>) -> Seq<char>
    decreases s.len(),
{
    if s.len() == 0 {
        s
    } else if s[0] == '\n' {
        seq!['\r', '\n'] + lf_to_crlf(s.skip(1))
    } else {
        seq![s[0]] + lf_to_crlf(s.skip(1))
    }
}

fn crlf_to_lf_exec(v: &[char]) -> (out: Vec<char>)
    ensures
        out@ == crlf_to_lf(v@),
{
    let mut out: Vec<char> = Vec::new();
    let mut i: usize = 0;
    assert(v@.skip(0) =~= v@);
    while i < v.len()
        invariant
            i <= v@.len(),
            out@ + crlf_to_lf(v@.skip(i as int)) == crlf_to_lf(v@),
        decreases v@.len() - i,
    {
        let ghost rest = v@.skip(i as int);
        if i + 1 < v.len() && v[i] == '\r' && v[i + 1] == '\n' {
            assert(rest.skip(2) =~= v@.skip(i + 2));
            out.push('\n');
            assert(out@ + crlf_to_lf(v@.skip(i + 2)) =~= (out@.drop_last() + crlf_to_lf(rest)));
            i = i + 2;
        } else {
            assert(rest.skip(1) =~= v@.skip(i + 1));
            out.push(v[i]);
            assert(out@ + crlf_to_lf(v@.skip(i + 1)) =~= (out@.drop_last() + crlf_to_lf(rest)));
            i = i + 1;
        }
    }
    assert(v@.skip(i as int) =~= Seq::<char>::empty());
    assert(out@ + crlf_to_lf(Seq::<char>::empty()) =~= out@);
    out
}

fn lf_to_crlf_exec(v: &[char]) -> (out: Vec<char>)
    ensures
        out@ == lf_to_crlf(v@),
{
    let mut out: Vec<char> = Vec::new();
    let mut i: usize = 0;
    assert(v@.skip(0) =~= v@);
    while i < v.len()
        invariant
            i <= v@.len(),
            out@ + lf_to_crlf(v@.skip(i as int)) == lf_to_crlf(v@),
        decreases v@.len() - i,
    {
        let ghost rest = v@.skip(i as int);
        let ghost before = out@;
        assert(rest.skip(1) =~= v@.skip(i + 1));
        if v[i] == '\n' {
            out.push('\r');
            out.push('\n');
            assert(out@ =~= before + seq!['\r', '\n']);
        } else {
            out.push(v[i]);
            assert(out@ =~= before + seq![v@[i as int]]);
        }
        assert(out@ + lf_to_crlf(v@.skip(i + 1)) =~= before + lf_to_crlf(rest));
        i = i + 1;
    }
    assert(v@.skip(i as int) =~= Seq::<char>::empty());
    assert(out@ + lf_to_crlf(Seq::<char>::empty()) =~= out@);
    out
}

/// Bytes read one per character, as Latin-1 is.
pub open spec fn latin1_chars(b: Seq<u8>) -> Seq<char> {
    b.map_values(|x: u8| (x as u32) as char)
}

/// Valid UTF-8 read as text, anything else with the replacement character
/// where it fails.
pub uninterp spec fn utf8_lossy(b: Seq<u8>) -> Seq<char>;

/// `String::from_utf8_lossy`. Claimed: the result is `utf8_lossy` of the
/// bytes, and for valid UTF-8 it is exactly the text the bytes encode, which
/// is what its documentation says. What replaces invalid bytes is not stated.
#[verifier::external_body]
fn from_utf8_lossy(b: &[u8]) -> (s: String)
    ensures
        s@ == utf8_lossy(b@),
        valid_utf8(b@) ==> s@ == decode_utf8(b@),
{
    String::from_utf8_lossy(b).into_owned()
}

/// Valid UTF-8 as the text it encodes.
pub(crate) fn utf8_text(b: &[u8]) -> (s: String)
    requires
        valid_utf8(b@),
    ensures
        s@ == decode_utf8(b@),
{
    from_utf8_lossy(b)
}

/// The copy as text: no mark, the bytes read in the file's encoding, and
/// line endings an editor understands.
pub open spec fn spec_decode(bytes: Seq<u8>, encoding: Encoding, crlf: bool) -> Seq<char> {
    let body = body_of(bytes);
    let text = match encoding {
        Encoding::Utf8 => if valid_utf8(body) {
            decode_utf8(body)
        } else {
            utf8_lossy(body)
        },
        Encoding::Latin1 => latin1_chars(body),
    };
    if crlf {
        crlf_to_lf(text)
    } else {
        text
    }
}

fn latin1_exec(b: &[u8]) -> (out: Vec<char>)
    ensures
        out@ == latin1_chars(b@),
{
    let mut out: Vec<char> = Vec::new();
    let mut i: usize = 0;
    while i < b.len()
        invariant
            i <= b@.len(),
            out@ == latin1_chars(b@.take(i as int)),
        decreases b@.len() - i,
    {
        let c = crate::text::char_from(b[i] as u32);
        out.push(c);
        i = i + 1;
        assert(latin1_chars(b@.take(i as int)) =~= latin1_chars(b@.take(i - 1)).push(c));
    }
    assert(b@.take(b@.len() as int) =~= b@);
    out
}

pub fn decode(bytes: &[u8], encoding: Encoding, crlf: bool) -> (s: String)
    ensures
        s@ == spec_decode(bytes@, encoding, crlf),
{
    let body = body_bytes(bytes);
    let text: Vec<char> = match encoding {
        Encoding::Utf8 => {
            let t = from_utf8_lossy(&body);
            chars_of(t.as_str())
        },
        Encoding::Latin1 => latin1_exec(&body),
    };
    if crlf {
        string_of(&crlf_to_lf_exec(&text))
    } else {
        string_of(&text)
    }
}

/// The line endings text is written back with: flattened first, so text that
/// already holds CR LF does not grow a second carriage return.
pub open spec fn written_endings(text: Seq<char>, crlf: bool) -> Seq<char> {
    if crlf {
        lf_to_crlf(crlf_to_lf(text))
    } else {
        crlf_to_lf(text)
    }
}

/// The first character that Latin-1 cannot hold, or -1.
pub open spec fn first_unfit(s: Seq<char>, i: int) -> int
    decreases s.len() - i,
{
    if i < 0 || i >= s.len() {
        -1
    } else if (s[i] as u32) > 0xFF {
        i
    } else {
        first_unfit(s, i + 1)
    }
}

/// Characters as Latin-1 bytes.
pub open spec fn latin1_bytes(s: Seq<char>) -> Seq<u8> {
    s.map_values(|c: char| (c as u32) as u8)
}

/// Text as the file was written, mark and line endings and all; or the
/// first character the file's encoding cannot hold.
pub open spec fn spec_encode(text: Seq<char>, encoding: Encoding, bom_wanted: bool, crlf: bool) -> Result<Seq<u8>, char> {
    let body = written_endings(text, crlf);
    let prefix = if bom_wanted {
        bom()
    } else {
        Seq::<u8>::empty()
    };
    match encoding {
        Encoding::Utf8 => Ok(prefix + encode_utf8(body)),
        Encoding::Latin1 => {
            let k = first_unfit(body, 0);
            if k < 0 {
                Ok(prefix + latin1_bytes(body))
            } else {
                Err(body[k])
            }
        },
    }
}

/// The result of `encode`, as plain values.
pub open spec fn encoded_view(r: Result<Vec<u8>, Error>) -> Result<Seq<u8>, char> {
    match r {
        Ok(v) => Ok(v@),
        Err(Error::TextDoesNotFit { character }) if character@.len() == 1 => Err(character@[0]),
        Err(_) => Err('\0'),
    }
}

proof fn lemma_first_unfit(s: Seq<char>, i: int)
    requires
        0 <= i <= s.len(),
    ensures
        -1 <= first_unfit(s, i) < s.len(),
        first_unfit(s, i) >= 0 ==> i <= first_unfit(s, i) && (s[first_unfit(s, i)] as u32) > 0xFF,
        forall|k: int|
            i <= k < s.len() && (first_unfit(s, i) < 0 || k < first_unfit(s, i)) ==> (s[k] as u32)
                <= 0xFF,
    decreases s.len() - i,
{
    if i < s.len() && (s[i] as u32) <= 0xFF {
        lemma_first_unfit(s, i + 1);
    }
}

fn append_bytes(a: &mut Vec<u8>, b: &[u8])
    ensures
        final(a)@ == old(a)@ + b@,
{
    let mut i: usize = 0;
    while i < b.len()
        invariant
            i <= b@.len(),
            a@ == old(a)@ + b@.take(i as int),
        decreases b@.len() - i,
    {
        a.push(b[i]);
        i = i + 1;
        assert(b@.take(i as int) =~= b@.take(i - 1).push(b@[i - 1]));
    }
    assert(b@.take(b@.len() as int) =~= b@);
}

pub fn encode(text: &str, encoding: Encoding, bom_wanted: bool, crlf: bool) -> (r: Result<Vec<u8>, Error>)
    ensures
        encoded_view(r) == spec_encode(text@, encoding, bom_wanted, crlf),
        r is Err ==> r->Err_0 matches Error::TextDoesNotFit { .. },
{
    let raw = chars_of(text);
    let flat = crlf_to_lf_exec(&raw);
    let body: Vec<char> = if crlf {
        lf_to_crlf_exec(&flat)
    } else {
        flat
    };
    let mut out: Vec<u8> = Vec::new();
    if bom_wanted {
        out.push(0xEF);
        out.push(0xBB);
        out.push(0xBF);
        assert(out@ =~= bom());
    } else {
        assert(out@ =~= Seq::<u8>::empty());
    }
    let ghost prefix = out@;
    match encoding {
        Encoding::Utf8 => {
            let s = string_of(&body);
            let bytes = s.as_str().as_bytes();
            append_bytes(&mut out, bytes);
        },
        Encoding::Latin1 => {
            proof {
                lemma_first_unfit(body@, 0);
            }
            let mut i: usize = 0;
            while i < body.len()
                invariant
                    i <= body@.len(),
                    body@ == written_endings(text@, crlf),
                    prefix == (if bom_wanted {
                        bom()
                    } else {
                        Seq::<u8>::empty()
                    }),
                    encoding == Encoding::Latin1,
                    out@ == prefix + latin1_bytes(body@.take(i as int)),
                    forall|k: int| 0 <= k < i ==> (body@[k] as u32) <= 0xFF,
                    first_unfit(body@, 0) == first_unfit(body@, i as int),
                decreases body@.len() - i,
            {
                let c = body[i];
                if (c as u32) > 0xFF {
                    let mut one = String::new();
                    crate::text::push_char(&mut one, c);
                    assert(one@ =~= seq![c]);
                    return Err(Error::TextDoesNotFit { character: one });
                }
                out.push(c as u32 as u8);
                i = i + 1;
                assert(latin1_bytes(body@.take(i as int)) =~= latin1_bytes(body@.take(i - 1)).push(
                    (c as u32) as u8,
                ));
            }
            assert(body@.take(body@.len() as int) =~= body@);
        },
    }
    Ok(out)
}

/// Whether line endings are all of one kind: with `crlf`, every line feed
/// follows a carriage return that follows no other; without, no carriage
/// return is followed by a line feed.
pub open spec fn consistent_endings(t: Seq<char>, crlf: bool) -> bool {
    if crlf {
        forall|i: int|
            0 <= i < t.len() && #[trigger] t[i] == '\n' ==> i >= 1 && t[i - 1] == '\r' && (i >= 2
                ==> t[i - 2] != '\r')
    } else {
        no_crlf(t)
    }
}

/// No carriage return is directly followed by a line feed.
pub open spec fn no_crlf(t: Seq<char>) -> bool {
    forall|i: int| 0 <= i < t.len() - 1 && #[trigger] t[i] == '\r' ==> t[i + 1] != '\n'
}

proof fn lemma_flat_is_unchanged(t: Seq<char>)
    requires
        no_crlf(t),
    ensures
        crlf_to_lf(t) == t,
    decreases t.len(),
{
    if t.len() > 0 {
        let r = t.skip(1);
        assert(no_crlf(r)) by {
            assert forall|i: int| 0 <= i < r.len() - 1 && #[trigger] r[i] == '\r' implies r[i + 1]
                != '\n' by {
                assert(t[i + 1] == '\r');
            }
        }
        lemma_flat_is_unchanged(r);
        if t.len() >= 2 && t[0] == '\r' {
            assert(t[1] != '\n');
        }
        assert(t =~= seq![t[0]] + r);
    }
}

proof fn lemma_crlf_comes_back(t: Seq<char>)
    requires
        consistent_endings(t, true),
    ensures
        lf_to_crlf(crlf_to_lf(t)) == t,
        no_crlf(crlf_to_lf(t)),
        crlf_to_lf(t).len() > 0 ==> (crlf_to_lf(t)[0] == '\n' <==> (t.len() >= 2 && t[0] == '\r'
            && t[1] == '\n')),
    decreases t.len(),
{
    if t.len() == 0 {
    } else if t.len() >= 2 && t[0] == '\r' && t[1] == '\n' {
        let r = t.skip(2);
        assert(consistent_endings(r, true)) by {
            assert forall|j: int| 0 <= j < r.len() && #[trigger] r[j] == '\n' implies j >= 1 && r[j
                - 1] == '\r' && (j >= 2 ==> r[j - 2] != '\r') by {
                assert(t[j + 2] == '\n');
                if j == 0 {
                    assert(t[1] == '\r');
                }
            }
        }
        lemma_crlf_comes_back(r);
        let d = crlf_to_lf(t);
        let dr = crlf_to_lf(r);
        assert(d == seq!['\n'] + dr);
        assert(d.skip(1) =~= dr);
        assert(lf_to_crlf(d) == seq!['\r', '\n'] + lf_to_crlf(dr));
        assert(t =~= seq!['\r', '\n'] + r);
        assert(no_crlf(d)) by {
            assert forall|i: int| 0 <= i < d.len() - 1 && #[trigger] d[i] == '\r' implies d[i + 1]
                != '\n' by {
                assert(i >= 1);
                assert(d[i] == dr[i - 1]);
                assert(d[i + 1] == dr[i]);
            }
        }
    } else {
        assert(t[0] != '\n');
        let r = t.skip(1);
        assert(consistent_endings(r, true)) by {
            assert forall|j: int| 0 <= j < r.len() && #[trigger] r[j] == '\n' implies j >= 1 && r[j
                - 1] == '\r' && (j >= 2 ==> r[j - 2] != '\r') by {
                assert(t[j + 1] == '\n');
                if j == 0 {
                    assert(t[0] == '\r');
                }
            }
        }
        lemma_crlf_comes_back(r);
        let d = crlf_to_lf(t);
        let dr = crlf_to_lf(r);
        assert(d == seq![t[0]] + dr);
        assert(d.skip(1) =~= dr);
        assert(lf_to_crlf(d) == seq![t[0]] + lf_to_crlf(dr));
        assert(t =~= seq![t[0]] + r);
        assert(no_crlf(d)) by {
            assert forall|i: int| 0 <= i < d.len() - 1 && #[trigger] d[i] == '\r' implies d[i + 1]
                != '\n' by {
                if i == 0 {
                    assert(t[0] == '\r');
                    if dr.len() > 0 && dr[0] == '\n' {
                        assert(r.len() >= 2 && r[0] == '\r' && r[1] == '\n');
                        assert(t[2] == '\n');
                    }
                    assert(d[1] == dr[0]);
                } else {
                    assert(d[i] == dr[i - 1]);
                    assert(d[i + 1] == dr[i]);
                }
            }
        }
    }
}

/// The text of a file's body before its line endings are touched.
pub open spec fn body_text(bytes: Seq<u8>, encoding: Encoding) -> Seq<char> {
    match encoding {
        Encoding::Utf8 => decode_utf8(body_of(bytes)),
        Encoding::Latin1 => latin1_chars(body_of(bytes)),
    }
}

proof fn lemma_latin1_comes_back(b: Seq<u8>)
    ensures
        latin1_bytes(latin1_chars(b)) == b,
        first_unfit(latin1_chars(b), 0) == -1,
{
    let c = latin1_chars(b);
    assert forall|i: int| 0 <= i < b.len() implies (c[i] as u32) <= 0xFF && ((c[i] as u32) as u8)
        == b[i] by {
        let x = b[i];
        assert(c[i] == (x as u32) as char);
        vstd::utf8::char_u32_cast(c[i], c[i] as u32);
    }
    assert(latin1_bytes(c) =~= b);
    lemma_no_unfit(c, 0);
}

proof fn lemma_no_unfit(s: Seq<char>, i: int)
    requires
        0 <= i <= s.len(),
        forall|k: int| 0 <= k < s.len() ==> (s[k] as u32) <= 0xFF,
    ensures
        first_unfit(s, i) == -1,
    decreases s.len() - i,
{
    if i < s.len() {
        lemma_no_unfit(s, i + 1);
    }
}

/// What goes back is byte for byte what came out: a file read as text in the
/// shape it was found, and that text written back in the same shape, gives
/// the file again, mark, encoding and line endings included, provided its
/// line endings are all of the kind its first line shows.
pub proof fn what_goes_back_is_what_came_out(bytes: Seq<u8>)
    requires
        consistent_endings(body_text(bytes, spec_shape_of(bytes).0), spec_shape_of(bytes).2),
    ensures
        ({
            let (encoding, with_bom, crlf) = spec_shape_of(bytes);
            spec_encode(spec_decode(bytes, encoding, crlf), encoding, with_bom, crlf) == Ok::<
                Seq<u8>,
                char,
            >(bytes)
        }),
{
    let (encoding, with_bom, crlf) = spec_shape_of(bytes);
    let body = body_of(bytes);
    let t = body_text(bytes, encoding);
    let decoded = spec_decode(bytes, encoding, crlf);
    assert(decoded == (if crlf {
        crlf_to_lf(t)
    } else {
        t
    }));
    if crlf {
        lemma_crlf_comes_back(t);
        lemma_flat_is_unchanged(crlf_to_lf(t));
        assert(written_endings(decoded, crlf) == t);
    } else {
        lemma_flat_is_unchanged(t);
        assert(written_endings(decoded, crlf) == t);
    }
    let prefix = if with_bom {
        bom()
    } else {
        Seq::<u8>::empty()
    };
    assert(prefix + body =~= bytes);
    match encoding {
        Encoding::Utf8 => {
            vstd::utf8::decode_utf8_encode_utf8(body);
        },
        Encoding::Latin1 => {
            lemma_latin1_comes_back(body);
        },
    }
}

/// The name a path ends in, which is the name the copy keeps; `file` where
/// there is none.
pub open spec fn spec_leaf(path: Seq<char>) -> Seq<char> {
    let trimmed = crate::fs::without_trailing_slashes(path);
    let i = crate::text::rfind_before(trimmed, '/', trimmed.len() as int);
    let name = trimmed.skip(i + 1);
    if name.len() == 0 {
        "file"@
    } else {
        name
    }
}

pub fn leaf(path: &str) -> (name: String)
    ensures
        name@ == spec_leaf(path@),
{
    let v = chars_of(path);
    let trimmed = crate::fs::trailing_slashes_off(&v);
    proof {
        crate::text::lemma_rfind_before(trimmed@, '/', trimmed@.len() as int);
    }
    let start = match crate::text::rfind_char_before(&trimmed, '/', trimmed.len()) {
        Some(i) => i + 1,
        None => 0,
    };
    let name = crate::text::slice_range(&trimmed, start, trimmed.len());
    assert(name@ =~= trimmed@.skip(crate::text::rfind_before(trimmed@, '/', trimmed@.len() as int)
        + 1));
    if name.len() == 0 {
        "file".to_string()
    } else {
        string_of(&name)
    }
}

/// Whether the table lets a file be edited: the copy's name when it does,
/// and otherwise a refusal naming the file and its kind.
pub fn check_kind(rules: &[EditRule], path: &str) -> (r: Result<String, Error>)
    ensures
        first_rule(rules@, spec_leaf(path@), 0) >= 0 <==> r is Ok,
        r matches Ok(name) ==> name@ == spec_leaf(path@),
        r matches Err(e) ==> (e matches Error::TypeNotEdited { path: p, extension } && p@ == path@
            && extension@ == match spec_extension_of(lower_case(spec_leaf(path@))) {
            Some(x) => x,
            None => Seq::<char>::empty(),
        }),
{
    let name = leaf(path);
    match how_to_open(rules, name.as_str()) {
        Some(_) => Ok(name),
        None => {
            let lower = to_lower(name.as_str());
            let lc = chars_of(lower.as_str());
            let extension = match extension_of(&lc) {
                Some(e) => string_of(&e),
                None => String::new(),
            };
            Err(Error::TypeNotEdited { path: path.to_string(), extension })
        },
    }
}

/// Whether a file is small enough to be edited.
pub fn check_size(path: &str, size: u64) -> (r: Result<(), Error>)
    ensures
        size <= LARGEST <==> r is Ok,
        r matches Err(e) ==> (e matches Error::TooBigToEdit { path: p, megabytes } && p@ == path@
            && megabytes == 20),
{
    if size > LARGEST {
        let megabytes = LARGEST / (1024 * 1024);
        assert(megabytes == 20) by (nonlinear_arith)
            requires
                megabytes == 20971520u64 / 1048576u64,
        ;
        Err(Error::TooBigToEdit { path: path.to_string(), megabytes })
    } else {
        Ok(())
    }
}

/// One file taken off a server to be worked on.
#[derive(Debug)]
pub struct Edit {
    pub id: String,
    pub endpoint: String,
    pub remote_path: String,
    pub name: String,
    /// Where the copy lies on this machine.
    pub local_path: String,
    pub encoding: Encoding,
    /// Seconds since the epoch, for showing the list in the order it grew.
    pub opened: i64,
    /// Whether the file began with a byte order mark.
    pub bom: bool,
    /// Whether its first line ended with CR LF.
    pub crlf: bool,
    /// Size and modification time of the server's file when the copy was
    /// taken, and again after each write-back.
    pub taken: Stamp,
    /// Size and modification time of the copy after the last write this
    /// program made to it.
    pub written: Stamp,
}

/// Where a copy is and what it was taken from, before its bytes are looked at.
pub struct Taking {
    pub id: String,
    pub endpoint: String,
    pub remote_path: String,
    pub name: String,
    pub local_path: String,
    pub opened: i64,
    pub taken: Stamp,
    pub written: Stamp,
}

/// What the bytes of a fresh copy make of it: refused when they are not
/// text, and otherwise an edit in the shape the bytes were found in.
pub fn copy_taken(taking: Taking, bytes: &[u8]) -> (r: Result<Edit, Error>)
    ensures
        spec_looks_binary(bytes@) <==> r is Err,
        r matches Err(e) ==> (e matches Error::NotTextToEdit { path } && path == taking.remote_path),
        r matches Ok(edit) ==> {
            &&& (edit.encoding, edit.bom, edit.crlf) == spec_shape_of(bytes@)
            &&& edit.id == taking.id
            &&& edit.endpoint == taking.endpoint
            &&& edit.remote_path == taking.remote_path
            &&& edit.name == taking.name
            &&& edit.local_path == taking.local_path
            &&& edit.opened == taking.opened
            &&& edit.taken == taking.taken
            &&& edit.written == taking.written
        },
{
    if looks_binary(bytes) {
        return Err(Error::NotTextToEdit { path: taking.remote_path });
    }
    let (encoding, bom, crlf) = shape_of(bytes);
    Ok(
        Edit {
            id: taking.id,
            endpoint: taking.endpoint,
            remote_path: taking.remote_path,
            name: taking.name,
            local_path: taking.local_path,
            encoding,
            opened: taking.opened,
            bom,
            crlf,
            taken: taking.taken,
            written: taking.written,
        },
    )
}

/// Whether a write-back may go ahead: when told to, when the server's file
/// could not be looked at (it is put back), or when it is the one the copy
/// was taken from. Otherwise somebody changed it in the meantime.
pub fn may_push(edit: &Edit, now: Option<Stamp>, anyway: bool) -> (r: Result<(), Error>)
    ensures
        r is Ok <==> (anyway || now is None || spec_same_file(edit.taken, now->Some_0)),
        r matches Err(e) ==> (e matches Error::EditChangedOnServer { path } && path@
            == edit.remote_path@),
{
    if anyway {
        return Ok(());
    }
    match now {
        Some(stamp) => if same_file(edit.taken, stamp) {
            Ok(())
        } else {
            Err(Error::EditChangedOnServer { path: edit.remote_path.clone() })
        },
        None => Ok(()),
    }
}

/// Whether a copy was saved by somebody else since this program last wrote
/// it: it can be looked at, and it is not what this program left.
pub fn saved_since(written: Stamp, now: Stamp) -> (b: bool)
    ensures
        b == (now != (0u64, None::<i64>) && now != written),
{
    let nothing = now.0 == 0 && now.1.is_none();
    let same = now.0 == written.0 && now.1 == written.1;
    !nothing && !same
}

/// The files being worked on.
pub struct Edits {
    pub root: String,
    pub open: Vec<Edit>,
}

/// The first edit of a file on an endpoint, or -1.
pub open spec fn first_edit_of(open: Seq<Edit>, endpoint: Seq<char>, path: Seq<char>, i: int) -> int
    decreases open.len() - i,
{
    if i < 0 || i >= open.len() {
        -1
    } else if open[i].endpoint@ == endpoint && open[i].remote_path@ == path {
        i
    } else {
        first_edit_of(open, endpoint, path, i + 1)
    }
}

/// The first edit with an identifier, or -1.
pub open spec fn edit_with_id(open: Seq<Edit>, id: Seq<char>, i: int) -> int
    decreases open.len() - i,
{
    if i < 0 || i >= open.len() {
        -1
    } else if open[i].id@ == id {
        i
    } else {
        edit_with_id(open, id, i + 1)
    }
}

impl Edits {
    pub fn at(root: &str) -> (e: Self)
        ensures
            e.root@ == root@,
            e.open@.len() == 0,
    {
        Edits { root: root.to_string(), open: Vec::new() }
    }

    pub fn root(&self) -> (r: &str)
        ensures
            r@ == self.root@,
    {
        self.root.as_str()
    }

    /// The copy already taken of this file on this endpoint, if any: asking
    /// twice gives back the first copy rather than a second one.
    pub fn already(&self, endpoint: &str, path: &str) -> (r: Option<&Edit>)
        ensures
            match r {
                Some(e) => first_edit_of(self.open@, endpoint@, path@, 0) >= 0 && *e
                    == self.open@[first_edit_of(self.open@, endpoint@, path@, 0)],
                None => first_edit_of(self.open@, endpoint@, path@, 0) == -1,
            },
    {
        let mut i: usize = 0;
        while i < self.open.len()
            invariant
                i <= self.open@.len(),
                first_edit_of(self.open@, endpoint@, path@, 0) == first_edit_of(
                    self.open@,
                    endpoint@,
                    path@,
                    i as int,
                ),
            decreases self.open@.len() - i,
        {
            let e = &self.open[i];
            if crate::text::str_eq(e.endpoint.as_str(), endpoint) && crate::text::str_eq(
                e.remote_path.as_str(),
                path,
            ) {
                return Some(e);
            }
            i = i + 1;
        }
        None
    }

    /// Begins working on a copy.
    pub fn insert(&mut self, edit: Edit)
        ensures
            final(self).open@ == old(self).open@.push(edit),
            final(self).root == old(self).root,
    {
        self.open.push(edit);
    }

    /// The edit with this identifier.
    pub fn one(&self, id: &str) -> (r: Option<&Edit>)
        ensures
            match r {
                Some(e) => edit_with_id(self.open@, id@, 0) >= 0 && *e == self.open@[edit_with_id(
                    self.open@,
                    id@,
                    0,
                )],
                None => edit_with_id(self.open@, id@, 0) == -1,
            },
    {
        let mut i: usize = 0;
        while i < self.open.len()
            invariant
                i <= self.open@.len(),
                edit_with_id(self.open@, id@, 0) == edit_with_id(self.open@, id@, i as int),
            decreases self.open@.len() - i,
        {
            if crate::text::str_eq(self.open[i].id.as_str(), id) {
                return Some(&self.open[i]);
            }
            i = i + 1;
        }
        None
    }

    /// Stops working on one file; the copy itself is the caller's to keep or
    /// throw away.
    pub fn finish(&mut self, id: &str) -> (r: Option<Edit>)
        ensures
            match r {
                Some(e) => {
                    let i = edit_with_id(old(self).open@, id@, 0);
                    &&& 0 <= i < old(self).open@.len()
                    &&& e == old(self).open@[i]
                    &&& final(self).open@ == old(self).open@.remove(i)
                },
                None => edit_with_id(old(self).open@, id@, 0) == -1 && final(self).open@ == old(
                    self,
                ).open@,
            },
            final(self).root == old(self).root,
    {
        let mut i: usize = 0;
        while i < self.open.len()
            invariant
                i <= self.open@.len(),
                self.open@ == old(self).open@,
                self.root == old(self).root,
                edit_with_id(self.open@, id@, 0) == edit_with_id(self.open@, id@, i as int),
            decreases self.open@.len() - i,
        {
            if crate::text::str_eq(self.open[i].id.as_str(), id) {
                let e = self.open.remove(i);
                return Some(e);
            }
            i = i + 1;
        }
        None
    }
}

/// Line endings in bytes, as [`consistent_endings`] says them of text: with
/// `crlf`, every line feed follows a carriage return that follows no other;
/// without, no carriage return is followed by a line feed.
pub open spec fn endings_in_bytes(b: Seq<u8>, crlf: bool) -> bool {
    if crlf {
        forall|i: int|
            0 <= i < b.len() && #[trigger] b[i] == 10 ==> i >= 1 && b[i - 1] == 13 && (i >= 2 ==> b[i - 2]
                != 13)
    } else {
        forall|i: int| 0 <= i < b.len() - 1 && #[trigger] b[i] == 13 ==> b[i + 1] != 10
    }
}

/// Every line feed after the first place follows a carriage return that
/// follows no other, in bytes.
pub open spec fn byte_lf_after_cr(b: Seq<u8>) -> bool {
    forall|i: int| 1 <= i < b.len() && #[trigger] b[i] == 10 ==> b[i - 1] == 13 && (i >= 2 ==> b[i - 2] != 13)
}

/// The same of text.
pub open spec fn char_lf_after_cr(t: Seq<char>) -> bool {
    forall|i: int| 1 <= i < t.len() && #[trigger] t[i] == '\n' ==> t[i - 1] == '\r' && (i >= 2 ==> t[i - 2] != '\r')
}

proof fn lemma_first_scalar(b: Seq<u8>)
    requires
        b.len() > 0,
        vstd::utf8::valid_first_scalar(b),
    ensures
        ({
            let c = vstd::utf8::decode_first_scalar(b) as char;
            let l = vstd::utf8::length_of_first_scalar(b);
            &&& 1 <= l <= b.len()
            &&& (c == '\n') == (b[0] == 10)
            &&& (c == '\r') == (b[0] == 13)
            &&& b[0] <= 0x7f ==> l == 1
            &&& l > 1 ==> b[l - 1] != 10 && b[l - 1] != 13 && b[0] != 10 && b[0] != 13
        }),
{
    let b0 = b[0];
    if b0 <= 0x7f {
        assert(b0 & 0x7f == b0) by (bit_vector)
            requires
                b0 <= 0x7f,
        ;
        assert(vstd::utf8::decode_first_scalar(b) == b0 as u32);
    } else {
        let v = vstd::utf8::decode_first_scalar(b);
        if vstd::utf8::is_leading_byte_width_2(b0) {
            let b1 = b[1];
            assert(((b0 & 0x1Fu8) as u32) << 6u32 | ((b1 & 0x3fu8) as u32) <= 0x7ff) by (bit_vector);
        } else if vstd::utf8::is_leading_byte_width_3(b0) {
            let b1 = b[1];
            let b2 = b[2];
            assert(((b0 & 0x0Fu8) as u32) << 12u32 | ((b1 & 0x3fu8) as u32) << 6u32 | ((b2 & 0x3fu8) as u32)
                <= 0xffff) by (bit_vector);
        }
        assert(0x80 <= v <= 0x10ffff);
    }
}

proof fn lemma_utf8_crlf(b: Seq<u8>)
    requires
        valid_utf8(b),
        byte_lf_after_cr(b),
    ensures
        char_lf_after_cr(decode_utf8(b)),
        decode_utf8(b).len() > 0 ==> b.len() > 0 && (decode_utf8(b)[0] == '\n') == (b[0] == 10) && (decode_utf8(
            b,
        )[0] == '\r') == (b[0] == 13),
        decode_utf8(b).len() > 1 && decode_utf8(b)[0] == '\r' ==> b.len() > 1 && (decode_utf8(b)[1] == '\n')
            == (b[1] == 10),
    decreases b.len(),
{
    if b.len() > 0 {
        lemma_first_scalar(b);
        let l = vstd::utf8::length_of_first_scalar(b);
        let rest = vstd::utf8::pop_first_scalar(b);
        let c = vstd::utf8::decode_first_scalar(b) as char;
        assert(rest.len() == b.len() - l);
        assert forall|i: int| 0 <= i < rest.len() implies #[trigger] rest[i] == b[l + i] by {}
        assert(byte_lf_after_cr(rest)) by {
            assert forall|i: int| 1 <= i < rest.len() && #[trigger] rest[i] == 10 implies rest[i - 1] == 13 && (i
                >= 2 ==> rest[i - 2] != 13) by {
                assert(b[l + i] == 10);
                assert(rest[i - 1] == b[l + i - 1]);
                if i >= 2 {
                    assert(rest[i - 2] == b[l + i - 2]);
                }
            }
        }
        lemma_utf8_crlf(rest);
        let tr = decode_utf8(rest);
        let t = decode_utf8(b);
        assert(t == seq![c] + tr);
        assert forall|i: int| 1 <= i < t.len() && #[trigger] t[i] == '\n' implies t[i - 1] == '\r' && (i >= 2
            ==> t[i - 2] != '\r') by {
            assert(t[i] == tr[i - 1]);
            if i == 1 {
                assert(rest[0] == 10);
                assert(b[l] == 10);
                assert(b[l - 1] == 13);
                assert(l == 1);
            } else if i == 2 {
                assert(tr[0] == '\r');
                assert(t[1] == tr[0]);
                assert(rest[1] == 10);
                assert(b[l + 1] == 10);
                assert(b[l] == 13);
                if l == 1 {
                    assert(b[0] != 13);
                }
            } else {
                assert(t[i - 1] == tr[i - 2]);
                assert(t[i - 2] == tr[i - 3]);
            }
        }
        if t.len() > 1 && t[0] == '\r' {
            assert(l == 1);
            assert(t[1] == tr[0]);
            assert(rest[0] == b[1]);
        }
    }
}

proof fn lemma_utf8_flat(b: Seq<u8>)
    requires
        valid_utf8(b),
        endings_in_bytes(b, false),
    ensures
        no_crlf(decode_utf8(b)),
        decode_utf8(b).len() > 0 ==> b.len() > 0 && (decode_utf8(b)[0] == '\n') == (b[0] == 10),
    decreases b.len(),
{
    if b.len() > 0 {
        lemma_first_scalar(b);
        let l = vstd::utf8::length_of_first_scalar(b);
        let rest = vstd::utf8::pop_first_scalar(b);
        let c = vstd::utf8::decode_first_scalar(b) as char;
        assert(rest.len() == b.len() - l);
        assert forall|i: int| 0 <= i < rest.len() implies #[trigger] rest[i] == b[l + i] by {}
        assert(endings_in_bytes(rest, false)) by {
            assert forall|i: int| 0 <= i < rest.len() - 1 && #[trigger] rest[i] == 13 implies rest[i + 1] != 10 by {
                assert(b[l + i] == 13);
                assert(rest[i + 1] == b[l + i + 1]);
            }
        }
        lemma_utf8_flat(rest);
        let tr = decode_utf8(rest);
        let t = decode_utf8(b);
        assert(t == seq![c] + tr);
        assert forall|i: int| 0 <= i < t.len() - 1 && #[trigger] t[i] == '\r' implies t[i + 1] != '\n' by {
            assert(t[i + 1] == tr[i]);
            if i == 0 {
                assert(b[0] == 13);
                assert(l == 1);
                assert(rest[0] == b[1]);
            } else {
                assert(t[i] == tr[i - 1]);
            }
        }
    }
}

proof fn lemma_endings_carry_over(bytes: Seq<u8>)
    requires
        endings_in_bytes(body_of(bytes), spec_shape_of(bytes).2),
    ensures
        consistent_endings(body_text(bytes, spec_shape_of(bytes).0), spec_shape_of(bytes).2),
{
    let (encoding, _, crlf) = spec_shape_of(bytes);
    let b = body_of(bytes);
    let t = body_text(bytes, encoding);
    match encoding {
        Encoding::Utf8 => {
            if crlf {
                assert(byte_lf_after_cr(b));
                lemma_utf8_crlf(b);
                if t.len() > 0 {
                    assert(b[0] != 10);
                }
            } else {
                lemma_utf8_flat(b);
            }
        },
        Encoding::Latin1 => {
            assert(t == latin1_chars(b));
            assert forall|i: int| 0 <= i < t.len() implies (#[trigger] t[i] == '\n') == (b[i] == 10) && (t[i] == '\r')
                == (b[i] == 13) by {
                assert(t[i] == (b[i] as u32) as char);
            }
        },
    }
}

/// Text read for editing and written back in the shape it was found gives
/// the same bytes, mark, encoding and line endings included, for every file
/// whose line endings are all of the kind its first line shows.
pub proof fn a_file_written_back_in_its_shape_is_the_same_file(bytes: Seq<u8>)
    requires
        endings_in_bytes(body_of(bytes), spec_shape_of(bytes).2),
    ensures
        ({
            let (encoding, with_bom, crlf) = spec_shape_of(bytes);
            spec_encode(spec_decode(bytes, encoding, crlf), encoding, with_bom, crlf) == Ok::<
                Seq<u8>,
                char,
            >(bytes)
        }),
{
    lemma_endings_carry_over(bytes);
    what_goes_back_is_what_came_out(bytes);
}

} // verus!
