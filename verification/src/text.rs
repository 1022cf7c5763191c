//! Text as sequences of characters: the small vocabulary every reader in this
//! crate is written in, each piece stated as a specification and implemented
//! once.
use vstd::prelude::*;

verus! {

/// Appends one character to a string (`String::push`).
#[verifier::external_body]
pub(crate) fn push_char(s: &mut String, c: char)
    ensures
        final(s)@ == old(s)@.push(c),
{
    s.push(c);
}

/// The characters of a text, in order.
pub fn chars_of(s: &str) -> (v: Vec<char>)
    ensures
        v@ == s@,
{
    let mut v: Vec<char> = Vec::new();
    for c in it: s.chars()
        invariant
            v@ == it.seq().take(it.index() as int),
    {
        v.push(c);
    }
    v
}

/// A string made of the given characters.
pub fn string_of(v: &[char]) -> (s: String)
    ensures
        s@ == v@,
{
    let mut s = String::new();
    let mut i: usize = 0;
    while i < v.len()
        invariant
            i <= v@.len(),
            s@ == v@.take(i as int),
        decreases v@.len() - i,
    {
        push_char(&mut s, v[i]);
        i = i + 1;
    }
    s
}

/// The characters `from..to` of a slice, as a string.
pub fn string_of_range(v: &[char], from: usize, to: usize) -> (s: String)
    requires
        from <= to <= v@.len(),
    ensures
        s@ == v@.subrange(from as int, to as int),
{
    let mut s = String::new();
    let mut i: usize = from;
    while i < to
        invariant
            from <= i <= to <= v@.len(),
            s@ == v@.subrange(from as int, i as int),
        decreases to - i,
    {
        push_char(&mut s, v[i]);
        i = i + 1;
    }
    s
}

/// The characters `from..to` of a slice, as a vector.
pub fn slice_range(v: &[char], from: usize, to: usize) -> (out: Vec<char>)
    requires
        from <= to <= v@.len(),
    ensures
        out@ == v@.subrange(from as int, to as int),
{
    let mut out: Vec<char> = Vec::new();
    let mut i: usize = from;
    while i < to
        invariant
            from <= i <= to <= v@.len(),
            out@ == v@.subrange(from as int, i as int),
        decreases to - i,
    {
        out.push(v[i]);
        i = i + 1;
    }
    out
}

/// Whether a character is white space in Unicode's sense, which is what
/// `char::is_whitespace` answers.
pub open spec fn ws(c: char) -> bool {
    ||| '\u{9}' <= c <= '\u{d}'
    ||| c == ' '
    ||| c == '\u{85}'
    ||| c == '\u{a0}'
    ||| c == '\u{1680}'
    ||| '\u{2000}' <= c <= '\u{200a}'
    ||| c == '\u{2028}'
    ||| c == '\u{2029}'
    ||| c == '\u{202f}'
    ||| c == '\u{205f}'
    ||| c == '\u{3000}'
}

pub fn is_whitespace(c: char) -> (b: bool)
    ensures
        b == ws(c),
{
    ('\u{9}' <= c && c <= '\u{d}') || c == ' ' || c == '\u{85}' || c == '\u{a0}' || c
        == '\u{1680}' || ('\u{2000}' <= c && c <= '\u{200a}') || c == '\u{2028}' || c
        == '\u{2029}' || c == '\u{202f}' || c == '\u{205f}' || c == '\u{3000}'
}

/// First index at or after `i` whose character is white space, or the length.
pub open spec fn next_ws(s: Seq<char>, i: int) -> int
    decreases s.len() - i,
{
    if i >= s.len() {
        s.len() as int
    } else if ws(s[i]) {
        i
    } else {
        next_ws(s, i + 1)
    }
}

/// First index at or after `i` whose character is not white space, or the length.
pub open spec fn skip_ws(s: Seq<char>, i: int) -> int
    decreases s.len() - i,
{
    if i >= s.len() {
        s.len() as int
    } else if ws(s[i]) {
        skip_ws(s, i + 1)
    } else {
        i
    }
}

/// One past the last character before `j` that is not white space, or zero.
pub open spec fn back_ws(s: Seq<char>, j: int) -> int
    decreases j,
{
    if j <= 0 {
        0
    } else if ws(s[j - 1]) {
        back_ws(s, j - 1)
    } else {
        j
    }
}

/// First index at or after `i` holding `c`, or the length.
pub open spec fn find_from(s: Seq<char>, c: char, i: int) -> int
    decreases s.len() - i,
{
    if i >= s.len() {
        s.len() as int
    } else if s[i] == c {
        i
    } else {
        find_from(s, c, i + 1)
    }
}

/// Last index before `j` holding `c`, or -1.
pub open spec fn rfind_before(s: Seq<char>, c: char, j: int) -> int
    decreases j,
{
    if j <= 0 {
        -1
    } else if s[j - 1] == c {
        j - 1
    } else {
        rfind_before(s, c, j - 1)
    }
}

pub open spec fn trim_start(s: Seq<char>) -> Seq<char> {
    s.subrange(skip_ws(s, 0), s.len() as int)
}

pub open spec fn trim_end(s: Seq<char>) -> Seq<char> {
    s.subrange(0, back_ws(s, s.len() as int))
}

/// What `str::trim` leaves.
pub open spec fn trim(s: Seq<char>) -> Seq<char> {
    trim_end(trim_start(s))
}

pub open spec fn contains_char(s: Seq<char>, c: char) -> bool {
    exists|i: int| 0 <= i < s.len() && s[i] == c
}

/// `s.split_once(c)`.
pub open spec fn split_once(s: Seq<char>, c: char) -> Option<(Seq<char>, Seq<char>)> {
    let i = find_from(s, c, 0);
    if i < s.len() {
        Some((s.take(i), s.skip(i + 1)))
    } else {
        None
    }
}

/// `s.rsplit_once(c)`.
pub open spec fn rsplit_once(s: Seq<char>, c: char) -> Option<(Seq<char>, Seq<char>)> {
    let i = rfind_before(s, c, s.len() as int);
    if i >= 0 {
        Some((s.take(i), s.skip(i + 1)))
    } else {
        None
    }
}

/// The pieces `s.split(c)` yields, starting at `i`.
pub open spec fn pieces_from(s: Seq<char>, c: char, i: int) -> Seq<Seq<char>>
    recommends
        0 <= i <= s.len(),
    decreases s.len() - i,
{
    if i < 0 || i >= s.len() {
        seq![s.subrange(i, s.len() as int)]
    } else {
        let j = find_from(s, c, i);
        proof {
            lemma_find_from(s, c, i);
        }
        if j >= s.len() {
            seq![s.subrange(i, s.len() as int)]
        } else {
            seq![s.subrange(i, j)] + pieces_from(s, c, j + 1)
        }
    }
}

/// What `str::split` with one character yields.
pub open spec fn split(s: Seq<char>, c: char) -> Seq<Seq<char>> {
    pieces_from(s, c, 0)
}

pub open spec fn starts_with(s: Seq<char>, p: Seq<char>) -> bool {
    p.len() <= s.len() && s.take(p.len() as int) == p
}

pub open spec fn ends_with(s: Seq<char>, p: Seq<char>) -> bool {
    p.len() <= s.len() && s.skip(s.len() - p.len()) == p
}

/// Whether `p` occurs in `s` starting at `i`.
pub open spec fn occurs_at(s: Seq<char>, p: Seq<char>, i: int) -> bool {
    0 <= i && i + p.len() <= s.len() && s.subrange(i, i + p.len()) == p
}

pub open spec fn contains(s: Seq<char>, p: Seq<char>) -> bool {
    exists|i: int| occurs_at(s, p, i)
}

/// The leftmost place at or after `i` where `p` occurs, or -1.
pub open spec fn find_seq_from(s: Seq<char>, p: Seq<char>, i: int) -> int
    decreases s.len() + 1 - i,
{
    if i < 0 || i + p.len() > s.len() {
        -1
    } else if occurs_at(s, p, i) {
        i
    } else {
        find_seq_from(s, p, i + 1)
    }
}

pub open spec fn ascii_lower(c: char) -> char {
    if 'A' <= c <= 'Z' {
        ((c as u32) + 32) as char
    } else {
        c
    }
}

pub open spec fn ascii_upper(c: char) -> char {
    if 'a' <= c <= 'z' {
        ((c as u32) - 32) as char
    } else {
        c
    }
}

pub open spec fn lower_ascii(s: Seq<char>) -> Seq<char> {
    s.map_values(|c: char| ascii_lower(c))
}

pub open spec fn upper_ascii(s: Seq<char>) -> Seq<char> {
    s.map_values(|c: char| ascii_upper(c))
}

/// `eq_ignore_ascii_case`.
pub open spec fn same_ignoring_case(a: Seq<char>, b: Seq<char>) -> bool {
    a.len() == b.len() && forall|i: int| 0 <= i < a.len() ==> ascii_lower(a[i]) == ascii_lower(b[i])
}

pub proof fn lemma_next_ws(s: Seq<char>, i: int)
    requires
        0 <= i <= s.len(),
    ensures
        i <= next_ws(s, i) <= s.len(),
        forall|k: int| i <= k < next_ws(s, i) ==> !ws(s[k]),
        next_ws(s, i) < s.len() ==> ws(s[next_ws(s, i)]),
    decreases s.len() - i,
{
    if i < s.len() && !ws(s[i]) {
        lemma_next_ws(s, i + 1);
    }
}

pub proof fn lemma_skip_ws(s: Seq<char>, i: int)
    requires
        0 <= i <= s.len(),
    ensures
        i <= skip_ws(s, i) <= s.len(),
        forall|k: int| i <= k < skip_ws(s, i) ==> ws(s[k]),
        skip_ws(s, i) < s.len() ==> !ws(s[skip_ws(s, i)]),
    decreases s.len() - i,
{
    if i < s.len() && ws(s[i]) {
        lemma_skip_ws(s, i + 1);
    }
}

pub proof fn lemma_back_ws(s: Seq<char>, j: int)
    requires
        0 <= j <= s.len(),
    ensures
        0 <= back_ws(s, j) <= j,
        forall|k: int| back_ws(s, j) <= k < j ==> ws(s[k]),
        back_ws(s, j) > 0 ==> !ws(s[back_ws(s, j) - 1]),
    decreases j,
{
    if j > 0 && ws(s[j - 1]) {
        lemma_back_ws(s, j - 1);
    }
}

pub proof fn lemma_find_from(s: Seq<char>, c: char, i: int)
    requires
        0 <= i <= s.len(),
    ensures
        i <= find_from(s, c, i) <= s.len(),
        forall|k: int| i <= k < find_from(s, c, i) ==> s[k] != c,
        find_from(s, c, i) < s.len() ==> s[find_from(s, c, i)] == c,
    decreases s.len() - i,
{
    if i < s.len() && s[i] != c {
        lemma_find_from(s, c, i + 1);
    }
}

pub proof fn lemma_rfind_before(s: Seq<char>, c: char, j: int)
    requires
        0 <= j <= s.len(),
    ensures
        -1 <= rfind_before(s, c, j) < j,
        forall|k: int| rfind_before(s, c, j) < k < j ==> s[k] != c,
        rfind_before(s, c, j) >= 0 ==> s[rfind_before(s, c, j)] == c,
    decreases j,
{
    if j > 0 && s[j - 1] != c {
        lemma_rfind_before(s, c, j - 1);
    }
}

/// The next white space at or after `i`, or the length.
pub fn next_ws_at(v: &[char], i: usize) -> (r: usize)
    requires
        i <= v@.len(),
    ensures
        r == next_ws(v@, i as int),
{
    let mut k = i;
    while k < v.len() && !is_whitespace(v[k])
        invariant
            i <= k <= v@.len(),
            next_ws(v@, i as int) == next_ws(v@, k as int),
        decreases v@.len() - k,
    {
        k = k + 1;
    }
    k
}

/// The next character that is not white space at or after `i`, or the length.
pub fn skip_ws_at(v: &[char], i: usize) -> (r: usize)
    requires
        i <= v@.len(),
    ensures
        r == skip_ws(v@, i as int),
{
    let mut k = i;
    while k < v.len() && is_whitespace(v[k])
        invariant
            i <= k <= v@.len(),
            skip_ws(v@, i as int) == skip_ws(v@, k as int),
        decreases v@.len() - k,
    {
        k = k + 1;
    }
    k
}

/// One past the last character before `j` that is not white space.
pub fn back_ws_at(v: &[char], j: usize) -> (r: usize)
    requires
        j <= v@.len(),
    ensures
        r == back_ws(v@, j as int),
{
    let mut k = j;
    while k > 0 && is_whitespace(v[k - 1])
        invariant
            k <= j <= v@.len(),
            back_ws(v@, j as int) == back_ws(v@, k as int),
        decreases k,
    {
        k = k - 1;
    }
    k
}

pub fn find_char_from(v: &[char], c: char, i: usize) -> (r: usize)
    requires
        i <= v@.len(),
    ensures
        r == find_from(v@, c, i as int),
{
    let mut k = i;
    while k < v.len() && v[k] != c
        invariant
            i <= k <= v@.len(),
            find_from(v@, c, i as int) == find_from(v@, c, k as int),
        decreases v@.len() - k,
    {
        k = k + 1;
    }
    k
}

/// The last `c` before `j`, if any.
pub fn rfind_char_before(v: &[char], c: char, j: usize) -> (r: Option<usize>)
    requires
        j <= v@.len(),
    ensures
        match r {
            Some(k) => k as int == rfind_before(v@, c, j as int),
            None => rfind_before(v@, c, j as int) == -1,
        },
{
    let mut k = j;
    while k > 0 && v[k - 1] != c
        invariant
            k <= j <= v@.len(),
            rfind_before(v@, c, j as int) == rfind_before(v@, c, k as int),
        decreases k,
    {
        k = k - 1;
    }
    if k == 0 {
        None
    } else {
        Some(k - 1)
    }
}

pub fn has_char(v: &[char], c: char) -> (b: bool)
    ensures
        b == contains_char(v@, c),
{
    let r = find_char_from(v, c, 0);
    proof {
        lemma_find_from(v@, c, 0);
    }
    r < v.len()
}

/// `trim` on characters.
pub fn trimmed(v: &[char]) -> (out: Vec<char>)
    ensures
        out@ == trim(v@),
{
    let a = skip_ws_at(v, 0);
    proof {
        lemma_skip_ws(v@, 0);
    }
    let t = slice_range(v, a, v.len());
    let b = back_ws_at(&t, t.len());
    proof {
        lemma_back_ws(t@, t@.len() as int);
    }
    slice_range(&t, 0, b)
}

pub fn trimmed_start(v: &[char]) -> (out: Vec<char>)
    ensures
        out@ == trim_start(v@),
{
    let a = skip_ws_at(v, 0);
    proof {
        lemma_skip_ws(v@, 0);
    }
    slice_range(v, a, v.len())
}

pub fn trimmed_end(v: &[char]) -> (out: Vec<char>)
    ensures
        out@ == trim_end(v@),
{
    let b = back_ws_at(v, v.len());
    proof {
        lemma_back_ws(v@, v@.len() as int);
    }
    slice_range(v, 0, b)
}

pub fn lower_char(c: char) -> (r: char)
    ensures
        r == ascii_lower(c),
{
    if 'A' <= c && c <= 'Z' {
        let n: u32 = c as u32 + 32;
        assert(n == (c as u32) + 32);
        char_from(n)
    } else {
        c
    }
}

pub fn upper_char(c: char) -> (r: char)
    ensures
        r == ascii_upper(c),
{
    if 'a' <= c && c <= 'z' {
        let n: u32 = c as u32 - 32;
        char_from(n)
    } else {
        c
    }
}

/// A character from a code point known to be one (`char::from_u32`).
#[verifier::external_body]
pub(crate) fn char_from(n: u32) -> (c: char)
    requires
        n <= 0xD7FF || (0xE000 <= n <= 0x10FFFF),
    ensures
        c as u32 == n,
{
    char::from_u32(n).unwrap()
}

pub fn lowered(v: &[char]) -> (out: Vec<char>)
    ensures
        out@ == lower_ascii(v@),
{
    let mut out: Vec<char> = Vec::new();
    let mut i: usize = 0;
    while i < v.len()
        invariant
            i <= v@.len(),
            out@ == lower_ascii(v@.take(i as int)),
        decreases v@.len() - i,
    {
        let c = lower_char(v[i]);
        out.push(c);
        i = i + 1;
        assert(lower_ascii(v@.take(i as int)) =~= lower_ascii(v@.take(i - 1)).push(c));
    }
    assert(v@.take(v@.len() as int) =~= v@);
    out
}

pub fn uppered(v: &[char]) -> (out: Vec<char>)
    ensures
        out@ == upper_ascii(v@),
{
    let mut out: Vec<char> = Vec::new();
    let mut i: usize = 0;
    while i < v.len()
        invariant
            i <= v@.len(),
            out@ == upper_ascii(v@.take(i as int)),
        decreases v@.len() - i,
    {
        let c = upper_char(v[i]);
        out.push(c);
        i = i + 1;
        assert(upper_ascii(v@.take(i as int)) =~= upper_ascii(v@.take(i - 1)).push(c));
    }
    assert(v@.take(v@.len() as int) =~= v@);
    out
}

/// `eq_ignore_ascii_case` on characters.
pub fn eq_ignore_case(a: &[char], b: &[char]) -> (r: bool)
    ensures
        r == same_ignoring_case(a@, b@),
{
    if a.len() != b.len() {
        return false;
    }
    let mut i: usize = 0;
    while i < a.len()
        invariant
            a@.len() == b@.len(),
            i <= a@.len(),
            forall|k: int| 0 <= k < i ==> ascii_lower(a@[k]) == ascii_lower(b@[k]),
        decreases a@.len() - i,
    {
        if lower_char(a[i]) != lower_char(b[i]) {
            return false;
        }
        i = i + 1;
    }
    true
}

/// Whether two character slices are equal.
pub fn same_chars(a: &[char], b: &[char]) -> (r: bool)
    ensures
        r == (a@ == b@),
{
    if a.len() != b.len() {
        return false;
    }
    let mut i: usize = 0;
    while i < a.len()
        invariant
            a@.len() == b@.len(),
            i <= a@.len(),
            forall|k: int| 0 <= k < i ==> a@[k] == b@[k],
        decreases a@.len() - i,
    {
        if a[i] != b[i] {
            return false;
        }
        i = i + 1;
    }
    assert(a@ =~= b@);
    true
}

/// Whether `p` occurs in `v` at `i`.
pub fn occurs_at_exec(v: &[char], p: &[char], i: usize) -> (r: bool)
    ensures
        r == occurs_at(v@, p@, i as int),
{
    if i > v.len() || p.len() > v.len() - i {
        return false;
    }
    let mut k: usize = 0;
    while k < p.len()
        invariant
            i + p.len() <= v.len(),
            k <= p@.len(),
            forall|m: int| 0 <= m < k ==> v@[i + m] == p@[m],
        decreases p@.len() - k,
    {
        if v[i + k] != p[k] {
            assert(v@.subrange(i as int, i + p@.len())[k as int] != p@[k as int]);
            return false;
        }
        k = k + 1;
    }
    assert(v@.subrange(i as int, i + p@.len()) =~= p@);
    true
}

pub fn starts_with_exec(v: &[char], p: &[char]) -> (r: bool)
    ensures
        r == starts_with(v@, p@),
{
    let r = occurs_at_exec(v, p, 0);
    assert(p@.len() <= v@.len() ==> v@.subrange(0, p@.len() as int) =~= v@.take(p@.len() as int));
    r
}

pub fn ends_with_exec(v: &[char], p: &[char]) -> (r: bool)
    ensures
        r == ends_with(v@, p@),
{
    if p.len() > v.len() {
        return false;
    }
    let r = occurs_at_exec(v, p, v.len() - p.len());
    assert(v@.subrange(v@.len() - p@.len(), v@.len() - p@.len() + p@.len()) =~= v@.skip(
        v@.len() - p@.len(),
    ));
    r
}

/// Where `p` first occurs at or after `i`, if anywhere.
pub fn find_seq(v: &[char], p: &[char], i: usize) -> (r: Option<usize>)
    requires
        i <= v@.len(),
    ensures
        match r {
            Some(k) => k as int == find_seq_from(v@, p@, i as int) && occurs_at(v@, p@, k as int),
            None => find_seq_from(v@, p@, i as int) == -1,
        },
{
    if p.len() > v.len() {
        return None;
    }
    let mut k = i;
    while k <= v.len() - p.len()
        invariant
            i <= k,
            p@.len() <= v@.len(),
            find_seq_from(v@, p@, i as int) == find_seq_from(v@, p@, k as int),
        decreases v@.len() + 1 - k,
    {
        if occurs_at_exec(v, p, k) {
            return Some(k);
        }
        if k == v.len() {
            assert(find_seq_from(v@, p@, k + 1) == -1);
            return None;
        }
        k = k + 1;
    }
    None
}

pub proof fn lemma_find_seq(s: Seq<char>, p: Seq<char>, i: int)
    requires
        0 <= i,
    ensures
        find_seq_from(s, p, i) == -1 || (i <= find_seq_from(s, p, i) && occurs_at(
            s,
            p,
            find_seq_from(s, p, i),
        )),
        find_seq_from(s, p, i) == -1 ==> forall|k: int| k >= i ==> !occurs_at(s, p, k),
        forall|k: int| i <= k < find_seq_from(s, p, i) ==> !occurs_at(s, p, k),
    decreases s.len() + 1 - i,
{
    if i + p.len() > s.len() {
    } else if !occurs_at(s, p, i) {
        lemma_find_seq(s, p, i + 1);
    }
}

pub fn contains_seq(v: &[char], p: &[char]) -> (r: bool)
    ensures
        r == contains(v@, p@),
{
    let r = find_seq(v, p, 0);
    proof {
        lemma_find_seq(v@, p@, 0);
    }
    r.is_some()
}


pub open spec fn is_digit(c: char) -> bool {
    '0' <= c <= '9'
}

pub open spec fn digit_val(c: char) -> nat {
    ((c as u32) - 48) as nat
}

/// The number a run of decimal digits stands for.
pub open spec fn digits_value(s: Seq<char>) -> nat
    decreases s.len(),
{
    if s.len() == 0 {
        0
    } else {
        digits_value(s.drop_last()) * 10 + digit_val(s.last())
    }
}

pub open spec fn all_digits(s: Seq<char>) -> bool {
    forall|i: int| 0 <= i < s.len() ==> is_digit(s[i])
}

/// What remains after the optional `+` an unsigned number may start with.
pub open spec fn unsigned_body(s: Seq<char>) -> Seq<char> {
    if s.len() > 0 && s[0] == '+' {
        s.drop_first()
    } else {
        s
    }
}

/// `str::parse` for an unsigned integer type whose largest value is `max`.
pub open spec fn parse_unsigned(s: Seq<char>, max: nat) -> Option<nat> {
    let b = unsigned_body(s);
    if b.len() > 0 && all_digits(b) && digits_value(b) <= max {
        Some(digits_value(b))
    } else {
        None
    }
}

/// `str::parse::<i64>`.
pub open spec fn parse_i64(s: Seq<char>) -> Option<int> {
    if s.len() > 0 && s[0] == '-' {
        let b = s.drop_first();
        if b.len() > 0 && all_digits(b) && digits_value(b) <= 0x8000_0000_0000_0000 {
            Some(-(digits_value(b) as int))
        } else {
            None
        }
    } else {
        match parse_unsigned(s, 0x7fff_ffff_ffff_ffff) {
            Some(n) => Some(n as int),
            None => None,
        }
    }
}

pub proof fn lemma_digits_grow(s: Seq<char>, k: int)
    requires
        0 <= k <= s.len(),
    ensures
        digits_value(s.take(k)) <= digits_value(s),
    decreases s.len() - k,
{
    if k < s.len() {
        lemma_digits_grow(s, k + 1);
        assert(s.take(k + 1).drop_last() =~= s.take(k));
    } else {
        assert(s.take(k) =~= s);
    }
}

/// The value of the decimal digits `v[from..to]`, if it is at most `max`.
pub fn digits_up_to(v: &[char], from: usize, to: usize, max: u64) -> (r: Option<u64>)
    requires
        from <= to <= v@.len(),
        max >= 9,
    ensures
        ({
            let d = v@.subrange(from as int, to as int);
            match r {
                Some(n) => all_digits(d) && digits_value(d) == n && n <= max,
                None => !all_digits(d) || digits_value(d) > max,
            }
        }),
{
    let ghost d = v@.subrange(from as int, to as int);
    let mut n: u64 = 0;
    let mut i = from;
    while i < to
        invariant
            from <= i <= to <= v@.len(),
            d == v@.subrange(from as int, to as int),
            all_digits(d.take(i - from)),
            n == digits_value(d.take(i - from)),
            n <= max,
            max >= 9,
        decreases to - i,
    {
        let c = v[i];
        if !('0' <= c && c <= '9') {
            assert(!is_digit(d[i - from]));
            return None;
        }
        let digit: u64 = (c as u32 - 48) as u64;
        assert(d.take(i - from + 1).drop_last() =~= d.take(i - from));
        assert(d.take(i - from + 1).last() == c);
        if n > (max - digit) / 10 {
            proof {
                assert(n * 10 + digit > max) by (nonlinear_arith)
                    requires
                        n > (max - digit) / 10,
                        digit <= max || digit > max,
                ;
                lemma_digits_grow(d, i - from + 1);
            }
            return None;
        }
        assert(n * 10 + digit <= max) by (nonlinear_arith)
            requires
                n <= (max - digit) / 10,
                digit <= max,
        ;
        n = n * 10 + digit;
        i = i + 1;
    }
    assert(d.take(to - from) =~= d);
    Some(n)
}

/// `str::parse` for an unsigned integer type whose largest value is `max`.
pub fn parse_unsigned_exec(v: &[char], max: u64) -> (r: Option<u64>)
    requires
        max >= 9,
    ensures
        match r {
            Some(n) => parse_unsigned(v@, max as nat) == Some(n as nat),
            None => parse_unsigned(v@, max as nat) is None,
        },
{
    let from: usize = if v.len() > 0 && v[0] == '+' {
        1
    } else {
        0
    };
    assert(unsigned_body(v@) =~= v@.subrange(from as int, v@.len() as int));
    if from == v.len() {
        return None;
    }
    digits_up_to(v, from, v.len(), max)
}

pub fn parse_u64(v: &[char]) -> (r: Option<u64>)
    ensures
        match r {
            Some(n) => parse_unsigned(v@, u64::MAX as nat) == Some(n as nat),
            None => parse_unsigned(v@, u64::MAX as nat) is None,
        },
{
    parse_unsigned_exec(v, u64::MAX)
}

pub fn parse_u32(v: &[char]) -> (r: Option<u32>)
    ensures
        match r {
            Some(n) => parse_unsigned(v@, u32::MAX as nat) == Some(n as nat),
            None => parse_unsigned(v@, u32::MAX as nat) is None,
        },
{
    match parse_unsigned_exec(v, 0xffff_ffff) {
        Some(n) => Some(n as u32),
        None => None,
    }
}

pub fn parse_u16(v: &[char]) -> (r: Option<u16>)
    ensures
        match r {
            Some(n) => parse_unsigned(v@, u16::MAX as nat) == Some(n as nat),
            None => parse_unsigned(v@, u16::MAX as nat) is None,
        },
{
    match parse_unsigned_exec(v, 0xffff) {
        Some(n) => Some(n as u16),
        None => None,
    }
}

pub fn parse_u8(v: &[char]) -> (r: Option<u8>)
    ensures
        match r {
            Some(n) => parse_unsigned(v@, u8::MAX as nat) == Some(n as nat),
            None => parse_unsigned(v@, u8::MAX as nat) is None,
        },
{
    match parse_unsigned_exec(v, 0xff) {
        Some(n) => Some(n as u8),
        None => None,
    }
}

pub fn parse_i64_exec(v: &[char]) -> (r: Option<i64>)
    ensures
        match r {
            Some(n) => parse_i64(v@) == Some(n as int),
            None => parse_i64(v@) is None,
        },
{
    if v.len() > 0 && v[0] == '-' {
        assert(v@.drop_first() =~= v@.subrange(1, v@.len() as int));
        if v.len() == 1 {
            return None;
        }
        match digits_up_to(v, 1, v.len(), 0x8000_0000_0000_0000) {
            Some(n) => {
                if n == 0x8000_0000_0000_0000 {
                    Some(i64::MIN)
                } else {
                    Some(-(n as i64))
                }
            },
            None => None,
        }
    } else {
        match parse_unsigned_exec(v, 0x7fff_ffff_ffff_ffff) {
            Some(n) => Some(n as i64),
            None => None,
        }
    }
}

/// `str::parse::<i32>`.
pub open spec fn parse_i32(s: Seq<char>) -> Option<int> {
    if s.len() > 0 && s[0] == '-' {
        let b = s.drop_first();
        if b.len() > 0 && all_digits(b) && digits_value(b) <= 0x8000_0000 {
            Some(-(digits_value(b) as int))
        } else {
            None
        }
    } else {
        match parse_unsigned(s, 0x7fff_ffff) {
            Some(n) => Some(n as int),
            None => None,
        }
    }
}

pub fn parse_i32_exec(v: &[char]) -> (r: Option<i32>)
    ensures
        match r {
            Some(n) => parse_i32(v@) == Some(n as int),
            None => parse_i32(v@) is None,
        },
{
    if v.len() > 0 && v[0] == '-' {
        assert(v@.drop_first() =~= v@.subrange(1, v@.len() as int));
        if v.len() == 1 {
            return None;
        }
        match digits_up_to(v, 1, v.len(), 0x8000_0000) {
            Some(n) => {
                if n == 0x8000_0000 {
                    Some(i32::MIN)
                } else {
                    Some(-(n as i32))
                }
            },
            None => None,
        }
    } else {
        match parse_unsigned_exec(v, 0x7fff_ffff) {
            Some(n) => Some(n as i32),
            None => None,
        }
    }
}

pub open spec fn digit_char(d: nat) -> char {
    (d + 48) as char
}

/// A number written out in decimal, as `{}` prints it.
pub open spec fn decimal(n: nat) -> Seq<char>
    decreases n,
{
    if n < 10 {
        seq![digit_char(n)]
    } else {
        decimal(n / 10).push(digit_char(n % 10))
    }
}

pub fn decimal_of(n: u64) -> (v: Vec<char>)
    ensures
        v@ == decimal(n as nat),
    decreases n,
{
    let d = char_from((n % 10) as u32 + 48);
    if n < 10 {
        let mut v = Vec::new();
        v.push(d);
        assert(v@ =~= seq![digit_char(n as nat)]);
        v
    } else {
        let mut v = decimal_of(n / 10);
        v.push(d);
        v
    }
}

/// Whether a character is a hexadecimal digit, and its value.
pub open spec fn hex_val(c: char) -> Option<nat> {
    if '0' <= c <= '9' {
        Some(((c as u32) - 48) as nat)
    } else if 'a' <= c <= 'f' {
        Some(((c as u32) - 87) as nat)
    } else if 'A' <= c <= 'F' {
        Some(((c as u32) - 55) as nat)
    } else {
        None
    }
}

pub fn hex_digit(c: char) -> (r: Option<u8>)
    ensures
        match r {
            Some(n) => hex_val(c) == Some(n as nat),
            None => hex_val(c) is None,
        },
{
    if '0' <= c && c <= '9' {
        Some((c as u32 - 48) as u8)
    } else if 'a' <= c && c <= 'f' {
        Some((c as u32 - 87) as u8)
    } else if 'A' <= c && c <= 'F' {
        Some((c as u32 - 55) as u8)
    } else {
        None
    }
}

/// Whether two texts are the same text.
pub fn str_eq(a: &str, b: &str) -> (r: bool)
    ensures
        r == (a@ == b@),
{
    let x = chars_of(a);
    let y = chars_of(b);
    same_chars(&x, &y)
}

/// The views of a list of character vectors.
pub open spec fn views(v: Seq<Vec<char>>) -> Seq<Seq<char>> {
    v.map_values(|p: Vec<char>| p@)
}

/// `str::split` with one character, on characters.
pub fn split_pieces(v: &[char], c: char) -> (out: Vec<Vec<char>>)
    ensures
        views(out@) == split(v@, c),
{
    let mut out: Vec<Vec<char>> = Vec::new();
    let mut i: usize = 0;
    loop
        invariant
            i <= v@.len(),
            views(out@) + pieces_from(v@, c, i as int) == split(v@, c),
        decreases v@.len() - i,
    {
        let j = find_char_from(v, c, i);
        proof {
            lemma_find_from(v@, c, i as int);
        }
        let piece = slice_range(v, i, j);
        let ghost before = out@;
        out.push(piece);
        proof {
            assert(views(out@) =~= views(before).push(piece@));
        }
        if j >= v.len() {
            proof {
                assert(pieces_from(v@, c, i as int) == seq![v@.subrange(i as int, v@.len() as int)]);
                assert(views(out@) =~= views(before) + pieces_from(v@, c, i as int));
            }
            return out;
        }
        proof {
            assert(pieces_from(v@, c, i as int) == seq![v@.subrange(i as int, j as int)]
                + pieces_from(v@, c, j + 1));
            assert(views(out@) + pieces_from(v@, c, j + 1) =~= views(before) + pieces_from(
                v@,
                c,
                i as int,
            ));
        }
        i = j + 1;
    }
}

/// `rsplit_once` on characters.
pub fn rsplit_once_exec(v: &[char], c: char) -> (r: Option<(Vec<char>, Vec<char>)>)
    ensures
        match r {
            Some((a, b)) => rsplit_once(v@, c) == Some((a@, b@)),
            None => rsplit_once(v@, c) is None,
        },
{
    proof {
        lemma_rfind_before(v@, c, v@.len() as int);
    }
    match rfind_char_before(v, c, v.len()) {
        Some(k) => {
            let a = slice_range(v, 0, k);
            let b = slice_range(v, k + 1, v.len());
            assert(a@ =~= v@.take(k as int));
            assert(b@ =~= v@.skip(k + 1));
            Some((a, b))
        },
        None => None,
    }
}

/// `split_once` on characters.
pub fn split_once_exec(v: &[char], c: char) -> (r: Option<(Vec<char>, Vec<char>)>)
    ensures
        match r {
            Some((a, b)) => split_once(v@, c) == Some((a@, b@)),
            None => split_once(v@, c) is None,
        },
{
    proof {
        lemma_find_from(v@, c, 0);
    }
    let k = find_char_from(v, c, 0);
    if k < v.len() {
        let a = slice_range(v, 0, k);
        let b = slice_range(v, k + 1, v.len());
        assert(a@ =~= v@.take(k as int));
        assert(b@ =~= v@.skip(k + 1));
        Some((a, b))
    } else {
        None
    }
}

/// Appends the characters of `b` to `a`.
pub fn append_chars(a: &mut Vec<char>, b: &[char])
    ensures
        final(a)@ == old(a)@ + b@,
{
    let mut i: usize = 0;
    while i < b.len()
        invariant
            i <= b@.len(),
            a@ == old(a)@ + b@.take(i as int),
        decreases b@.len() - i,
    {
        a.push(b[i]);
        i = i + 1;
        assert(b@.take(i as int) =~= b@.take(i - 1).push(b@[i - 1]));
    }
    assert(b@.take(b@.len() as int) =~= b@);
}

pub proof fn lemma_pieces_not_empty(s: Seq<char>, c: char, i: int)
    requires
        0 <= i <= s.len(),
    ensures
        pieces_from(s, c, i).len() >= 1,
    decreases s.len() - i,
{
    if i < s.len() {
        lemma_find_from(s, c, i);
        let j = find_from(s, c, i);
        if j < s.len() {
            lemma_pieces_not_empty(s, c, j + 1);
        }
    }
}

/// `split` always yields at least one piece.
pub proof fn lemma_split_not_empty(s: Seq<char>, c: char)
    ensures
        split(s, c).len() >= 1,
{
    lemma_pieces_not_empty(s, c, 0);
}

/// How `str::to_lowercase` treats a character, for every character whose
/// lower case can match a word written in ASCII: the ASCII capitals, and the
/// Kelvin sign, which lowers to `k`. Any other character lowers to something
/// that matches no ASCII word.
pub open spec fn fold_lower(c: char) -> char {
    if c == '\u{212A}' {
        'k'
    } else {
        ascii_lower(c)
    }
}

pub open spec fn folded(s: Seq<char>) -> Seq<char> {
    s.map_values(|c: char| fold_lower(c))
}

pub fn fold_lower_char(c: char) -> (r: char)
    ensures
        r == fold_lower(c),
{
    if c == '\u{212A}' {
        'k'
    } else {
        lower_char(c)
    }
}

pub fn folded_chars(v: &[char]) -> (out: Vec<char>)
    ensures
        out@ == folded(v@),
{
    let mut out: Vec<char> = Vec::new();
    let mut i: usize = 0;
    while i < v.len()
        invariant
            i <= v@.len(),
            out@ == folded(v@.take(i as int)),
        decreases v@.len() - i,
    {
        out.push(fold_lower_char(v[i]));
        i = i + 1;
        assert(folded(v@.take(i as int)) =~= folded(v@.take(i - 1)).push(fold_lower(v@[i - 1])));
    }
    assert(v@.take(v@.len() as int) =~= v@);
    out
}

/// Rust's `/` on integers: the quotient rounded towards zero.
pub open spec fn tdiv(a: int, b: int) -> int {
    if a >= 0 {
        a / b
    } else {
        -((-a) / b)
    }
}

/// The text an optional string holds.
pub open spec fn opt_text(s: Option<String>) -> Option<Seq<char>> {
    match s {
        Some(t) => Some(t@),
        None => None,
    }
}

/// `s.trim_start_matches(p)` for a text pattern: every leading copy taken off.
pub open spec fn strip_prefix_all(s: Seq<char>, p: Seq<char>) -> Seq<char>
    decreases s.len(),
{
    if p.len() > 0 && starts_with(s, p) {
        strip_prefix_all(s.skip(p.len() as int), p)
    } else {
        s
    }
}

pub fn strip_prefix_all_exec(v: &[char], p: &[char]) -> (out: Vec<char>)
    ensures
        out@ == strip_prefix_all(v@, p@),
{
    let mut i: usize = 0;
    assert(v@.skip(0) =~= v@);
    while p.len() > 0 && i <= v.len() && occurs_at_exec(v, p, i)
        invariant
            i <= v@.len(),
            strip_prefix_all(v@, p@) == strip_prefix_all(v@.skip(i as int), p@),
        decreases v@.len() - i,
    {
        assert(v@.skip(i as int).take(p@.len() as int) =~= v@.subrange(i as int, i + p@.len()));
        assert(v@.skip(i as int).skip(p@.len() as int) =~= v@.skip(i + p@.len()));
        i = i + p.len();
    }
    if p.len() > 0 && i <= v.len() {
        assert(!starts_with(v@.skip(i as int), p@)) by {
            if starts_with(v@.skip(i as int), p@) {
                assert(v@.skip(i as int).take(p@.len() as int) =~= v@.subrange(
                    i as int,
                    i + p@.len(),
                ));
            }
        }
    }
    slice_range(v, i, v.len())
}

/// `s.trim_end_matches(['\r', '\n'])`.
pub open spec fn strip_line_end(s: Seq<char>) -> Seq<char>
    decreases s.len(),
{
    if s.len() > 0 && (s.last() == '\r' || s.last() == '\n') {
        strip_line_end(s.drop_last())
    } else {
        s
    }
}

pub fn strip_line_end_exec(v: &[char]) -> (out: Vec<char>)
    ensures
        out@ == strip_line_end(v@),
{
    let mut j: usize = v.len();
    assert(v@.take(v@.len() as int) =~= v@);
    while j > 0 && (v[j - 1] == '\r' || v[j - 1] == '\n')
        invariant
            j <= v@.len(),
            strip_line_end(v@) == strip_line_end(v@.take(j as int)),
        decreases j,
    {
        assert(v@.take(j as int).drop_last() =~= v@.take(j - 1));
        j = j - 1;
    }
    let out = slice_range(v, 0, j);
    assert(out@ =~= v@.take(j as int));
    out
}

/// Whether two texts are the same, one given as characters.
pub fn is_text(v: &[char], w: &str) -> (b: bool)
    ensures
        b == (v@ == w@),
{
    let c = chars_of(w);
    same_chars(v, &c)
}

/// Whether `v` starts with the text `w`.
pub fn starts_with_text(v: &[char], w: &str) -> (b: bool)
    ensures
        b == starts_with(v@, w@),
{
    let c = chars_of(w);
    starts_with_exec(v, &c)
}

pub open spec fn is_octal(c: char) -> bool {
    '0' <= c <= '7'
}

/// The number a run of octal digits stands for.
pub open spec fn octal_value(s: Seq<char>) -> nat
    decreases s.len(),
{
    if s.len() == 0 {
        0
    } else {
        octal_value(s.drop_last()) * 8 + digit_val(s.last())
    }
}

/// `u32::from_str_radix(s, 8)`: an optional `+`, then octal digits only, at
/// least one, and no more than fits.
pub open spec fn parse_octal_u32(s: Seq<char>) -> Option<u32> {
    let b = unsigned_body(s);
    if b.len() > 0 && (forall|i: int| 0 <= i < b.len() ==> is_octal(b[i])) && octal_value(b)
        <= u32::MAX {
        Some(octal_value(b) as u32)
    } else {
        None
    }
}

pub proof fn lemma_octal_grow(s: Seq<char>, k: int)
    requires
        0 <= k <= s.len(),
    ensures
        octal_value(s.take(k)) <= octal_value(s),
    decreases s.len() - k,
{
    if k < s.len() {
        lemma_octal_grow(s, k + 1);
        assert(s.take(k + 1).drop_last() =~= s.take(k));
    } else {
        assert(s.take(k) =~= s);
    }
}

pub fn parse_octal_u32_exec(v: &[char]) -> (r: Option<u32>)
    ensures
        r == parse_octal_u32(v@),
{
    let from: usize = if v.len() > 0 && v[0] == '+' {
        1
    } else {
        0
    };
    let ghost b = unsigned_body(v@);
    assert(b =~= v@.subrange(from as int, v@.len() as int));
    if from == v.len() {
        return None;
    }
    let mut n: u64 = 0;
    let mut i = from;
    while i < v.len()
        invariant
            from <= i <= v@.len(),
            b == v@.subrange(from as int, v@.len() as int),
            b == unsigned_body(v@),
            b.len() > 0,
            forall|k: int| 0 <= k < i - from ==> is_octal(b[k]),
            n == octal_value(b.take(i - from)),
            n <= u32::MAX,
        decreases v@.len() - i,
    {
        let c = v[i];
        if !('0' <= c && c <= '7') {
            assert(!is_octal(b[i - from]));
            assert(!(forall|k: int| 0 <= k < b.len() ==> is_octal(b[k])));
            return None;
        }
        let digit: u64 = (c as u32 - 48) as u64;
        assert(b.take(i - from + 1).drop_last() =~= b.take(i - from));
        assert(b.take(i - from + 1).last() == c);
        assert(octal_value(b.take(i - from + 1)) == octal_value(b.take(i - from)) * 8 + digit_val(c));
        n = n * 8 + digit;
        if n > 0xffff_ffff {
            proof {
                lemma_octal_grow(b, i - from + 1);
            }
            return None;
        }
        i = i + 1;
    }
    assert(b.take(v@.len() - from) =~= b);
    Some(n as u32)
}

/// A number written in decimal is digits only, at least one.
pub proof fn lemma_decimal_digits(n: nat)
    ensures
        decimal(n).len() >= 1,
        all_digits(decimal(n)),
        digits_value(decimal(n)) == n,
    decreases n,
{
    if n >= 10 {
        lemma_decimal_digits(n / 10);
        let s = decimal(n / 10);
        let x = decimal(n);
        assert(x.drop_last() =~= s);
        assert(x.last() == digit_char(n % 10));
        assert((digit_char(n % 10) as u32) == n % 10 + 48);
        assert(digit_val(digit_char(n % 10)) == n % 10);
        assert(digits_value(x) == digits_value(x.drop_last()) * 10 + digit_val(x.last()));
        assert(n == (n / 10) * 10 + n % 10);
        assert(digits_value(x) == n);
        assert(forall|i: int| 0 <= i < s.len() ==> decimal(n)[i] == s[i]);
    } else {
        let x = decimal(n);
        assert(x == seq![digit_char(n)]);
        assert(x.drop_last() =~= Seq::<char>::empty());
        assert(x.last() == digit_char(n));
        assert((digit_char(n) as u32) == n + 48);
        assert(digit_val(digit_char(n)) == n);
        assert(digits_value(x) == digits_value(x.drop_last()) * 10 + digit_val(x.last()));
        assert(digits_value(x.drop_last()) == 0);
        assert(digits_value(x) == n);
    }
}

/// Different numbers are written differently.
pub proof fn lemma_decimal_injective(a: nat, b: nat)
    ensures
        decimal(a) == decimal(b) ==> a == b,
{
    lemma_decimal_digits(a);
    lemma_decimal_digits(b);
}

/// Whether the pattern from `i` on matches the name from `j` on, where `*`
/// stands for any run of characters and, when `question` is set, `?` for any
/// one character.
pub open spec fn wild_at(p: Seq<char>, n: Seq<char>, question: bool, i: int, j: int) -> bool
    decreases p.len() - i + n.len() - j,
{
    if i < 0 || j < 0 || i > p.len() || j > n.len() {
        false
    } else if i == p.len() {
        j == n.len()
    } else if p[i] == '*' {
        wild_at(p, n, question, i + 1, j) || (j < n.len() && wild_at(p, n, question, i, j + 1))
    } else {
        j < n.len() && ((question && p[i] == '?') || p[i] == n[j]) && wild_at(
            p,
            n,
            question,
            i + 1,
            j + 1,
        )
    }
}

/// Whether a whole name matches a whole pattern.
pub open spec fn wild(p: Seq<char>, n: Seq<char>, question: bool) -> bool {
    wild_at(p, n, question, 0, 0)
}

/// `wild`, computed row by row from the end of the pattern.
pub fn wild_match(p: &[char], n: &[char], question: bool) -> (b: bool)
    ensures
        b == wild(p@, n@, question),
{
    let plen = p.len();
    let nlen = n.len();
    let mut next: Vec<bool> = Vec::new();
    let mut j: usize = 0;
    while j < nlen
        invariant
            j <= nlen,
            nlen == n@.len(),
            plen == p@.len(),
            next@.len() == j,
            forall|k: int| 0 <= k < j ==> next@[k] == wild_at(p@, n@, question, plen as int, k),
        decreases nlen - j,
    {
        next.push(false);
        j = j + 1;
    }
    next.push(true);
    let mut i: usize = plen;
    while i > 0
        invariant
            i <= plen,
            nlen == n@.len(),
            plen == p@.len(),
            next@.len() == nlen + 1,
            forall|k: int| 0 <= k <= nlen ==> next@[k] == wild_at(p@, n@, question, i as int, k),
        decreases i,
    {
        let c = p[i - 1];
        let mut row: Vec<bool> = Vec::new();
        let mut k: usize = 0;
        while k < nlen
            invariant
                k <= nlen,
                1 <= i <= plen,
                nlen == n@.len(),
                plen == p@.len(),
                c == p@[i - 1],
                next@.len() == nlen + 1,
                forall|m: int| 0 <= m <= nlen ==> next@[m] == wild_at(p@, n@, question, i as int, m),
                row@.len() == k,
                c != '*' ==> forall|m: int|
                    0 <= m < k ==> row@[m] == wild_at(p@, n@, question, i - 1, m),
            decreases nlen - k,
        {
            if c == '*' {
                row.push(false);
            } else {
                let one = ((question && c == '?') || c == n[k]) && next[k + 1];
                row.push(one);
            }
            k = k + 1;
        }
        row.push(false);
        if c == '*' {
            let last = next[nlen];
            row.set(nlen, last);
            let mut m: usize = nlen;
            while m > 0
                invariant
                    m <= nlen + 1,
                    1 <= i <= plen,
                    nlen == n@.len(),
                    plen == p@.len(),
                    c == p@[i - 1],
                    c == '*',
                    next@.len() == nlen + 1,
                    forall|q: int|
                        0 <= q <= nlen ==> next@[q] == wild_at(p@, n@, question, i as int, q),
                    row@.len() == nlen + 1,
                    forall|q: int|
                        m <= q <= nlen ==> row@[q] == wild_at(p@, n@, question, i - 1, q),
                decreases m,
            {
                let at = m - 1;
                let v = next[at] || (at < nlen && row[at + 1]);
                row.set(at, v);
                m = m - 1;
            }
        }
        next = row;
        i = i - 1;
    }
    next[0]
}

/// The words of a text from `i` on, as `split_whitespace` yields them.
pub open spec fn words_from(s: Seq<char>, i: int) -> Seq<Seq<char>>
    decreases s.len() - i,
{
    let a = skip_ws(s, i);
    if i < 0 || a >= s.len() {
        Seq::empty()
    } else {
        let b = next_ws(s, a);
        proof {
            lemma_skip_ws(s, i);
            lemma_next_ws(s, a);
        }
        seq![s.subrange(a, b)] + words_from(s, b)
    }
}

pub open spec fn words(s: Seq<char>) -> Seq<Seq<char>> {
    words_from(s, 0)
}

/// `split_whitespace`, collected.
pub fn words_of(v: &[char]) -> (out: Vec<Vec<char>>)
    ensures
        views(out@) == words(v@),
{
    let mut out: Vec<Vec<char>> = Vec::new();
    let mut i: usize = 0;
    assert(views(out@) =~= Seq::<Seq<char>>::empty());
    loop
        invariant
            i <= v@.len(),
            views(out@) + words_from(v@, i as int) == words(v@),
        decreases v@.len() - i,
    {
        let a = skip_ws_at(v, i);
        proof {
            lemma_skip_ws(v@, i as int);
        }
        if a >= v.len() {
            assert(words_from(v@, i as int) =~= Seq::<Seq<char>>::empty());
            assert(views(out@) + Seq::<Seq<char>>::empty() =~= views(out@));
            return out;
        }
        let b = next_ws_at(v, a);
        proof {
            lemma_next_ws(v@, a as int);
        }
        let w = slice_range(v, a, b);
        let ghost before = views(out@);
        out.push(w);
        assert(views(out@) =~= before.push(w@));
        assert(views(out@) + words_from(v@, b as int) =~= before + words_from(v@, i as int));
        i = b;
    }
}

} // verus!
