//! Putting a file under a passphrase: PBKDF2-HMAC-SHA256 over a random salt
//! stretches the passphrase into the key for ChaCha20-Poly1305 over a random
//! nonce. The cryptography is `ring`'s; what lives here is the file around
//! it: a header that says what the file is, the round count, the salt and the
//! nonce, authenticated along with the body.
use vstd::prelude::*;
use vstd::utf8::encode_utf8;

use crate::error::Error;

verus! {

/// How hard the passphrase is stretched.
pub const ROUNDS: u32 = 600_000;

/// The largest round count a file may claim before it is refused.
pub const MOST_ROUNDS: u32 = 10_000_000;

pub const SALT_LEN: usize = 16;

pub const NONCE_LEN: usize = 12;

/// The length of the authentication tag ChaCha20-Poly1305 appends.
pub const TAG_LEN: usize = 16;

/// What the file calls itself: `AMBERBEAM-SEAL` and the bytes 0 and 1.
pub open spec fn magic() -> Seq<u8> {
    seq![65u8, 77, 66, 69, 82, 66, 69, 65, 77, 45, 83, 69, 65, 76, 0, 1]
}

fn magic_bytes() -> (m: Vec<u8>)
    ensures
        m@ == magic(),
{
    let m: Vec<u8> = vec![65u8, 77, 66, 69, 82, 66, 69, 65, 77, 45, 83, 69, 65, 76, 0, 1];
    assert(m@ =~= magic());
    m
}

/// A number as four bytes, most significant first.
pub open spec fn be32(n: u32) -> Seq<u8> {
    seq![
        (n as nat / 0x100_0000) as u8,
        (n as nat / 0x1_0000 % 0x100) as u8,
        (n as nat / 0x100 % 0x100) as u8,
        (n as nat % 0x100) as u8,
    ]
}

/// The four bytes at `at`, most significant first, as a number.
pub open spec fn read_be32(b: Seq<u8>, at: int) -> nat {
    b[at] as nat * 0x100_0000 + b[at + 1] as nat * 0x1_0000 + b[at + 2] as nat * 0x100 + b[at
        + 3] as nat
}

/// The header: what the file is, the round count, the salt and the nonce.
pub open spec fn spec_header(salt: Seq<u8>, nonce: Seq<u8>, rounds: u32) -> Seq<u8> {
    magic() + be32(rounds) + salt + nonce
}

/// What PBKDF2-HMAC-SHA256 makes of a passphrase, a salt and a round count.
pub uninterp spec fn stretched(passphrase: Seq<u8>, salt: Seq<u8>, rounds: u32) -> Seq<u8>;

/// What ChaCha20-Poly1305 makes of plain bytes under a key, a nonce and
/// authenticated data: the cipher text with the tag after it.
pub uninterp spec fn sealed_body(key: Seq<u8>, nonce: Seq<u8>, aad: Seq<u8>, plain: Seq<u8>) -> Seq<u8>;

/// What ChaCha20-Poly1305 opens a body to under a key, a nonce and
/// authenticated data, or `None` where it does not authenticate.
pub uninterp spec fn opened_body(key: Seq<u8>, nonce: Seq<u8>, aad: Seq<u8>, body: Seq<u8>) -> Option<Seq<u8>>;

/// `SystemRandom::fill` on `n` fresh bytes: `None` where the system had no
/// randomness to give. Claimed: the bytes are `n` long; nothing is claimed
/// of their values.
#[verifier::external_body]
fn random_bytes(n: usize) -> (r: Option<Vec<u8>>)
    ensures
        r matches Some(v) ==> v@.len() == n,
{
    let mut bytes = vec![0u8; n];
    ring::rand::SecureRandom::fill(&ring::rand::SystemRandom::new(), &mut bytes).ok().map(|_| bytes)
}

/// `ring::pbkdf2::derive` with PBKDF2-HMAC-SHA256 into 32 bytes. Claimed: the
/// key is `stretched` of the passphrase, salt and rounds, and 32 bytes long.
#[verifier::external_body]
fn derive_key(passphrase: &[u8], salt: &[u8], rounds: u32) -> (key: Vec<u8>)
    requires
        rounds > 0,
    ensures
        key@ == stretched(passphrase@, salt@, rounds),
        key@.len() == 32,
{
    let mut key = vec![0u8; 32];
    let rounds = std::num::NonZeroU32::new(rounds).unwrap_or(std::num::NonZeroU32::MIN);
    ring::pbkdf2::derive(ring::pbkdf2::PBKDF2_HMAC_SHA256, rounds, salt, passphrase, &mut key);
    key
}

/// The most bytes ChaCha20-Poly1305 seals at once (RFC 8439, section 2.8).
pub const MAX_SEALED: u64 = 274_877_906_880;

/// `LessSafeKey::seal_in_place_append_tag` with ChaCha20-Poly1305. Claimed:
/// where it succeeds, the result is `sealed_body` of the key, nonce,
/// authenticated data and plain bytes; with a key of 32 bytes and a nonce of
/// 12 it fails only on more plain bytes than the algorithm's limit.
#[verifier::external_body]
fn chacha_seal(key: &[u8], nonce: &[u8], aad: &[u8], plain: &[u8]) -> (r: Option<Vec<u8>>)
    requires
        key@.len() == 32,
        nonce@.len() == NONCE_LEN,
    ensures
        r matches Some(c) ==> c@ == sealed_body(key@, nonce@, aad@, plain@) && c@.len() == plain@.len()
            + TAG_LEN,
        plain@.len() <= MAX_SEALED ==> r is Some,
{
    let unbound = ring::aead::UnboundKey::new(&ring::aead::CHACHA20_POLY1305, key).ok()?;
    let nonce = ring::aead::Nonce::try_assume_unique_for_key(nonce).ok()?;
    let mut body = plain.to_vec();
    ring::aead::LessSafeKey::new(unbound).seal_in_place_append_tag(nonce, ring::aead::Aad::from(aad), &mut body).ok()?;
    Some(body)
}

/// Whether `r` is the plain bytes `p`.
pub open spec fn gives(r: Option<Vec<u8>>, p: Seq<u8>) -> bool {
    match r {
        Some(x) => x@ == p,
        None => false,
    }
}

/// `LessSafeKey::open_in_place` with ChaCha20-Poly1305. Claimed: the result
/// is `opened_body` of its arguments, and a body that sealing made of some
/// plain bytes under the same key, nonce and authenticated data opens to
/// those bytes, which is what an AEAD promises.
#[verifier::external_body]
fn chacha_open(key: &[u8], nonce: &[u8], aad: &[u8], body: &[u8]) -> (r: Option<Vec<u8>>)
    requires
        key@.len() == 32,
        nonce@.len() == NONCE_LEN,
    ensures
        match r {
            Some(p) => opened_body(key@, nonce@, aad@, body@) == Some(p@),
            None => opened_body(key@, nonce@, aad@, body@) is None,
        },
        forall|p: Seq<u8>| body@ == sealed_body(key@, nonce@, aad@, p) ==> #[trigger] gives(r, p),
{
    let unbound = ring::aead::UnboundKey::new(&ring::aead::CHACHA20_POLY1305, key).ok()?;
    let nonce = ring::aead::Nonce::try_assume_unique_for_key(nonce).ok()?;
    let mut inside = body.to_vec();
    let plain = ring::aead::LessSafeKey::new(unbound).open_in_place(nonce, ring::aead::Aad::from(aad), &mut inside).ok()?;
    Some(plain.to_vec())
}

fn append(a: &mut Vec<u8>, b: &[u8])
    ensures
        final(a)@ == old(a)@ + b@,
{
    let mut i: usize = 0;
    while i < b.len()
        invariant
            i <= b@.len(),
            a@ == old(a)@ + b@.take(i as int),
        decreases b@.len() - i,
    {
        a.push(b[i]);
        i = i + 1;
        assert(b@.take(i as int) =~= b@.take(i - 1).push(b@[i - 1]));
    }
    assert(b@.take(b@.len() as int) =~= b@);
}

fn slice_of(b: &[u8], from: usize, to: usize) -> (out: Vec<u8>)
    requires
        from <= to <= b@.len(),
    ensures
        out@ == b@.subrange(from as int, to as int),
{
    let mut out: Vec<u8> = Vec::new();
    let mut i = from;
    while i < to
        invariant
            from <= i <= to <= b@.len(),
            out@ == b@.subrange(from as int, i as int),
        decreases to - i,
    {
        out.push(b[i]);
        i = i + 1;
        assert(out@ =~= b@.subrange(from as int, i as int));
    }
    out
}

/// The header of a sealed file.
pub fn header(salt: &[u8], nonce: &[u8], rounds: u32) -> (h: Vec<u8>)
    ensures
        h@ == spec_header(salt@, nonce@, rounds),
{
    let mut h = magic_bytes();
    let four: Vec<u8> = vec![
        (rounds / 0x100_0000) as u8,
        (rounds / 0x1_0000 % 0x100) as u8,
        (rounds / 0x100 % 0x100) as u8,
        (rounds % 0x100) as u8,
    ];
    assert(four@ =~= be32(rounds));
    append(&mut h, &four);
    append(&mut h, salt);
    append(&mut h, nonce);
    h
}

/// Whether bytes are a sealed file: longer than what the file calls itself,
/// and beginning with it.
pub open spec fn spec_is_sealed(bytes: Seq<u8>) -> bool {
    bytes.len() > magic().len() && bytes.take(magic().len() as int) == magic()
}

/// Whether these bytes are a sealed file, asked before a passphrase is.
pub fn is_sealed(bytes: &[u8]) -> (b: bool)
    ensures
        b == spec_is_sealed(bytes@),
{
    let m = magic_bytes();
    if bytes.len() <= m.len() {
        return false;
    }
    let mut i: usize = 0;
    while i < m.len()
        invariant
            i <= m@.len(),
            m@ == magic(),
            bytes@.len() > m@.len(),
            forall|j: int| 0 <= j < i ==> bytes@[j] == m@[j],
        decreases m@.len() - i,
    {
        if bytes[i] != m[i] {
            assert(bytes@.take(m@.len() as int)[i as int] != magic()[i as int]);
            return false;
        }
        i = i + 1;
    }
    assert(bytes@.take(m@.len() as int) =~= magic());
    true
}

/// What a sealed file of some plain bytes is: a header with a salt, a nonce
/// and the round count, then the bytes sealed under the stretched
/// passphrase with the header as authenticated data.
pub open spec fn seals(out: Seq<u8>, plain: Seq<u8>, passphrase: Seq<char>, salt: Seq<u8>, nonce: Seq<u8>) -> bool {
    let head = spec_header(salt, nonce, ROUNDS);
    &&& salt.len() == SALT_LEN
    &&& nonce.len() == NONCE_LEN
    &&& out.len() >= head_len() + TAG_LEN
    &&& out == head + sealed_body(stretched(encode_utf8(passphrase), salt, ROUNDS), nonce, head, plain)
}

/// How sealing fails once there is a passphrase: no randomness to draw a
/// salt or a nonce from, or the cipher refusing.
pub open spec fn sealing_failed(v: Result<Seq<u8>, Seq<char>>) -> bool {
    v == Err::<Seq<u8>, Seq<char>>("no randomness"@) || v == Err::<Seq<u8>, Seq<char>>(
        "the file could not be sealed"@,
    )
}

/// Wraps `plain` under `passphrase` with a given salt and nonce: the header,
/// then the bytes sealed under the stretched passphrase. Fails only where
/// the cipher refuses, which it does only past its limit.
pub fn seal_with(plain: &[u8], passphrase: &str, salt: &[u8], nonce: &[u8]) -> (r: Result<Vec<u8>, Error>)
    requires
        salt@.len() == SALT_LEN,
        nonce@.len() == NONCE_LEN,
    ensures
        r matches Ok(out) ==> seals(out@, plain@, passphrase@, salt@, nonce@),
        plain@.len() <= MAX_SEALED ==> r is Ok,
        r is Err ==> result_view(r) == Err::<Seq<u8>, Seq<char>>("the file could not be sealed"@),
        r matches Err(e) ==> e is Other,
{
    let key = derive_key(passphrase.as_bytes(), salt, ROUNDS);
    let head = header(salt, nonce, ROUNDS);
    let body = match chacha_seal(&key, nonce, &head, plain) {
        Some(b) => b,
        None => {
            return Err(Error::other("the file could not be sealed"));
        },
    };
    let mut out = head;
    append(&mut out, &body);
    assert(seals(out@, plain@, passphrase@, salt@, nonce@));
    Ok(out)
}

/// Wraps `plain` under `passphrase`, with a fresh salt and nonce. Without a
/// passphrase it refuses; with one it either seals or says which of the two
/// outside steps failed.
pub fn seal(plain: &[u8], passphrase: &str) -> (r: Result<Vec<u8>, Error>)
    ensures
        passphrase@.len() == 0 ==> result_view(r) == Err::<Seq<u8>, Seq<char>>("a passphrase is needed"@),
        passphrase@.len() > 0 ==> r is Ok || sealing_failed(result_view(r)),
        passphrase@.len() > 0 && plain@.len() <= MAX_SEALED && r is Err ==> result_view(r) == Err::<
            Seq<u8>,
            Seq<char>,
        >("no randomness"@),
        r matches Ok(out) ==> exists|salt: Seq<u8>, nonce: Seq<u8>| seals(out@, plain@, passphrase@, salt, nonce),
        r matches Err(e) ==> e is Other,
{
    if passphrase.is_empty() {
        return Err(Error::other("a passphrase is needed"));
    }
    let salt = match random_bytes(SALT_LEN) {
        Some(s) => s,
        None => {
            return Err(Error::other("no randomness"));
        },
    };
    let nonce = match random_bytes(NONCE_LEN) {
        Some(n) => n,
        None => {
            return Err(Error::other("no randomness"));
        },
    };
    seal_with(plain, passphrase, &salt, &nonce)
}

/// The length of the header.
pub open spec fn head_len() -> int {
    magic().len() + 4 + SALT_LEN + NONCE_LEN
}

/// What a file opens to, read the way [`open`] reads it.
pub open spec fn spec_open(sealed: Seq<u8>, passphrase: Seq<char>) -> Result<Seq<u8>, Seq<char>> {
    if sealed.len() < head_len() + TAG_LEN || sealed.take(magic().len() as int) != magic() {
        Err("this is not an AmberBeam export"@)
    } else {
        let rounds = read_be32(sealed, 16);
        if rounds == 0 || rounds > MOST_ROUNDS {
            Err("this export was made by something else"@)
        } else {
            let salt = sealed.subrange(20, 36);
            let nonce = sealed.subrange(36, 48);
            let head = spec_header(salt, nonce, rounds as u32);
            match opened_body(stretched(encode_utf8(passphrase), salt, rounds as u32), nonce, head, sealed.skip(head_len())) {
                Some(p) => Ok(p),
                None => Err("wrong passphrase, or the file was altered"@),
            }
        }
    }
}

pub open spec fn result_view(r: Result<Vec<u8>, Error>) -> Result<Seq<u8>, Seq<char>> {
    match r {
        Ok(v) => Ok(v@),
        Err(Error::Other { detail }) => Err(detail@),
        Err(_) => Err(Seq::empty()),
    }
}

proof fn lemma_be32(n: u32)
    ensures
        read_be32(be32(n), 0) == n,
{
    let b = be32(n);
    assert(b[0] as nat == n as nat / 0x100_0000);
    assert(b[1] as nat == n as nat / 0x1_0000 % 0x100);
    assert(b[2] as nat == n as nat / 0x100 % 0x100);
    assert(b[3] as nat == n as nat % 0x100);
    assert(read_be32(b, 0) == n) by (nonlinear_arith)
        requires
            b[0] as nat == n as nat / 0x100_0000,
            b[1] as nat == n as nat / 0x1_0000 % 0x100,
            b[2] as nat == n as nat / 0x100 % 0x100,
            b[3] as nat == n as nat % 0x100,
            n as nat <= 0xFFFF_FFFF,
            read_be32(b, 0) == b[0] as nat * 0x100_0000 + b[1] as nat * 0x1_0000 + b[2] as nat * 0x100
                + b[3] as nat,
    ;
}

/// Opens a file made by [`seal`]. A file of the shape sealing gives, under
/// the same passphrase, opens to what was sealed: what goes in comes out.
pub fn open(sealed: &[u8], passphrase: &str) -> (r: Result<Vec<u8>, Error>)
    ensures
        result_view(r) == spec_open(sealed@, passphrase@),
        r matches Err(e) ==> e is Other,
        forall|plain: Seq<u8>, salt: Seq<u8>, nonce: Seq<u8>|
            #[trigger] seals(sealed@, plain, passphrase@, salt, nonce) ==> result_view(r) == Ok::<
                Seq<u8>,
                Seq<char>,
            >(plain),
{
    if sealed.len() < 48 + TAG_LEN || !is_sealed(sealed) {
        proof {
            if sealed@.len() >= head_len() + TAG_LEN {
                assert(sealed@.take(magic().len() as int) != magic());
            }
            assert forall|plain: Seq<u8>, salt: Seq<u8>, nonce: Seq<u8>|
                #[trigger] seals(sealed@, plain, passphrase@, salt, nonce) implies false by {
                let head = spec_header(salt, nonce, ROUNDS);
                assert(sealed@.take(16) =~= magic()) by {
                    assert forall|j: int| 0 <= j < 16 implies sealed@[j] == magic()[j] by {
                        assert(sealed@[j] == head[j]);
                    }
                }
                lemma_sealed_body_len(stretched(encode_utf8(passphrase@), salt, ROUNDS), nonce, head, plain, sealed@);
            }
        }
        return Err(Error::other("this is not an AmberBeam export"));
    }
    let rounds: u32 = (sealed[16] as u32) * 0x100_0000 + (sealed[17] as u32) * 0x1_0000 + (sealed[18]
        as u32) * 0x100 + (sealed[19] as u32);
    assert(rounds as nat == read_be32(sealed@, 16));
    if rounds == 0 || rounds > MOST_ROUNDS {
        proof {
            assert forall|plain: Seq<u8>, salt: Seq<u8>, nonce: Seq<u8>|
                #[trigger] seals(sealed@, plain, passphrase@, salt, nonce) implies false by {
                let head = spec_header(salt, nonce, ROUNDS);
                lemma_sealed_body_len(stretched(encode_utf8(passphrase@), salt, ROUNDS), nonce, head, plain, sealed@);
                assert(sealed@.subrange(16, 20) =~= be32(ROUNDS)) by {
                    assert forall|j: int| 0 <= j < 4 implies sealed@.subrange(16, 20)[j] == be32(ROUNDS)[j] by {
                        assert(sealed@[16 + j] == head[16 + j]);
                    }
                }
                lemma_be32(ROUNDS);
                assert(read_be32(sealed@, 16) == read_be32(sealed@.subrange(16, 20), 0));
            }
        }
        return Err(Error::other("this export was made by something else"));
    }
    let salt = slice_of(sealed, 20, 36);
    let nonce = slice_of(sealed, 36, 48);
    let key = derive_key(passphrase.as_bytes(), &salt, rounds);
    let head = header(&salt, &nonce, rounds);
    let body = slice_of(sealed, 48, sealed.len());
    assert(body@ =~= sealed@.skip(head_len()));
    proof {
        assert forall|plain: Seq<u8>, salt2: Seq<u8>, nonce2: Seq<u8>|
            #[trigger] seals(sealed@, plain, passphrase@, salt2, nonce2) implies body@ == sealed_body(
            key@,
            nonce@,
            head@,
            plain,
        ) by {
            let h2 = spec_header(salt2, nonce2, ROUNDS);
            lemma_sealed_body_len(stretched(encode_utf8(passphrase@), salt2, ROUNDS), nonce2, h2, plain, sealed@);
            assert(sealed@.subrange(16, 20) =~= be32(ROUNDS)) by {
                assert forall|j: int| 0 <= j < 4 implies sealed@.subrange(16, 20)[j] == be32(ROUNDS)[j] by {
                    assert(sealed@[16 + j] == h2[16 + j]);
                }
            }
            lemma_be32(ROUNDS);
            assert(read_be32(sealed@, 16) == read_be32(sealed@.subrange(16, 20), 0));
            assert(salt@ =~= salt2) by {
                assert forall|j: int| 0 <= j < 16 implies salt@[j] == salt2[j] by {
                    assert(sealed@[20 + j] == h2[20 + j]);
                }
            }
            assert(nonce@ =~= nonce2) by {
                assert forall|j: int| 0 <= j < 12 implies nonce@[j] == nonce2[j] by {
                    assert(sealed@[36 + j] == h2[36 + j]);
                }
            }
            assert(head@ =~= h2);
            assert(body@ =~= sealed@.skip(48));
            assert(sealed@.skip(48) =~= sealed_body(key@, nonce@, head@, plain));
        }
    }
    let opened = chacha_open(&key, &nonce, &head, &body);
    proof {
        assert forall|plain: Seq<u8>, salt2: Seq<u8>, nonce2: Seq<u8>|
            #[trigger] seals(sealed@, plain, passphrase@, salt2, nonce2) implies gives(opened, plain) by {
            assert(body@ == sealed_body(key@, nonce@, head@, plain));
        }
    }
    match opened {
        Some(p) => Ok(p),
        None => Err(Error::other("wrong passphrase, or the file was altered")),
    }
}

/// A sealed file is its header and then its body, and the header is 48
/// bytes long.
proof fn lemma_sealed_body_len(key: Seq<u8>, nonce: Seq<u8>, head: Seq<u8>, plain: Seq<u8>, out: Seq<u8>)
    requires
        head.len() == 48,
        out == head + sealed_body(key, nonce, head, plain),
    ensures
        out.len() >= 48,
        out.skip(48) == sealed_body(key, nonce, head, plain),
        forall|j: int| 0 <= j < 48 ==> out[j] == head[j],
{
    assert(out.skip(48) =~= sealed_body(key, nonce, head, plain));
}

} // verus!
