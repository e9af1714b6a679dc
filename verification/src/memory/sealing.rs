//! Encryption at rest of memory texts.
//!
//! A sealed text is `ENC:` followed by the 12-byte nonce and the AES-256-GCM
//! ciphertext, both in lower-case hex.  Opening gives the text back; any
//! text that does not open (another prefix, no key, a malformed or forged
//! payload) is returned unchanged.

use vstd::prelude::*;
use vstd::utf8::{decode_utf8, encode_utf8, encode_utf8_decode_utf8, encode_utf8_valid_utf8, valid_utf8};

use aes_gcm::aead::{Aead, AeadCore, KeyInit, OsRng};
use aes_gcm::{Aes256Gcm, Key, Nonce};
use rand::Rng;

use crate::text::{chars_of, push_str, starts_with, string_of_range, to_owned_string};

verus! {

broadcast use vstd::string::group_string_axioms;

// ---------------------------------------------------------------------------
// Hex
// ---------------------------------------------------------------------------

/// The lower-case hex digit of `n < 16`.
pub open spec fn hex_char(n: nat) -> char {
    if n < 10 {
        ((48 + n) as u32) as char
    } else {
        ((87 + n) as u32) as char
    }
}

/// Each byte as two lower-case hex digits, high digit first.
pub open spec fn hex_of(bytes: Seq<u8>) -> Seq<char>
    decreases bytes.len(),
{
    if bytes.len() == 0 {
        seq![]
    } else {
        hex_of(bytes.drop_last()) + seq![hex_char((bytes.last() / 16) as nat), hex_char((bytes.last() % 16) as nat)]
    }
}

/// The value of a hex digit of either case.
pub open spec fn hex_value(c: char) -> Option<nat> {
    if '0' <= c <= '9' {
        Some((c as u32 - 48) as nat)
    } else if 'a' <= c <= 'f' {
        Some((c as u32 - 87) as nat)
    } else if 'A' <= c <= 'F' {
        Some((c as u32 - 55) as nat)
    } else {
        None
    }
}

/// The bytes a hex text denotes: pairs of digits of either case; none for
/// an odd length or a character that is not a hex digit.
pub open spec fn hex_bytes(s: Seq<char>) -> Option<Seq<u8>>
    decreases s.len(),
{
    if s.len() == 0 {
        Some(seq![])
    } else if s.len() == 1 {
        None
    } else {
        match (hex_bytes(s.drop_last().drop_last()), hex_value(s[s.len() - 2]), hex_value(s.last())) {
            (Some(b), Some(h), Some(l)) => Some(b.push((h * 16 + l) as u8)),
            _ => None,
        }
    }
}

/// `hex::encode`.
///
/// The crate writes two lower-case digits per byte, high digit first.
#[verifier::external_body]
fn hex_encode(data: &[u8]) -> (s: String)
    ensures
        s@ == hex_of(data@),
{
    hex::encode(data)
}

/// `hex::decode`, with its error as `None`.
///
/// The crate reads pairs of digits of either case and fails on an odd
/// length or any other character.
#[verifier::external_body]
fn hex_decode(text: &str) -> (r: Option<Vec<u8>>)
    ensures
        match r {
            Some(v) => hex_bytes(text@) == Some(v@),
            None => hex_bytes(text@) is None,
        },
{
    hex::decode(text).ok()
}

proof fn lemma_hex_digit(n: nat)
    requires
        n < 16,
    ensures
        hex_value(hex_char(n)) == Some(n),
{
    if n < 10 {
        assert(((48 + n) as u32) as char as u32 == 48 + n);
    } else {
        assert(((87 + n) as u32) as char as u32 == 87 + n);
    }
}

/// Decoding the hex of some bytes gives the bytes back.
pub proof fn lemma_hex_round_trip(bytes: Seq<u8>)
    ensures
        hex_bytes(hex_of(bytes)) == Some(bytes),
        hex_of(bytes).len() == 2 * bytes.len(),
    decreases bytes.len(),
{
    if bytes.len() > 0 {
        let b0 = bytes.drop_last();
        lemma_hex_round_trip(b0);
        let h = (bytes.last() / 16) as nat;
        let l = (bytes.last() % 16) as nat;
        lemma_hex_digit(h);
        lemma_hex_digit(l);
        let s = hex_of(bytes);
        assert(s.drop_last().drop_last() =~= hex_of(b0));
        assert(s[s.len() - 2] == hex_char(h));
        assert(s.last() == hex_char(l));
        assert((h * 16 + l) as u8 == bytes.last());
        assert(b0.push(bytes.last()) =~= bytes);
    }
}

// ---------------------------------------------------------------------------
// AES-256-GCM
// ---------------------------------------------------------------------------

/// The AES-256-GCM ciphertext (with its tag) of `plaintext` under `key` and
/// `nonce`, or none when the plaintext is too long.
pub uninterp spec fn gcm_sealed(key: Seq<u8>, nonce: Seq<u8>, plaintext: Seq<u8>) -> Option<Seq<u8>>;

/// The plaintext of an AES-256-GCM ciphertext, or none when it does not
/// authenticate under `key` and `nonce`.
pub uninterp spec fn gcm_opened(key: Seq<u8>, nonce: Seq<u8>, ciphertext: Seq<u8>) -> Option<Seq<u8>>;

/// The longest plaintext AES-GCM encrypts: 2^36 bytes (`aes_gcm::P_MAX`).
pub open spec fn gcm_max_plaintext() -> nat {
    68719476736
}

/// `Aes256Gcm::encrypt` with the key and nonce given as bytes.
///
/// Encryption depends on its inputs alone (named `gcm_sealed`); the
/// authenticated decryption of what it returns, with the same key and
/// nonce, is the plaintext.  It fails only for a plaintext longer than
/// `P_MAX`, 2^36 bytes.
#[verifier::external_body]
fn gcm_seal(key: &[u8], nonce: &[u8], plaintext: &[u8]) -> (r: Option<Vec<u8>>)
    requires
        key@.len() == 32,
        nonce@.len() == 12,
    ensures
        match r {
            Some(v) => gcm_sealed(key@, nonce@, plaintext@) == Some(v@) && gcm_opened(key@, nonce@, v@)
                == Some(plaintext@),
            None => gcm_sealed(key@, nonce@, plaintext@) is None,
        },
        plaintext@.len() <= gcm_max_plaintext() ==> r is Some,
{
    let cipher = Aes256Gcm::new(Key::<Aes256Gcm>::from_slice(key));
    cipher.encrypt(Nonce::from_slice(nonce), plaintext).ok()
}

/// `Aes256Gcm::decrypt` with the key and nonce given as bytes.
///
/// Decryption depends on its inputs alone; it is named `gcm_opened`.
#[verifier::external_body]
fn gcm_open(key: &[u8], nonce: &[u8], ciphertext: &[u8]) -> (r: Option<Vec<u8>>)
    requires
        key@.len() == 32,
        nonce@.len() == 12,
    ensures
        match r {
            Some(v) => gcm_opened(key@, nonce@, ciphertext@) == Some(v@),
            None => gcm_opened(key@, nonce@, ciphertext@) is None,
        },
{
    let cipher = Aes256Gcm::new(Key::<Aes256Gcm>::from_slice(key));
    cipher.decrypt(Nonce::from_slice(nonce), ciphertext).ok()
}

/// `Aes256Gcm::generate_nonce(&mut OsRng)`.
///
/// Twelve random bytes from the operating system; what holds of every
/// outcome is their number.  It panics only when the operating system's
/// source fails, which no argument can rule out.
#[verifier::external_body]
fn random_nonce() -> (n: Vec<u8>)
    ensures
        n@.len() == 12,
{
    Aes256Gcm::generate_nonce(&mut OsRng).to_vec()
}

/// `String::from_utf8`, with its error as `None`.
///
/// The standard library accepts exactly the well-formed UTF-8 byte
/// sequences and decodes them.
#[verifier::external_body]
fn utf8_string(bytes: Vec<u8>) -> (r: Option<String>)
    ensures
        match r {
            Some(s) => valid_utf8(bytes@) && s@ == decode_utf8(bytes@),
            None => !valid_utf8(bytes@),
        },
{
    String::from_utf8(bytes).ok()
}

// ---------------------------------------------------------------------------
// Sealed texts
// ---------------------------------------------------------------------------

/// The marker of a sealed text.
pub open spec fn sealed_prefix() -> Seq<char> {
    "ENC:"@
}

/// The texts `seal_text` may produce for `plaintext` under `key`: the
/// marker, a 12-byte nonce and the ciphertext under it, in hex; the
/// ciphertext opens to the plaintext's bytes under the same key and nonce.
pub open spec fn is_sealing(key: Seq<u8>, plaintext: Seq<char>, sealed: Seq<char>) -> bool {
    exists|nonce: Seq<u8>, ct: Seq<u8>|
        #![trigger gcm_sealed(key, nonce, encode_utf8(plaintext)), hex_of(nonce), hex_of(ct)]
        nonce.len() == 12 && gcm_sealed(key, nonce, encode_utf8(plaintext)) == Some(ct) && gcm_opened(
            key,
            nonce,
            ct,
        ) == Some(encode_utf8(plaintext)) && sealed == sealed_prefix() + hex_of(nonce) + hex_of(ct)
}

/// A key must be 32 bytes long.
pub fn usable_key(key_bytes: &[u8]) -> (k: Option<Vec<u8>>)
    ensures
        key_bytes@.len() == 32 ==> (k matches Some(v) && v@ == key_bytes@),
        key_bytes@.len() != 32 ==> k is None,
{
    if key_bytes.len() == 32 {
        Some(vstd::slice::slice_to_vec(key_bytes))
    } else {
        None
    }
}

/// The sealed text for a plaintext under a key and a 12-byte nonce: the
/// marker, the nonce and the ciphertext in hex; none when the cipher
/// refuses the plaintext.
pub open spec fn sealed_with(key: Seq<u8>, nonce: Seq<u8>, plaintext: Seq<char>) -> Option<Seq<char>> {
    match gcm_sealed(key, nonce, encode_utf8(plaintext)) {
        Some(ct) => Some(sealed_prefix() + hex_of(nonce) + hex_of(ct)),
        None => None,
    }
}

/// Seals a text under a key and a given nonce.
pub fn seal_with_nonce(key: &[u8], nonce: &[u8], plaintext: &str) -> (r: Result<String, String>)
    requires
        key@.len() == 32,
        nonce@.len() == 12,
    ensures
        match sealed_with(key@, nonce@, plaintext@) {
            Some(t) => r matches Ok(s) && s@ == t && is_sealing(key@, plaintext@, s@),
            None => r matches Err(e) && e@ == "Encryption failed"@,
        },
        encode_utf8(plaintext@).len() <= gcm_max_plaintext() ==> r is Ok,
{
    let bytes = vstd::slice::slice_to_vec(plaintext.as_bytes());
    match gcm_seal(key, nonce, bytes.as_slice()) {
        Some(ct) => {
            let mut out = to_owned_string("ENC:");
            let n_hex = hex_encode(nonce);
            let c_hex = hex_encode(ct.as_slice());
            push_str(&mut out, n_hex.as_str());
            push_str(&mut out, c_hex.as_str());
            proof {
                assert(out@ == sealed_prefix() + hex_of(nonce@) + hex_of(ct@));
            }
            Ok(out)
        },
        None => Err(to_owned_string("Encryption failed")),
    }
}

/// Seals a text under a key and a fresh random nonce; without a key the
/// text is stored as it is.  Fails only when the cipher refuses the text,
/// which it does only for a text of more than 2^36 bytes in UTF-8.
pub fn seal_text(key: Option<&[u8]>, plaintext: &str) -> (r: Result<String, String>)
    requires
        key matches Some(k) ==> k@.len() == 32,
    ensures
        key is None ==> (r matches Ok(s) && s@ == plaintext@),
        key matches Some(k) ==> match r {
            Ok(s) => is_sealing(k@, plaintext@, s@),
            Err(e) => e@ == "Encryption failed"@,
        },
        key is Some && encode_utf8(plaintext@).len() <= gcm_max_plaintext() ==> r is Ok,
{
    match key {
        None => Ok(to_owned_string(plaintext)),
        Some(k) => {
            let nonce = random_nonce();
            seal_with_nonce(k, nonce.as_slice(), plaintext)
        },
    }
}

/// What opening gives: the plaintext of a sealed text whose nonce and
/// ciphertext decode, authenticate and form UTF-8; else the text itself.
pub open spec fn opened_text(key: Option<Seq<u8>>, text: Seq<char>) -> Seq<char> {
    if !starts_with(text, sealed_prefix()) {
        text
    } else {
        match key {
            None => text,
            Some(k) => {
                let payload = text.skip(4);
                if payload.len() < 24 {
                    text
                } else {
                    match (hex_bytes(payload.take(24)), hex_bytes(payload.skip(24))) {
                        (Some(nonce), Some(ct)) => match gcm_opened(k, nonce, ct) {
                            Some(p) => if valid_utf8(p) {
                                decode_utf8(p)
                            } else {
                                text
                            },
                            None => text,
                        },
                        _ => text,
                    }
                }
            },
        }
    }
}

/// Opens a stored text.
pub fn open_text(key: Option<&[u8]>, text: &str) -> (out: String)
    requires
        key matches Some(k) ==> k@.len() == 32,
    ensures
        out@ == opened_text(
            match key {
                Some(k) => Some(k@),
                None => None,
            },
            text@,
        ),
{
    proof {
        reveal_strlit("ENC:");
    }
    if !crate::text::str_starts_with(text, "ENC:") {
        return to_owned_string(text);
    }
    let k = match key {
        Some(k) => k,
        None => {
            return to_owned_string(text);
        },
    };
    let v = chars_of(text);
    let n = v.len();
    if n - 4 < 24 {
        return to_owned_string(text);
    }
    let nonce_hex = string_of_range(&v, 4, 28);
    let ct_hex = string_of_range(&v, 28, n);
    proof {
        assert(nonce_hex@ =~= text@.skip(4).take(24));
        assert(ct_hex@ =~= text@.skip(4).skip(24));
    }
    let nonce = match hex_decode(nonce_hex.as_str()) {
        Some(b) => b,
        None => {
            return to_owned_string(text);
        },
    };
    let ct = match hex_decode(ct_hex.as_str()) {
        Some(b) => b,
        None => {
            return to_owned_string(text);
        },
    };
    proof {
        lemma_hex_len(nonce_hex@);
    }
    match gcm_open(k, nonce.as_slice(), ct.as_slice()) {
        Some(p) => match utf8_string(p) {
            Some(s) => s,
            None => to_owned_string(text),
        },
        None => to_owned_string(text),
    }
}

/// Hex text decodes to half as many bytes.
proof fn lemma_hex_len(s: Seq<char>)
    ensures
        hex_bytes(s) matches Some(b) ==> 2 * b.len() == s.len(),
    decreases s.len(),
{
    if s.len() >= 2 {
        lemma_hex_len(s.drop_last().drop_last());
    }
}

/// Opening a sealed text with the key it was sealed under gives the text
/// back.
pub proof fn lemma_seal_open(key: Seq<u8>, plaintext: Seq<char>, sealed: Seq<char>)
    requires
        is_sealing(key, plaintext, sealed),
    ensures
        opened_text(Some(key), sealed) == plaintext,
{
    let (nonce, ct) = choose|nonce: Seq<u8>, ct: Seq<u8>|
        #![trigger gcm_sealed(key, nonce, encode_utf8(plaintext)), hex_of(nonce), hex_of(ct)]
        nonce.len() == 12 && gcm_sealed(key, nonce, encode_utf8(plaintext)) == Some(ct) && gcm_opened(
            key,
            nonce,
            ct,
        ) == Some(encode_utf8(plaintext)) && sealed == sealed_prefix() + hex_of(nonce) + hex_of(ct);
    reveal_strlit("ENC:");
    lemma_hex_round_trip(nonce);
    lemma_hex_round_trip(ct);
    let payload = sealed.skip(4);
    assert(sealed.take(4) =~= sealed_prefix());
    assert(payload =~= hex_of(nonce) + hex_of(ct));
    assert(payload.take(24) =~= hex_of(nonce));
    assert(payload.skip(24) =~= hex_of(ct));
    encode_utf8_valid_utf8(plaintext);
    encode_utf8_decode_utf8(plaintext);
}

// ---------------------------------------------------------------------------
// Keys kept as hex
// ---------------------------------------------------------------------------

/// A key kept as hex: 32 bytes, or the reason it is refused.
pub fn key_from_hex(hex_key: &str) -> (r: Result<Vec<u8>, String>)
    ensures
        match hex_bytes(hex_key@) {
            None => r matches Err(e) && e@ == "Invalid key format in keyring"@,
            Some(b) => if b.len() == 32 {
                r matches Ok(k) && k@ == b
            } else {
                r matches Err(e) && e@ == "Invalid key length in keyring"@
            },
        },
{
    match hex_decode(hex_key) {
        None => Err(to_owned_string("Invalid key format in keyring")),
        Some(b) => if b.len() == 32 {
            Ok(b)
        } else {
            Err(to_owned_string("Invalid key length in keyring"))
        },
    }
}

/// The hex a new key is kept as.
pub fn key_to_hex(key: &[u8]) -> (s: String)
    ensures
        s@ == hex_of(key@),
        hex_bytes(s@) == Some(key@),
{
    proof {
        lemma_hex_round_trip(key@);
    }
    hex_encode(key)
}

/// `rand::thread_rng().fill` on a 32-byte key.
///
/// The bytes are random; what holds of every outcome is their number.  The
/// generator is seeded from the operating system and panics only when that
/// source fails, which no argument can rule out.
#[verifier::external_body]
fn random_key() -> (k: Vec<u8>)
    ensures
        k@.len() == 32,
{
    let mut key = [0u8; 32];
    rand::thread_rng().fill(&mut key);
    key.to_vec()
}

/// The key to seal with, and the hex text to store for it when it is new.
pub struct KeyChoice {
    pub key: Vec<u8>,
    pub store_hex: Option<String>,
}

/// The encryption key given what the keyring holds: the stored key when it
/// is valid hex of 32 bytes (else the reason it is refused), or, when
/// nothing is stored, a fresh random key with its hex to store.
pub fn choose_key(stored: Option<&str>) -> (r: Result<KeyChoice, String>)
    ensures
        match stored {
            Some(h) => match hex_bytes(h@) {
                None => r matches Err(e) && e@ == "Invalid key format in keyring"@,
                Some(b) => if b.len() == 32 {
                    r matches Ok(c) && c.key@ == b && c.store_hex is None
                } else {
                    r matches Err(e) && e@ == "Invalid key length in keyring"@
                },
            },
            None => r matches Ok(c) && c.key@.len() == 32 && (c.store_hex matches Some(t) && t@
                == hex_of(c.key@)),
        },
{
    match stored {
        Some(h) => match key_from_hex(h) {
            Ok(key) => Ok(KeyChoice { key, store_hex: None }),
            Err(e) => Err(e),
        },
        None => {
            let key = random_key();
            let hex = key_to_hex(key.as_slice());
            Ok(KeyChoice { key, store_hex: Some(hex) })
        },
    }
}

} // verus!
