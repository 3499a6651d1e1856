//! The build session: the key that every literal of one build is encrypted
//! with, the encryption of literals, and the run-time decoder.
//!
//! The session key is resolved once and scrambled once with a fixed mask; the
//! scrambled key is what is embedded in the program and also what encrypts
//! every literal. Holding it in one `Session` value, handed to every
//! transformation, keeps all literals of a build on the same key.
use crate::error::LitcryptError;
use crate::literal::{resolve_literal, token_content, Token};
use crate::xor::{lemma_xor_involution, xor, xor_spec};
use rand::rngs::OsRng;
use rand::RngCore;
use vstd::arithmetic::div_mod::lemma_small_mod;
use vstd::prelude::*;
use vstd::utf8::{
    decode_utf8, decode_utf8_encode_utf8, encode_utf8, encode_utf8_decode_utf8,
    encode_utf8_valid_utf8, valid_utf8,
};

verus! {

/// The length of a session key drawn from the operating system.
pub const RANDOM_KEY_LEN: usize = 64;

/// The fixed mask that scrambles the session key before it is embedded:
/// the bytes of `l33t`.
pub open spec fn spell_mask() -> Seq<u8> {
    seq![108u8, 51u8, 51u8, 116u8]
}

/// The key embedded in the program for session key `k`, which also encrypts
/// every literal of the session.
pub open spec fn obfuscate(k: Seq<u8>) -> Seq<u8> {
    xor_spec(k, spell_mask())
}

/// The text that stands for an environment variable that is not set.
pub open spec fn placeholder_text() -> Seq<char> {
    seq!['u', 'n', 'k', 'n', 'o', 'w', 'n']
}

/// What the run-time decoder recovers from `encrypted` with `key`: the text
/// whose UTF-8 encoding is the decrypted bytes, or `None` where those bytes are
/// not valid UTF-8.
pub open spec fn decrypt_spec(encrypted: Seq<u8>, key: Seq<u8>) -> Option<Seq<char>> {
    if valid_utf8(xor_spec(encrypted, key)) {
        Some(decode_utf8(xor_spec(encrypted, key)))
    } else {
        None
    }
}

/// The plaintext of an environment-variable literal: the variable's value,
/// or the placeholder where it is not set.
pub open spec fn env_plaintext(value: Option<String>) -> Seq<u8> {
    match value {
        Some(v) => encode_utf8(v@),
        None => encode_utf8(placeholder_text()),
    }
}

/// The state of one build session.
pub struct Session {
    /// The scrambled session key: embedded in the program, and the key that
    /// encrypts every literal of the session.
    pub encrypt_key: Vec<u8>,
}

/// Relies on rand's `OsRng::try_fill_bytes`: it fills the whole buffer from
/// the operating system's random source, or reports that it could not. The
/// buffer keeps its length either way.
#[verifier::external_body]
fn os_fill(buf: &mut Vec<u8>) -> (ok: bool)
    ensures
        final(buf)@.len() == old(buf)@.len(),
{
    OsRng.try_fill_bytes(buf.as_mut_slice()).is_ok()
}

/// Relies on std's `String::from_utf8`: it accepts exactly the valid UTF-8
/// byte sequences, and the string it returns is made of those bytes.
#[verifier::external_body]
fn string_from_utf8(bytes: Vec<u8>) -> (r: Option<String>)
    ensures
        r is Some <==> valid_utf8(bytes@),
        r matches Some(s) ==> encode_utf8(s@) == bytes@,
{
    String::from_utf8(bytes).ok()
}

/// Resolves the session key: the bytes of `env_override` where it is given
/// (an empty one included), else `RANDOM_KEY_LEN` bytes from the operating
/// system's random source.
///
/// Fails with `RandomSource` only where no override is given and the random
/// source fails.
pub fn get_magic_spell(env_override: Option<String>) -> (r: Result<Vec<u8>, LitcryptError>)
    ensures
        env_override matches Some(k) ==> r matches Ok(v) && v@ == encode_utf8(k@),
        env_override is None ==> match r {
            Ok(v) => v@.len() == RANDOM_KEY_LEN,
            Err(e) => e == LitcryptError::RandomSource,
        },
{
    match env_override {
        Some(k) => Ok(vstd::slice::slice_to_vec(k.as_str().as_bytes())),
        None => {
            let mut key: Vec<u8> = Vec::new();
            let mut i: usize = 0;
            while i < RANDOM_KEY_LEN
                invariant
                    i <= RANDOM_KEY_LEN,
                    key@.len() == i,
                decreases RANDOM_KEY_LEN - i,
            {
                key.push(0u8);
                i = i + 1;
            }
            if os_fill(&mut key) {
                Ok(key)
            } else {
                Err(LitcryptError::RandomSource)
            }
        },
    }
}

/// Opens a build session on `magic_spell`: the key to embed and to encrypt
/// with is `magic_spell` scrambled with the fixed mask.
pub fn use_litcrypt(magic_spell: &[u8]) -> (s: Session)
    ensures
        s.encrypt_key@ == obfuscate(magic_spell@),
{
    let mask: Vec<u8> = vec![108u8, 51u8, 51u8, 116u8];
    assert(mask@ =~= spell_mask());
    Session { encrypt_key: xor(magic_spell, mask.as_slice()) }
}

/// Encrypts the bytes of a plaintext literal with the session's key.
pub fn encrypt_string(something: &[u8], session: &Session) -> (r: Vec<u8>)
    ensures
        r@ == xor_spec(something@, session.encrypt_key@),
{
    xor(something, session.encrypt_key.as_slice())
}

/// Encrypts the string literal that a transformation site received.
///
/// Fails as `resolve_literal` does where the site did not receive exactly one
/// string literal.
pub fn lc(tokens: &Vec<Token>, session: &Session) -> (r: Result<Vec<u8>, LitcryptError>)
    ensures
        tokens@.len() != 1 <==> r matches Err(LitcryptError::ArgumentCount),
        tokens@.len() == 1 ==> match token_content(tokens@[0]) {
            Some(c) => r matches Ok(v) && v@ == xor_spec(c, session.encrypt_key@),
            None => r matches Err(LitcryptError::ArgumentKind),
        },
{
    let something = resolve_literal(tokens)?;
    Ok(encrypt_string(something.as_slice(), session))
}

/// Encrypts the value of an environment variable read at build time, or the
/// placeholder `unknown` where the variable is not set.
pub fn lc_env(value: Option<String>, session: &Session) -> (r: Vec<u8>)
    ensures
        r@ == xor_spec(env_plaintext(value), session.encrypt_key@),
{
    match value {
        Some(v) => encrypt_string(v.as_str().as_bytes(), session),
        None => {
            let fallback: &str = "unknown";
            proof {
                reveal_strlit("unknown");
                assert(fallback@ =~= placeholder_text());
            }
            encrypt_string(fallback.as_bytes(), session)
        },
    }
}

/// The run-time decoder: decrypts `encrypted` with `encrypt_key` and reads the
/// result as UTF-8 text.
///
/// Fails with `InvalidText` exactly where the decrypted bytes are not valid
/// UTF-8. Text encrypted with the same key always decrypts; a different key
/// gives other bytes, which may or may not be valid UTF-8.
pub fn decrypt_bytes(encrypted: &[u8], encrypt_key: &[u8]) -> (r: Result<String, LitcryptError>)
    ensures
        r is Ok <==> decrypt_spec(encrypted@, encrypt_key@) is Some,
        r matches Ok(s) ==> s@ == decrypt_spec(encrypted@, encrypt_key@)->Some_0,
        r matches Err(e) ==> e == LitcryptError::InvalidText,
{
    let decrypted = xor(encrypted, encrypt_key);
    match string_from_utf8(decrypted) {
        Some(s) => {
            proof {
                encode_utf8_decode_utf8(s@);
            }
            Ok(s)
        },
        None => Err(LitcryptError::InvalidText),
    }
}

/// A literal encrypted with the scrambled key of any session key `k` (empty
/// or not) decrypts, with that same scrambled key, to the literal's text.
pub proof fn lemma_pipeline_round_trip(p: Seq<char>, k: Seq<u8>)
    ensures
        decrypt_spec(xor_spec(encode_utf8(p), obfuscate(k)), obfuscate(k)) == Some(p),
{
    lemma_xor_involution(encode_utf8(p), obfuscate(k));
    encode_utf8_valid_utf8(p);
    encode_utf8_decode_utf8(p);
}

/// Two literals encrypted in one session both decrypt to their own text with
/// the key that the session embeds.
pub proof fn lemma_shared_session_round_trip(p1: Seq<char>, p2: Seq<char>, k: Seq<u8>)
    ensures
        decrypt_spec(xor_spec(encode_utf8(p1), obfuscate(k)), obfuscate(k)) == Some(p1),
        decrypt_spec(xor_spec(encode_utf8(p2), obfuscate(k)), obfuscate(k)) == Some(p2),
{
    lemma_pipeline_round_trip(p1, k);
    lemma_pipeline_round_trip(p2, k);
}

/// A literal encrypted under session key `k1` does not decrypt to its text with
/// the key embedded for another session key `k2` of the same length, where the
/// two differ at a position that the literal's bytes reach.
pub proof fn lemma_mismatched_session_fails(p: Seq<char>, k1: Seq<u8>, k2: Seq<u8>, j: int)
    requires
        k1.len() == k2.len(),
        0 <= j < k1.len(),
        j < encode_utf8(p).len(),
        k1[j] != k2[j],
    ensures
        decrypt_spec(xor_spec(encode_utf8(p), obfuscate(k1)), obfuscate(k2)) != Some(p),
{
    let b = encode_utf8(p);
    let e1 = obfuscate(k1);
    let e2 = obfuscate(k2);
    let d = xor_spec(xor_spec(b, e1), e2);
    let m = spell_mask()[j % 4];
    let x = k1[j];
    let y = k2[j];
    let c = b[j];
    lemma_small_mod(j as nat, k1.len());
    assert(e1.len() == k1.len() && e2.len() == k1.len());
    assert(xor_spec(b, e1)[j] == c ^ e1[j]);
    assert(e1[j] == x ^ m);
    assert(e2[j] == y ^ m);
    assert(d[j] == (c ^ (x ^ m)) ^ (y ^ m));
    assert(x != y ==> (c ^ (x ^ m)) ^ (y ^ m) != c) by (bit_vector);
    if decrypt_spec(xor_spec(b, e1), e2) == Some(p) {
        decode_utf8_encode_utf8(d);
        assert(d == b);
    }
}

/// An environment-variable literal whose variable is not set decrypts to the
/// placeholder `unknown`, whatever the session key.
pub proof fn lemma_env_fallback_round_trip(k: Seq<u8>)
    ensures
        decrypt_spec(xor_spec(env_plaintext(None), obfuscate(k)), obfuscate(k)) == Some(
            placeholder_text(),
        ),
{
    lemma_pipeline_round_trip(placeholder_text(), k);
}

} // verus!
