//! Ed25519-signed hot-reload authorisation.
//!
//! A reload is honoured only when the caller presents a signature, by the
//! actor's reload key, over the canonical byte string of the request:
//!
//!   magic || actor_id || target_version (LE) || allow_downgrade || sequence (LE)
//!
//! A per-actor replay guard refuses any sequence number that is not strictly
//! greater than the last one honoured.
//!
//! Keys and signatures are held as their byte encodings; the curve arithmetic
//! stays in `ed25519_dalek` and the identity hash in `blake3`, each reached
//! through one small trusted wrapper below.

use vstd::prelude::*;
use crate::text::{decimal, push_decimal};
use crate::bytes::{le_bytes, lemma_le_roundtrip, lemma_radix_bounds, push_all, push_le};
use crate::digest::{blake3_digest, blake3_hash};
use vstd::string::*;
use vstd::utf8::is_char_boundary;
use ed25519_dalek::Signer;
use ed25519_dalek::Verifier;

verus! {

/// Distinguishes reload signatures from any other Ed25519 signature made
/// with the same key: the bytes of `garnet-reload-v1`.
pub const RELOAD_SIGNATURE_MAGIC: [u8; 16] = [
    103u8, 97u8, 114u8, 110u8, 101u8, 116u8, 45u8, 114u8,
    101u8, 108u8, 111u8, 97u8, 100u8, 45u8, 118u8, 49u8,
];

/// Domain separator of actor identities: the bytes of `garnet-actor-id-v1`.
pub const ACTOR_ID_DOMAIN: [u8; 18] = [
    103u8, 97u8, 114u8, 110u8, 101u8, 116u8, 45u8, 97u8, 99u8,
    116u8, 111u8, 114u8, 45u8, 105u8, 100u8, 45u8, 118u8, 49u8,
];

/// Length in bytes of an Ed25519 secret key.
pub const SECRET_KEY_LENGTH: usize = 32;

// ---------------------------------------------------------------------------
// Outside computations
// ---------------------------------------------------------------------------

/// Ed25519 public key (compressed point) of a 32-byte secret key.
pub uninterp spec fn ed25519_public_key(secret: Seq<u8>) -> Seq<u8>;

/// Ed25519 signature (RFC 8032, deterministic) of a message by a secret key.
pub uninterp spec fn ed25519_signature(secret: Seq<u8>, message: Seq<u8>) -> Seq<u8>;

/// Whether `signature` is a valid Ed25519 signature of `message` under the
/// encoded public key (false when the key does not decode to a curve point).
pub uninterp spec fn ed25519_accepts(public: Seq<u8>, message: Seq<u8>, signature: Seq<u8>) -> bool;

/// `SigningKey::from_bytes(..).verifying_key().to_bytes()` of
/// `ed25519_dalek`: the compressed public key of a secret key, a function of
/// the secret alone.
#[verifier::external_body]
fn ed25519_derive_public(secret: &[u8; 32]) -> (public: [u8; 32])
    ensures
        public@ == ed25519_public_key(secret@),
{
    ed25519_dalek::SigningKey::from_bytes(secret).verifying_key().to_bytes()
}

/// `Signer::sign` of `ed25519_dalek::SigningKey`, encoded with
/// `Signature::to_bytes`. Ed25519 signing is deterministic, so the signature
/// is a function of the secret and the message; the crate documents that the
/// signature verifies under the key's own verifying key.
#[verifier::external_body]
fn ed25519_sign(secret: &[u8; 32], message: &[u8]) -> (signature: [u8; 64])
    ensures
        signature@ == ed25519_signature(secret@, message@),
        ed25519_accepts(ed25519_public_key(secret@), message@, signature@),
{
    ed25519_dalek::SigningKey::from_bytes(secret).sign(message).to_bytes()
}

/// `VerifyingKey::from_bytes` then `Verifier::verify` of `ed25519_dalek`:
/// true exactly when the key decodes and the signature checks.
#[verifier::external_body]
fn ed25519_verify(public: &[u8; 32], message: &[u8], signature: &[u8; 64]) -> (ok: bool)
    ensures
        ok == ed25519_accepts(public@, message@, signature@),
{
    match ed25519_dalek::VerifyingKey::from_bytes(public) {
        Ok(vk) => vk.verify(message, &ed25519_dalek::Signature::from_bytes(signature)).is_ok(),
        Err(_) => false,
    }
}

/// `SigningKey::generate` of `ed25519_dalek` over the operating system's
/// random source, as secret-key bytes. Nothing is known of the outcome.
#[verifier::external_body]
fn ed25519_random_secret() -> (secret: [u8; 32]) {
    ed25519_dalek::SigningKey::generate(&mut rand::rngs::OsRng).to_bytes()
}

// ---------------------------------------------------------------------------
// Keys and signatures
// ---------------------------------------------------------------------------

/// An Ed25519 secret key, held as its 32 bytes.
#[derive(Clone, Debug)]
pub struct SigningKey {
    secret: [u8; 32],
}

/// An Ed25519 public key, held as its 32-byte compressed encoding.
#[derive(Clone, Copy, Debug, PartialEq, Eq)]
pub struct VerifyingKey {
    bytes: [u8; 32],
}

/// An Ed25519 signature, held as its 64 bytes.
#[derive(Clone, Copy, Debug, PartialEq, Eq)]
pub struct Signature {
    bytes: [u8; 64],
}

impl View for SigningKey {
    type V = Seq<u8>;

    closed spec fn view(&self) -> Seq<u8> {
        self.secret@
    }
}

impl View for VerifyingKey {
    type V = Seq<u8>;

    closed spec fn view(&self) -> Seq<u8> {
        self.bytes@
    }
}

impl View for Signature {
    type V = Seq<u8>;

    closed spec fn view(&self) -> Seq<u8> {
        self.bytes@
    }
}

impl SigningKey {
    /// The key with these secret bytes.
    pub fn from_bytes(secret: &[u8; 32]) -> (key: SigningKey)
        ensures
            key@ == secret@,
    {
        SigningKey { secret: *secret }
    }

    /// The secret bytes.
    pub fn to_bytes(&self) -> (secret: [u8; 32])
        ensures
            secret@ == self@,
    {
        self.secret
    }

    /// The public key matching this secret key.
    pub fn verifying_key(&self) -> (vk: VerifyingKey)
        ensures
            vk@ == ed25519_public_key(self@),
    {
        VerifyingKey { bytes: ed25519_derive_public(&self.secret) }
    }
}

impl VerifyingKey {
    /// The public key with this compressed encoding; an encoding that is not
    /// a curve point verifies nothing.
    pub fn from_bytes(bytes: &[u8; 32]) -> (vk: VerifyingKey)
        ensures
            vk@ == bytes@,
    {
        VerifyingKey { bytes: *bytes }
    }

    /// The compressed encoding.
    pub fn to_bytes(&self) -> (bytes: [u8; 32])
        ensures
            bytes@ == self@,
    {
        self.bytes
    }
}

impl Signature {
    /// The signature with these bytes.
    pub fn from_bytes(bytes: &[u8; 64]) -> (sig: Signature)
        ensures
            sig@ == bytes@,
    {
        Signature { bytes: *bytes }
    }

    /// The signature's bytes.
    pub fn to_bytes(&self) -> (bytes: [u8; 64])
        ensures
            bytes@ == self@,
    {
        self.bytes
    }
}

// ---------------------------------------------------------------------------
// Reload requests
// ---------------------------------------------------------------------------

/// A reload authorisation request: the caller signs `to_signing_bytes()`.
#[derive(Debug, Clone)]
pub struct ReloadAuth {
    pub actor_id: [u8; 32],
    pub target_version: u32,
    pub allow_downgrade: bool,
    pub sequence: u64,
}

/// The byte encoding of a flag.
pub open spec fn flag_byte(b: bool) -> u8 {
    if b {
        1u8
    } else {
        0u8
    }
}

/// The canonical bytes a reload signature covers.
pub open spec fn signing_bytes(auth: ReloadAuth) -> Seq<u8> {
    RELOAD_SIGNATURE_MAGIC@ + auth.actor_id@ + le_bytes(auth.target_version as nat, 4) + seq![
        flag_byte(auth.allow_downgrade),
    ] + le_bytes(auth.sequence as nat, 8)
}

/// The canonical bytes start with the magic prefix and are 61 bytes long.
pub proof fn lemma_signing_bytes_shape(auth: ReloadAuth)
    ensures
        signing_bytes(auth).len() == 16 + 32 + 4 + 1 + 8,
        signing_bytes(auth).subrange(0, 16) == RELOAD_SIGNATURE_MAGIC@,
{
    lemma_radix_bounds();
    lemma_le_roundtrip(auth.target_version as nat, 4);
    lemma_le_roundtrip(auth.sequence as nat, 8);
    assert(signing_bytes(auth).subrange(0, 16) =~= RELOAD_SIGNATURE_MAGIC@);
}

/// The canonical encoding is injective: two requests with the same signed
/// bytes agree on every field, so a signature binds the actor, the target
/// version, the downgrade flag and the sequence number together.
pub proof fn lemma_signing_bytes_injective(a: ReloadAuth, b: ReloadAuth)
    requires
        signing_bytes(a) == signing_bytes(b),
    ensures
        a.actor_id@ == b.actor_id@,
        a.target_version == b.target_version,
        a.allow_downgrade == b.allow_downgrade,
        a.sequence == b.sequence,
{
    lemma_radix_bounds();
    lemma_le_roundtrip(a.target_version as nat, 4);
    lemma_le_roundtrip(a.sequence as nat, 8);
    lemma_le_roundtrip(b.target_version as nat, 4);
    lemma_le_roundtrip(b.sequence as nat, 8);
    let sa = signing_bytes(a);
    let sb = signing_bytes(b);
    assert(a.actor_id@ =~= sa.subrange(16, 48));
    assert(b.actor_id@ =~= sb.subrange(16, 48));
    assert(le_bytes(a.target_version as nat, 4) =~= sa.subrange(48, 52));
    assert(le_bytes(b.target_version as nat, 4) =~= sb.subrange(48, 52));
    assert(sa[52] == flag_byte(a.allow_downgrade));
    assert(sb[52] == flag_byte(b.allow_downgrade));
    assert(le_bytes(a.sequence as nat, 8) =~= sa.subrange(53, 61));
    assert(le_bytes(b.sequence as nat, 8) =~= sb.subrange(53, 61));
}

impl ReloadAuth {
    /// The exact byte string the Ed25519 signer signs.
    pub fn to_signing_bytes(&self) -> (bytes: Vec<u8>)
        ensures
            bytes@ == signing_bytes(*self),
    {
        let mut out: Vec<u8> = Vec::new();
        push_all(&mut out, &RELOAD_SIGNATURE_MAGIC);
        push_all(&mut out, &self.actor_id);
        push_le(&mut out, self.target_version as u64, 4);
        out.push(if self.allow_downgrade { 1u8 } else { 0u8 });
        push_le(&mut out, self.sequence, 8);
        assert(out@ =~= signing_bytes(*self));
        out
    }

    /// Signs this request with a secret key. The signature verifies under
    /// the key's own public key.
    pub fn sign(&self, signing_key: &SigningKey) -> (sig: Signature)
        ensures
            sig@ == ed25519_signature(signing_key@, signing_bytes(*self)),
            ed25519_accepts(ed25519_public_key(signing_key@), signing_bytes(*self), sig@),
    {
        let bytes = self.to_signing_bytes();
        Signature { bytes: ed25519_sign(&signing_key.secret, bytes.as_slice()) }
    }

    /// Whether `sig` is a valid signature of this request under `vk`.
    pub fn verify(&self, vk: &VerifyingKey, sig: &Signature) -> (ok: bool)
        ensures
            ok == ed25519_accepts(vk@, signing_bytes(*self), sig@),
    {
        let bytes = self.to_signing_bytes();
        ed25519_verify(&vk.bytes, bytes.as_slice(), &sig.bytes)
    }
}

/// The identity of an actor: BLAKE3 of the domain separator and the seed.
pub fn derive_actor_id(seed: &[u8]) -> (id: [u8; 32])
    ensures
        id@ == blake3_digest(ACTOR_ID_DOMAIN@ + seed@),
{
    let mut data: Vec<u8> = Vec::new();
    push_all(&mut data, &ACTOR_ID_DOMAIN);
    push_all(&mut data, seed);
    blake3_hash(data.as_slice())
}

/// A fresh key pair; the verifying key matches the signing key.
pub fn generate_keypair() -> (pair: (SigningKey, VerifyingKey))
    ensures
        pair.1@ == ed25519_public_key(pair.0@),
{
    let sk = SigningKey { secret: ed25519_random_secret() };
    let vk = sk.verifying_key();
    (sk, vk)
}


// ---------------------------------------------------------------------------
// Secret keys from hexadecimal
// ---------------------------------------------------------------------------

/// The value of one hexadecimal digit byte (either case), if it is one.
pub open spec fn hex_value(b: u8) -> Option<u8> {
    if 48 <= b <= 57 {
        Some((b - 48) as u8)
    } else if 97 <= b <= 102 {
        Some((b - 87) as u8)
    } else if 65 <= b <= 70 {
        Some((b - 55) as u8)
    } else {
        None
    }
}

/// `u8::from_str_radix(s, 16)` on the two-byte string `[b0, b1]`: an
/// optional leading `+` followed by one digit, or two digits.
pub open spec fn parse_hex_pair(b0: u8, b1: u8) -> Option<u8> {
    if b0 == 43 {
        hex_value(b1)
    } else {
        match (hex_value(b0), hex_value(b1)) {
            (Some(h), Some(l)) => Some((16 * h + l) as u8),
            _ => None,
        }
    }
}

/// The byte that the `i`-th two-character window of `bytes` parses to.
pub open spec fn pair_at(bytes: Seq<u8>, i: int) -> Option<u8> {
    parse_hex_pair(bytes[2 * i], bytes[2 * i + 1])
}

/// Whether the windows before `i` all parse.
pub open spec fn pairs_ok_before(bytes: Seq<u8>, i: int) -> bool {
    forall|j: int| 0 <= j < i ==> (#[trigger] pair_at(bytes, j)) is Some
}

/// Whether `i` is the first window that does not parse.
pub open spec fn first_bad_pair(bytes: Seq<u8>, i: int) -> bool {
    0 <= i < 32 && pair_at(bytes, i) is None && pairs_ok_before(bytes, i)
}

/// Whether every window the parse reaches starts and ends on a character
/// boundary (slicing the string there does not panic).
pub open spec fn hex_windows_on_boundaries(bytes: Seq<u8>) -> bool {
    bytes.len() == 64 ==> forall|i: int|
        0 <= i < 32 && pairs_ok_before(bytes, i) ==> is_char_boundary(bytes, 2 * i)
            && is_char_boundary(bytes, 2 * i + 2)
}

/// The message of a secret key of the wrong length.
pub open spec fn hex_length_error(len: nat) -> Seq<char> {
    "ed25519 secret key hex must be 64 chars, got "@ + decimal(len)
}

/// The message of a window that is not a hexadecimal byte.
pub open spec fn hex_digit_error(i: nat) -> Seq<char> {
    "invalid hex at byte "@ + decimal(i) + ": invalid digit found in string"@
}

/// The outcome of reading a secret key from the UTF-8 bytes of its
/// hexadecimal text.
pub open spec fn hex_key_result(bytes: Seq<u8>) -> Result<Seq<u8>, Seq<char>> {
    if bytes.len() != 64 {
        Err(hex_length_error(bytes.len()))
    } else if exists|i: int| first_bad_pair(bytes, i) {
        Err(hex_digit_error((choose|i: int| first_bad_pair(bytes, i)) as nat))
    } else {
        Ok(Seq::new(32, |i: int| pair_at(bytes, i)->0))
    }
}

/// `hex_value` of one byte.
fn hex_value_of(b: u8) -> (r: Option<u8>)
    ensures
        r == hex_value(b),
{
    if 48 <= b && b <= 57 {
        Some(b - 48)
    } else if 97 <= b && b <= 102 {
        Some(b - 87)
    } else if 65 <= b && b <= 70 {
        Some(b - 55)
    } else {
        None
    }
}

/// `parse_hex_pair` of two bytes.
fn parse_hex_pair_of(b0: u8, b1: u8) -> (r: Option<u8>)
    ensures
        r == parse_hex_pair(b0, b1),
{
    if b0 == 43 {
        hex_value_of(b1)
    } else {
        match (hex_value_of(b0), hex_value_of(b1)) {
            (Some(h), Some(l)) => Some(16 * h + l),
            _ => None,
        }
    }
}

/// Whether `signing_key_from_hex` may be called on `hex`: every window its
/// parse reaches starts and ends on a character boundary.
pub fn hex_key_windows_ok(hex: &str) -> (r: bool)
    ensures
        r == hex_windows_on_boundaries(hex.spec_bytes()),
{
    let bytes = hex.as_bytes();
    let ghost bs = hex.spec_bytes();
    if bytes.len() != 64 {
        return true;
    }
    let mut i: usize = 0;
    while i < 32
        invariant
            bytes@ == bs,
            bs == hex.spec_bytes(),
            bs.len() == 64,
            i <= 32,
            pairs_ok_before(bs, i as int),
            forall|j: int| 0 <= j < i ==> #[trigger] window_on_boundaries(bs, j),
        decreases 32 - i,
    {
        let lo = hex.is_char_boundary(2 * i);
        let hi = hex.is_char_boundary(2 * i + 2);
        assert(lo == is_char_boundary(bs, 2 * (i as int)));
        assert(hi == is_char_boundary(bs, 2 * (i as int) + 2));
        if !(lo && hi) {
            proof {
                assert(pairs_ok_before(bs, i as int));
                assert(!window_on_boundaries(bs, i as int));
            }
            return false;
        }
        assert(window_on_boundaries(bs, i as int));
        if parse_hex_pair_of(bytes[2 * i], bytes[2 * i + 1]).is_none() {
            proof {
                assert(pair_at(bs, i as int) is None);
                assert forall|j: int| 0 <= j < 32 && pairs_ok_before(bs, j)
                    implies is_char_boundary(bs, 2 * j) && is_char_boundary(bs, 2 * j + 2) by {
                    if j > i {
                        assert(pair_at(bs, i as int) is Some);
                    } else {
                        assert(window_on_boundaries(bs, j));
                    }
                }
            }
            return true;
        }
        proof {
            assert forall|j: int| 0 <= j < i + 1 implies (#[trigger] pair_at(bs, j)) is Some by {
                if j < i {
                    assert(pairs_ok_before(bs, i as int));
                }
            }
        }
        i = i + 1;
    }
    proof {
        assert forall|j: int| 0 <= j < 32 && pairs_ok_before(bs, j)
            implies is_char_boundary(bs, 2 * j) && is_char_boundary(bs, 2 * j + 2) by {
            assert(window_on_boundaries(bs, j));
        }
    }
    true
}

/// Window `j` starts and ends on a character boundary.
pub open spec fn window_on_boundaries(bytes: Seq<u8>, j: int) -> bool {
    is_char_boundary(bytes, 2 * j) && is_char_boundary(bytes, 2 * j + 2)
}

/// Parses a 32-byte secret key from 64 hexadecimal characters.
pub fn signing_key_from_hex(hex: &str) -> (r: Result<SigningKey, String>)
    requires
        hex_windows_on_boundaries(hex.spec_bytes()),
    ensures
        match (r, hex_key_result(hex.spec_bytes())) {
            (Ok(key), Ok(secret)) => key@ == secret,
            (Err(msg), Err(expected)) => msg@ == expected,
            _ => false,
        },
{
    let bytes = hex.as_bytes();
    let ghost bs = hex.spec_bytes();
    if bytes.len() != SECRET_KEY_LENGTH * 2 {
        let mut msg = String::from_str("ed25519 secret key hex must be 64 chars, got ");
        push_decimal(&mut msg, bytes.len() as u64);
        return Err(msg);
    }
    let mut secret = [0u8; 32];
    let mut i: usize = 0;
    while i < SECRET_KEY_LENGTH
        invariant
            bytes@ == bs,
            bs == hex.spec_bytes(),
            bs.len() == 64,
            i <= 32,
            pairs_ok_before(bs, i as int),
            forall|j: int| 0 <= j < i ==> secret@[j] == (#[trigger] pair_at(bs, j))->0,
        decreases 32 - i,
    {
        match parse_hex_pair_of(bytes[2 * i], bytes[2 * i + 1]) {
            Some(b) => {
                secret[i] = b;
                i = i + 1;
            },
            None => {
                proof {
                    assert(first_bad_pair(bs, i as int));
                    let c = choose|k: int| first_bad_pair(bs, k);
                    assert(first_bad_pair(bs, c));
                    if c < i {
                        assert(pair_at(bs, c) is Some);
                    }
                    if c > i {
                        assert(pair_at(bs, i as int) is Some);
                    }
                }
                let mut msg = String::from_str("invalid hex at byte ");
                push_decimal(&mut msg, i as u64);
                msg.append(": invalid digit found in string");
                return Err(msg);
            },
        }
    }
    proof {
        assert forall|k: int| !first_bad_pair(bs, k) by {
            if 0 <= k < 32 {
                assert(pair_at(bs, k) is Some);
            }
        }
        assert(secret@ =~= Seq::new(32, |j: int| pair_at(bs, j)->0));
    }
    Ok(SigningKey { secret })
}

// ---------------------------------------------------------------------------
// Replay defence
// ---------------------------------------------------------------------------

/// Per-actor replay-defence state: the highest sequence number honoured.
#[derive(Debug)]
pub struct ReloadReplayGuard {
    last_sequence: u64,
}

impl View for ReloadReplayGuard {
    type V = u64;

    closed spec fn view(&self) -> u64 {
        self.last_sequence
    }
}

/// What the guard answers to `seq` when it last honoured `last`.
pub open spec fn replay_check(last: u64, seq: u64) -> Result<(), (u64, u64)> {
    if seq <= last {
        Err((last, seq))
    } else {
        Ok(())
    }
}

/// The guard's state after answering `seq`.
pub open spec fn replay_next(last: u64, seq: u64) -> u64 {
    if seq <= last {
        last
    } else {
        seq
    }
}

/// Once a sequence number is honoured, a later request is honoured exactly
/// when its number is strictly greater: a replayed or older request is
/// always refused.
pub proof fn lemma_replay_refused(last: u64, honoured: u64, later: u64)
    requires
        replay_check(last, honoured) is Ok,
    ensures
        replay_check(replay_next(last, honoured), later) is Ok <==> later > honoured,
{
}

impl Default for ReloadReplayGuard {
    fn default() -> (g: ReloadReplayGuard)
        ensures
            g@ == 0,
    {
        ReloadReplayGuard { last_sequence: 0 }
    }
}

impl ReloadReplayGuard {
    /// The highest sequence number honoured so far.
    pub fn last_sequence(&self) -> (last: u64)
        ensures
            last == self@,
    {
        self.last_sequence
    }

    /// Honours `seq` when it is strictly greater than the last honoured
    /// number and records it; otherwise refuses with `(last, seq)` and keeps
    /// the state.
    pub fn check_and_record(&mut self, seq: u64) -> (r: Result<(), (u64, u64)>)
        ensures
            r == replay_check(old(self)@, seq),
            final(self)@ == replay_next(old(self)@, seq),
    {
        if seq <= self.last_sequence {
            return Err((self.last_sequence, seq));
        }
        self.last_sequence = seq;
        Ok(())
    }
}

} // verus!
