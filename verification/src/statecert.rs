//! Schema fingerprints of hot-reload state.
//!
//! Every state payload handed from an old actor to a new one carries a
//! 32-byte BLAKE3 fingerprint of its Rust type: the digest of the type's
//! name, then its size and its alignment as little-endian machine words.
//! A migrator's expected type is fingerprinted the same way, and a payload
//! whose fingerprint differs is refused with a structured error instead of a
//! panicking downcast.

use vstd::prelude::*;
use vstd::string::*;
use vstd::std_specs::cmp::PartialEqSpecImpl;
use crate::bytes::{le_bytes, push_all, push_le};
use crate::digest::{blake3_digest, blake3_hash};
use crate::text::{hex_byte, hex_digits, hex_of, push_hex_byte};

verus! {

/// Number of bytes in a machine word.
pub open spec fn word_bytes() -> nat {
    (usize::BITS / 8) as nat
}

/// The bytes a type fingerprint digests: the type's name, its size and its
/// alignment, the latter two as little-endian machine words.
pub open spec fn fingerprint_input(name: Seq<u8>, size: usize, align: usize) -> Seq<u8> {
    name + le_bytes(size as nat, word_bytes()) + le_bytes(align as nat, word_bytes())
}

/// The 32-byte BLAKE3 fingerprint of a Rust type's identity.
#[derive(Debug, Clone, Copy, Eq, Hash)]
pub struct TypeFingerprint([u8; 32]);

/// Whether two 32-byte arrays hold the same bytes.
fn bytes32_equal(a: &[u8; 32], b: &[u8; 32]) -> (r: bool)
    ensures
        r == (a@ == b@),
{
    let mut i: usize = 0;
    while i < 32
        invariant
            i <= 32,
            forall|j: int| 0 <= j < i ==> a@[j] == b@[j],
        decreases 32 - i,
    {
        if a[i] != b[i] {
            return false;
        }
        i = i + 1;
    }
    assert(a@ =~= b@);
    true
}

impl PartialEq for TypeFingerprint {
    fn eq(&self, other: &Self) -> (r: bool) {
        bytes32_equal(&self.0, &other.0)
    }
}

impl PartialEqSpecImpl for TypeFingerprint {
    open spec fn obeys_eq_spec() -> bool {
        true
    }

    open spec fn eq_spec(&self, other: &Self) -> bool {
        self@ == other@
    }
}

impl View for TypeFingerprint {
    type V = Seq<u8>;

    closed spec fn view(&self) -> Seq<u8> {
        self.0@
    }
}

/// A fingerprint's hexadecimal rendering has 64 digits, and each two-digit
/// window reads back as the fingerprint's byte at that position.
pub proof fn lemma_fingerprint_hex_reads_back(fp: TypeFingerprint)
    ensures
        hex_of(fp@).len() == 64,
        forall|i: int| 0 <= i < 32
            ==> 16 * crate::text::hex_value(#[trigger] hex_of(fp@)[2 * i]) + crate::text::hex_value(hex_of(fp@)[2 * i + 1]) == fp@[i],
{
    assert(fp@.len() == 32);
    crate::text::lemma_hex_of_roundtrip(fp@);
}

impl TypeFingerprint {
    /// The fingerprint of a type with this name, size and alignment.
    pub fn from_parts(name: &[u8], size: usize, align: usize) -> (fp: TypeFingerprint)
        ensures
            fp@ == blake3_digest(fingerprint_input(name@, size, align)),
    {
        let mut data: Vec<u8> = Vec::new();
        let w = (usize::BITS / 8) as usize;
        push_all(&mut data, name);
        push_le(&mut data, size as u64, w);
        push_le(&mut data, align as u64, w);
        TypeFingerprint(blake3_hash(data.as_slice()))
    }

    /// The fingerprint's bytes.
    pub fn as_bytes(&self) -> (bytes: &[u8; 32])
        ensures
            bytes@ == self@,
    {
        &self.0
    }

    /// Lowercase hexadecimal, two digits per byte, for logs and manifests.
    pub fn to_hex(&self) -> (hex: String)
        ensures
            hex@ == hex_of(self@),
            hex@.len() == 64,
            forall|k: int| 0 <= k < 64 ==> hex_digits().contains(#[trigger] hex@[k]),
    {
        let mut out = String::new();
        let mut i: usize = 0;
        while i < 32
            invariant
                i <= 32,
                out@ == hex_of(self.0@.subrange(0, i as int)),
            decreases 32 - i,
        {
            push_hex_byte(&mut out, self.0[i]);
            proof {
                let pre = self.0@.subrange(0, i as int + 1);
                assert(pre.drop_last() =~= self.0@.subrange(0, i as int));
            }
            i = i + 1;
        }
        assert(self.0@.subrange(0, 32) =~= self.0@);
        proof {
            crate::text::lemma_hex_of_shape(self.0@);
        }
        out
    }
}

/// Returned when a payload's fingerprint differs from the one expected.
#[derive(Debug, Clone, Copy, PartialEq, Eq)]
pub struct FingerprintMismatch {
    pub expected: TypeFingerprint,
    pub actual: TypeFingerprint,
}

/// The message of a fingerprint mismatch.
pub open spec fn mismatch_message(expected: Seq<u8>, actual: Seq<u8>) -> Seq<char> {
    "type fingerprint mismatch on hot-reload state extraction (expected "@ + hex_of(expected)
        + ", got "@ + hex_of(actual) + ")"@
}

impl FingerprintMismatch {
    /// The human-readable description of the mismatch.
    pub fn message(&self) -> (msg: String)
        ensures
            msg@ == mismatch_message(self.expected@, self.actual@),
    {
        let mut msg = String::from_str(
            "type fingerprint mismatch on hot-reload state extraction (expected ",
        );
        msg.append(self.expected.to_hex().as_str());
        msg.append(", got ");
        msg.append(self.actual.to_hex().as_str());
        msg.append(")");
        msg
    }
}

/// Admits a payload recorded with fingerprint `actual` for a migrator that
/// expects `expected`: equal fingerprints pass, any other pair is refused
/// with both fingerprints.
pub fn check_fingerprint(expected: TypeFingerprint, actual: TypeFingerprint) -> (r: Result<
    (),
    FingerprintMismatch,
>)
    ensures
        r == (if expected@ == actual@ {
            Ok(())
        } else {
            Err(FingerprintMismatch { expected, actual })
        }),
{
    if expected == actual {
        Ok(())
    } else {
        Err(FingerprintMismatch { expected, actual })
    }
}

} // verus!
