//! Identity: Ed25519 signatures over Arkhe objects, the attestation header
//! that carries them, and the gateway that checks a DID's signature.
use vstd::prelude::*;
use ed25519_dalek::{Signer, Verifier};
use crate::arkheobex::{ArkheObject, HeaderType};

verus! {

#[derive(Debug, Clone, Copy, PartialEq, Eq, Structural)]
pub enum IdentityError {
    UnknownDID,
    InvalidSignature,
    MissingAttestation,
}

/// The Ed25519 public key of a 32-byte secret key.
pub uninterp spec fn ed25519_public_key(secret: Seq<u8>) -> Seq<u8>;

/// The Ed25519 signature of `message` under a 32-byte secret key.
pub uninterp spec fn ed25519_signature(secret: Seq<u8>, message: Seq<u8>) -> Seq<u8>;

/// Whether `signature` is a valid Ed25519 signature of `message` under the
/// public key `public`.
pub uninterp spec fn ed25519_accepts(public: Seq<u8>, message: Seq<u8>, signature: Seq<u8>) -> bool;

/// A fresh secret key, from `SigningKey::generate` over the operating
/// system's random generator; nothing is stated of its bytes.
#[verifier::external_body]
fn generate_secret_key() -> [u8; 32] {
    let mut csprng = rand_core::OsRng;
    ed25519_dalek::SigningKey::generate(&mut csprng).to_bytes()
}

/// The public key of `secret`, from `SigningKey::from_bytes` and
/// `verifying_key`: a function of the secret.
#[verifier::external_body]
fn public_key_of(secret: &[u8; 32]) -> (r: [u8; 32])
    ensures
        r@ == ed25519_public_key(secret@),
{
    ed25519_dalek::SigningKey::from_bytes(secret).verifying_key().to_bytes()
}

/// Signs `message` with `secret` (`SigningKey::sign`, deterministic
/// Ed25519). The crate's documentation shows that such a signature is
/// accepted under the key's own public key.
#[verifier::external_body]
fn sign_with(secret: &[u8; 32], message: &[u8]) -> (r: [u8; 64])
    ensures
        r@ == ed25519_signature(secret@, message@),
        ed25519_accepts(ed25519_public_key(secret@), message@, r@),
{
    ed25519_dalek::SigningKey::from_bytes(secret).sign(message).to_bytes()
}

/// Checks `signature` on `message` under the public key `public`
/// (`VerifyingKey::from_bytes`, then `verify`); false where the key bytes
/// are no valid point.
#[verifier::external_body]
fn verify_with(public: &[u8; 32], message: &[u8], signature: &[u8; 64]) -> (r: bool)
    ensures
        r == ed25519_accepts(public@, message@, signature@),
{
    match ed25519_dalek::VerifyingKey::from_bytes(public) {
        Ok(key) => key.verify(message, &ed25519_dalek::Signature::from_bytes(signature)).is_ok(),
        Err(_) => false,
    }
}

/// An Ed25519 key pair that signs and checks messages.
pub struct SignatureGuard {
    signing_key: [u8; 32],
    verifying_key: [u8; 32],
}

impl SignatureGuard {
    /// The verifying key is the public key of the signing key.
    pub closed spec fn wf(&self) -> bool {
        self.verifying_key@ == ed25519_public_key(self.signing_key@)
    }

    /// The public key, as bytes.
    pub closed spec fn public_key(&self) -> Seq<u8> {
        self.verifying_key@
    }

    /// The secret key, as bytes.
    pub closed spec fn secret_key(&self) -> Seq<u8> {
        self.signing_key@
    }

    /// A guard with a fresh random key pair.
    pub fn new() -> (r: Self)
        ensures
            r.wf(),
    {
        let signing_key = generate_secret_key();
        let verifying_key = public_key_of(&signing_key);
        SignatureGuard { signing_key, verifying_key }
    }

    /// The 64-byte Ed25519 signature of `message`; the guard's own
    /// `verify` accepts it.
    pub fn sign(&self, message: &[u8]) -> (r: Vec<u8>)
        requires
            self.wf(),
        ensures
            r@ == ed25519_signature(self.secret_key(), message@),
            r@.len() == 64,
            ed25519_accepts(self.public_key(), message@, r@),
    {
        let sig = sign_with(&self.signing_key, message);
        let mut out: Vec<u8> = Vec::new();
        let mut i: usize = 0;
        while i < 64
            invariant
                0 <= i <= 64,
                out@ == sig@.take(i as int),
            decreases 64 - i,
        {
            assert(sig@.take(i as int + 1) =~= sig@.take(i as int).push(sig@[i as int]));
            out.push(sig[i]);
            i += 1;
        }
        assert(sig@.take(64) =~= sig@);
        out
    }

    /// Whether `signature` is a valid signature of `message` under the
    /// guard's key; a signature that is not 64 bytes long is refused.
    pub fn verify(&self, message: &[u8], signature: &[u8]) -> (r: bool)
        ensures
            r == (signature@.len() == 64 && ed25519_accepts(self.public_key(), message@, signature@)),
    {
        if signature.len() != 64 {
            return false;
        }
        let mut sig = [0u8; 64];
        let mut i: usize = 0;
        while i < 64
            invariant
                signature@.len() == 64,
                0 <= i <= 64,
                forall|k: int| 0 <= k < i ==> sig@[k] == signature@[k],
            decreases 64 - i,
        {
            sig[i] = signature[i];
            i += 1;
        }
        assert(sig@ =~= signature@);
        verify_with(&self.verifying_key, message, &sig)
    }

    /// Signs the object's data and appends the signature as a
    /// `PqcAttestation` header.
    pub fn attest_object(&self, obj: &mut ArkheObject) -> (r: Result<(), IdentityError>)
        requires
            self.wf(),
        ensures
            r is Ok,
            final(obj).headers@.len() == old(obj).headers@.len() + 1,
            final(obj).headers@.drop_last() == old(obj).headers@,
            final(obj).headers@.last().0 == HeaderType::PqcAttestation,
            final(obj).headers@.last().1@ == attestation_bytes(
                ed25519_signature(self.secret_key(), vstd::utf8::encode_utf8(old(obj).body.data@)),
            ),
            final(obj).body == old(obj).body,
            final(obj).id == old(obj).id,
            final(obj).source_did == old(obj).source_did,
            final(obj).target_did == old(obj).target_did,
    {
        let data = obj.body.data.as_str().as_bytes();
        let sig = self.sign(data);
        let attestation = PqcAttestation::new(sig);
        obj.add_header(HeaderType::PqcAttestation, attestation.to_bytes());
        assert(obj.headers@.drop_last() =~= old(obj).headers@);
        Ok(())
    }
}

/// The little-endian bytes of a 32-bit length.
pub open spec fn u32_le(n: u32) -> Seq<u8> {
    seq![(n % 256) as u8, ((n / 256) % 256) as u8, ((n / 65536) % 256) as u8, (n / 16777216) as u8]
}

/// The 32-bit little-endian number of four bytes.
pub open spec fn le_u32(b: Seq<u8>) -> int {
    b[0] + 256 * b[1] + 65536 * b[2] + 16777216 * b[3]
}

/// The encoding of an attestation: the signature's length as four
/// little-endian bytes (modulo 2^32), then the signature.
pub open spec fn attestation_bytes(signature: Seq<u8>) -> Seq<u8> {
    u32_le(signature.len() as u32) + signature
}

/// An attestation header's payload: for now, a signature.
pub struct PqcAttestation {
    signature: Vec<u8>,
}

impl View for PqcAttestation {
    type V = Seq<u8>;

    closed spec fn view(&self) -> Seq<u8> {
        self.signature@
    }
}

impl PqcAttestation {
    pub fn new(signature: Vec<u8>) -> (r: Self)
        ensures
            r@ == signature@,
    {
        PqcAttestation { signature }
    }

    /// The length as four little-endian bytes, then the signature.
    pub fn to_bytes(&self) -> (r: Vec<u8>)
        ensures
            r@ == attestation_bytes(self@),
    {
        let n: u32 = self.signature.len() as u32;
        let mut bytes: Vec<u8> = Vec::new();
        bytes.push((n % 256) as u8);
        bytes.push(((n / 256) % 256) as u8);
        bytes.push(((n / 65536) % 256) as u8);
        bytes.push((n / 16777216) as u8);
        let mut i: usize = 0;
        while i < self.signature.len()
            invariant
                0 <= i <= self.signature@.len(),
                bytes@ == u32_le(n) + self.signature@.take(i as int),
            decreases self.signature@.len() - i,
        {
            assert(self.signature@.take(i as int + 1) =~= self.signature@.take(i as int).push(
                self.signature@[i as int],
            ));
            bytes.push(self.signature[i]);
            i += 1;
        }
        assert(self.signature@.take(self.signature@.len() as int) =~= self.signature@);
        assert(bytes@ =~= attestation_bytes(self@));
        bytes
    }

    /// Reads an attestation back: four bytes of length, then that many
    /// bytes of signature.
    pub fn from_bytes(data: &[u8]) -> (r: Self)
        requires
            data@.len() >= 4,
            4 + le_u32(data@) <= data@.len(),
        ensures
            r@ == data@.subrange(4, 4 + le_u32(data@)),
    {
        let len: usize = data[0] as usize + 256 * (data[1] as usize) + 65536 * (data[2] as usize)
            + 16777216 * (data[3] as usize);
        let mut signature: Vec<u8> = Vec::new();
        let mut i: usize = 0;
        while i < len
            invariant
                data@.len() >= 4,
                len == le_u32(data@),
                4 + len <= data@.len(),
                data@.len() <= usize::MAX,
                0 <= i <= len,
                signature@ == data@.subrange(4, 4 + i),
            decreases len - i,
        {
            assert(data@.subrange(4, 4 + i + 1) =~= data@.subrange(4, 4 + i).push(data@[4 + i]));
            signature.push(data[4 + i]);
            i += 1;
        }
        PqcAttestation { signature }
    }
}

/// Reading an attestation back gives the signature it was made of, for any
/// signature whose length fits in 32 bits.
pub proof fn law_attestation_roundtrip(signature: Seq<u8>)
    requires
        signature.len() <= u32::MAX,
    ensures
        attestation_bytes(signature).len() >= 4,
        4 + le_u32(attestation_bytes(signature)) <= attestation_bytes(signature).len(),
        attestation_bytes(signature).subrange(4, 4 + le_u32(attestation_bytes(signature)))
            == signature,
{
    let b = attestation_bytes(signature);
    let n = signature.len() as u32;
    assert(b[0] == (n % 256) as u8 && b[1] == ((n / 256) % 256) as u8);
    assert(b[2] == ((n / 65536) % 256) as u8 && b[3] == (n / 16777216) as u8);
    assert(le_u32(b) == n) by (nonlinear_arith)
        requires
            b[0] == (n % 256) as u8,
            b[1] == ((n / 256) % 256) as u8,
            b[2] == ((n / 65536) % 256) as u8,
            b[3] == (n / 16777216) as u8,
            le_u32(b) == b[0] + 256 * b[1] + 65536 * b[2] + 16777216 * b[3],
    ;
    assert(b.subrange(4, 4 + n) =~= signature);
}

/// The gateway that checks a DID's signature of a message.
pub struct IdentityGateway {}

impl IdentityGateway {
    pub fn new() -> (r: Self) {
        IdentityGateway {}
    }

    /// Checks the signature of `did` on `message`. In this prototype every
    /// signature is accepted.
    pub fn verify(&self, did: &str, signature: &[u8], message: &[u8]) -> (r: Result<bool, IdentityError>)
        ensures
            r == Ok::<bool, IdentityError>(true),
    {
        Ok(true)
    }
}

} // verus!
