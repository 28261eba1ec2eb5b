//! Spending identities derived from secrets.
use vstd::prelude::*;
use ark_crypto_primitives::crh::sha256::Sha256;
use ark_crypto_primitives::crh::CRHScheme;
use crate::text::{hex_of, hex_string, lemma_hex_of_injective};

verus! {

/// The SHA-256 digest of the UTF-8 encoding of a text.
pub uninterp spec fn sha256_of_utf8(s: Seq<char>) -> Seq<u8>;

/// Relies on `<Sha256 as CRHScheme>::evaluate` of ark-crypto-primitives: it
/// returns the 32-byte SHA-256 digest of its input and never fails.
#[verifier::external_body]
fn sha256_digest(s: &str) -> (r: Vec<u8>)
    ensures
        r@ == sha256_of_utf8(s@),
        r@.len() == 32,
{
    match <Sha256 as CRHScheme>::evaluate(&(), s.as_bytes()) {
        Ok(d) => d,
        Err(_) => Vec::new(),
    }
}

/// The public identity that a secret commits to: the hexadecimal text of the
/// SHA-256 digest of the secret.
pub open spec fn public_of(secret: Seq<char>) -> Seq<char> {
    hex_of(sha256_of_utf8(secret))
}

/// Derivation is deterministic, and the text encoding of the digest loses
/// nothing: two secrets share a public identity only when their SHA-256
/// digests are equal. That distinct secrets have distinct digests is the
/// collision resistance of SHA-256, which is assumed of the hash and not
/// proved here.
pub proof fn lemma_public_identity_of_secret(s1: Seq<char>, s2: Seq<char>)
    ensures
        s1 == s2 ==> public_of(s1) == public_of(s2),
        public_of(s1) == public_of(s2) ==> sha256_of_utf8(s1) == sha256_of_utf8(s2),
{
    if public_of(s1) == public_of(s2) {
        lemma_hex_of_injective(sha256_of_utf8(s1), sha256_of_utf8(s2));
    }
}

/// A spending identity: a secret and the public identity derived from it.
pub struct Address {
    public_key: String,
    secret_key: String,
}

/// The public identity and the secret of an address.
pub struct AddressView {
    pub public_key: Seq<char>,
    pub secret_key: Seq<char>,
}

impl View for Address {
    type V = AddressView;

    closed spec fn view(&self) -> AddressView {
        AddressView { public_key: self.public_key@, secret_key: self.secret_key@ }
    }
}

impl Address {
    /// Derives the identity of `secret_key` by a one-way commitment.
    pub fn new(secret_key: String) -> (r: Address)
        ensures
            r@.secret_key == secret_key@,
            r@.public_key == public_of(secret_key@),
    {
        let digest = sha256_digest(secret_key.as_str());
        let public_key = hex_string(&digest);
        Address { public_key, secret_key }
    }

    pub fn public_key(&self) -> (r: String)
        ensures
            r@ == self@.public_key,
    {
        self.public_key.clone()
    }

    pub fn secret_key(&self) -> (r: String)
        ensures
            r@ == self@.secret_key,
    {
        self.secret_key.clone()
    }
}

} // verus!
