//! The cryptographic collaborators of the login handshake: the server's RSA
//! key pair, SHA-1 and the random verify token.
use vstd::prelude::*;

verus! {

#[verifier::external_type_specification]
#[verifier::external_body]
#[verifier::reject_recursive_types(T)]
pub struct ExRsa<T>(openssl::rsa::Rsa<T>);

#[verifier::external_type_specification]
#[verifier::external_body]
pub struct ExPrivate(openssl::pkey::Private);

/// What SHA-1 gives for `data`.
pub uninterp spec fn sha1_of(data: Seq<u8>) -> Seq<u8>;

/// Relies on openssl::sha::sha1: the 20-byte SHA-1 digest of `data`, a
/// function of the bytes alone.
#[verifier::external_body]
pub(crate) fn sha1_digest(data: &[u8]) -> (r: [u8; 20])
    ensures
        r@ == sha1_of(data@),
{
    openssl::sha::sha1(data)
}

/// Relies on rand's `thread_rng().gen::<[u8; 4]>()`: four random bytes.
#[verifier::external_body]
pub(crate) fn random_token() -> (r: [u8; 4]) {
    rand::Rng::gen::<[u8; 4]>(&mut rand::thread_rng())
}

/// Relies on openssl's Rsa::generate: a fresh key pair of `bits` bits, or
/// the library's error.
#[verifier::external_body]
fn rsa_generate(bits: u32) -> (r: Option<openssl::rsa::Rsa<openssl::pkey::Private>>) {
    openssl::rsa::Rsa::generate(bits).ok()
}

/// Relies on openssl's Rsa::public_key_to_der: the public half of the key
/// as DER, or the library's error.
#[verifier::external_body]
fn rsa_public_der(key: &openssl::rsa::Rsa<openssl::pkey::Private>) -> (r: Option<Vec<u8>>) {
    key.public_key_to_der().ok()
}

/// Relies on openssl's Rsa::private_decrypt with PKCS#1 v1.5 padding, into
/// a buffer as large as the key's modulus: the plaintext, which fits that
/// buffer, or the library's error. `data` is at most `i32::MAX` bytes, as
/// the call asserts.
#[verifier::external_body]
fn rsa_decrypt(key: &openssl::rsa::Rsa<openssl::pkey::Private>, data: &[u8]) -> (r: Option<
    Vec<u8>,
>)
    requires
        data@.len() <= i32::MAX,
{
    let mut plain = vec![0u8; key.size() as usize];
    match key.private_decrypt(data, &mut plain, openssl::rsa::Padding::PKCS1) {
        Ok(n) => {
            plain.truncate(n);
            Some(plain)
        },
        Err(_) => None,
    }
}

/// Size of the server's RSA modulus in bits.
pub const RSA_BITS: u32 = 1024;

/// The server's key pair, made once at startup and lent to every login.
pub struct ServerKeys {
    pub rsa: openssl::rsa::Rsa<openssl::pkey::Private>,
    pub public_der: Vec<u8>,
}

impl ServerKeys {
    /// A fresh key pair with its public half as DER; `None` where the
    /// library fails to make either.
    pub fn generate() -> (r: Option<ServerKeys>) {
        let rsa = match rsa_generate(RSA_BITS) {
            Some(k) => k,
            None => return None,
        };
        match rsa_public_der(&rsa) {
            Some(public_der) => Some(ServerKeys { rsa, public_der }),
            None => None,
        }
    }

    /// Decrypts what a client encrypted with the public key; `None` where
    /// the input is too long for the library or does not decrypt.
    pub fn decrypt(&self, data: &[u8]) -> (r: Option<Vec<u8>>)
        ensures
            data@.len() > i32::MAX ==> r is None,
    {
        if data.len() > i32::MAX as usize {
            return None;
        }
        rsa_decrypt(&self.rsa, data)
    }
}

} // verus!
