//! AES-256-GCM with a key drawn from a password by PBKDF2-HMAC-SHA256.
use vstd::prelude::*;

use aes_gcm::aead::{Aead, OsRng};
use aes_gcm::{AeadCore, Aes256Gcm, Key, KeyInit, Nonce};
use rand::RngCore;
use sha2::{Digest, Sha256};

use crate::error::Error;
use vstd::string::StringSliceAdditionalSpecFns;

verus! {

/// Bytes of salt at the head of encrypted data.
pub const SALT_LENGTH: usize = 20;

/// Bytes of nonce at the head of encrypted data, after the salt.
pub const NONCE_LENGTH: usize = 12;

/// PBKDF2 rounds that draw a key from a password.
pub const PBKDF2_ROUNDS: u32 = 600000;

/// Longest plaintext that AES-GCM seals (`aes_gcm::P_MAX`).
pub const P_MAX: u64 = 68719476736;

/// The 32-byte key that `pbkdf2_hmac_array::<Sha256, 32>` draws from a
/// password and a salt in `rounds` rounds.
pub uninterp spec fn pbkdf2_sha256(password: Seq<u8>, salt: Seq<u8>, rounds: u32) -> Seq<u8>;

/// What `Aes256Gcm::encrypt` makes of `plain` with this key and nonce.
pub uninterp spec fn aes256gcm_seal(key: Seq<u8>, nonce: Seq<u8>, plain: Seq<u8>) -> Seq<u8>;

/// What `Aes256Gcm::decrypt` makes of `sealed` with this key and nonce:
/// the plaintext, or nothing when the data does not authenticate.
pub uninterp spec fn aes256gcm_open(key: Seq<u8>, nonce: Seq<u8>, sealed: Seq<u8>) -> Option<Seq<u8>>;

/// The SHA-256 digest of the data (`Sha256::digest`).
pub uninterp spec fn sha256_digest(data: Seq<u8>) -> Seq<u8>;

/// `pbkdf2::pbkdf2_hmac_array::<Sha256, 32>`: a 32-byte key, a function of
/// password, salt and rounds.
#[verifier::external_body]
fn derive_key(password: &[u8], salt: &[u8], rounds: u32) -> (r: Vec<u8>)
    ensures
        r@ == pbkdf2_sha256(password@, salt@, rounds),
        r@.len() == 32,
{
    pbkdf2::pbkdf2_hmac_array::<Sha256, 32>(password, salt, rounds).to_vec()
}

/// `Aes256Gcm::encrypt`: it fails only on a plaintext longer than `P_MAX`,
/// what it makes is 16 bytes longer than the plaintext, and
/// `Aes256Gcm::decrypt` with the same key and nonce gives the plaintext back.
#[verifier::external_body]
fn seal(key: &[u8], nonce: &[u8], plain: &[u8]) -> (r: Option<Vec<u8>>)
    requires
        key@.len() == 32,
        nonce@.len() == NONCE_LENGTH,
    ensures
        r is Some <==> plain@.len() <= P_MAX,
        r matches Some(c) ==> c@ == aes256gcm_seal(key@, nonce@, plain@) && c@.len() == plain@.len() + 16,
        r matches Some(c) ==> aes256gcm_open(key@, nonce@, c@) == Some(plain@),
{
    let cipher = Aes256Gcm::new(Key::<Aes256Gcm>::from_slice(key));
    cipher.encrypt(Nonce::from_slice(nonce), plain).ok()
}

/// `Aes256Gcm::decrypt`: the plaintext when the data authenticates under
/// this key and nonce; what was sealed with the same key and nonce opens to
/// what was sealed.
#[verifier::external_body]
fn open(key: &[u8], nonce: &[u8], sealed: &[u8]) -> (r: Option<Vec<u8>>)
    requires
        key@.len() == 32,
        nonce@.len() == NONCE_LENGTH,
    ensures
        match aes256gcm_open(key@, nonce@, sealed@) {
            Some(p) => r matches Some(x) && x@ == p,
            None => r is None,
        },
        forall|p: Seq<u8>| p.len() <= P_MAX && sealed@ == #[trigger] aes256gcm_seal(key@, nonce@, p)
            ==> r is Some && r.unwrap()@ == p,
{
    let cipher = Aes256Gcm::new(Key::<Aes256Gcm>::from_slice(key));
    cipher.decrypt(Nonce::from_slice(nonce), sealed).ok()
}

/// A fresh random salt (`rand::rng().fill_bytes`).
#[verifier::external_body]
fn random_salt() -> (r: Vec<u8>)
    ensures
        r@.len() == SALT_LENGTH,
{
    let mut salt = [0u8; 20];
    rand::rng().fill_bytes(&mut salt);
    salt.to_vec()
}

/// A fresh random nonce (`Aes256Gcm::generate_nonce` with the system's random source).
#[verifier::external_body]
fn random_nonce() -> (r: Vec<u8>)
    ensures
        r@.len() == NONCE_LENGTH,
{
    Aes256Gcm::generate_nonce(&mut OsRng).to_vec()
}

/// `Sha256::digest`: 32 bytes, a function of the data.
#[verifier::external_body]
pub(crate) fn sha256(data: &[u8]) -> (r: Vec<u8>)
    ensures
        r@ == sha256_digest(data@),
        r@.len() == 32,
{
    Sha256::digest(data).to_vec()
}

/// A key with the salt and nonce it is used with.
pub struct AesCipher {
    pub key: Vec<u8>,
    pub salt_data: Vec<u8>,
    pub nonce_data: Vec<u8>,
}

impl AesCipher {
    /// The key bytes.
    pub open spec fn key(&self) -> Seq<u8> {
        self.key@
    }

    /// The key is 32 bytes, the salt and the nonce have their lengths.
    pub open spec fn wf(&self) -> bool {
        &&& self.key@.len() == 32
        &&& self.salt_data@.len() == SALT_LENGTH
        &&& self.nonce_data@.len() == NONCE_LENGTH
    }

    /// A cipher for `password` with a fresh salt and nonce, its key drawn in
    /// `rounds` rounds.
    pub fn new(password: &str, rounds: u32) -> (r: AesCipher)
        ensures
            r.wf(),
            r.key() == pbkdf2_sha256(password.spec_bytes(), r.salt_data@, rounds),
    {
        let salt = random_salt();
        let nonce = random_nonce();
        let key = derive_key(password.as_bytes(), salt.as_slice(), rounds);
        AesCipher { key, salt_data: salt, nonce_data: nonce }
    }

    /// The cipher that the head of encrypted data (salt, then nonce) gives
    /// with `password`.
    pub fn read(head: &[u8], password: &str, rounds: u32) -> (r: Result<AesCipher, Error>)
        ensures
            head@.len() != SALT_LENGTH + NONCE_LENGTH ==> r == Err::<AesCipher, Error>(Error::InvalidSecretHead),
            head@.len() == SALT_LENGTH + NONCE_LENGTH ==> (r matches Ok(c) && c.wf()
                && c.salt_data@ == head@.subrange(0, SALT_LENGTH as int)
                && c.nonce_data@ == head@.subrange(SALT_LENGTH as int, head@.len() as int)
                && c.key() == pbkdf2_sha256(password.spec_bytes(), c.salt_data@, rounds)),
    {
        if head.len() != SALT_LENGTH + NONCE_LENGTH {
            return Err(Error::InvalidSecretHead);
        }
        let salt = slice_to_vec(head, 0, SALT_LENGTH);
        let nonce = slice_to_vec(head, SALT_LENGTH, head.len());
        let key = derive_key(password.as_bytes(), salt.as_slice(), rounds);
        Ok(AesCipher { key, salt_data: salt, nonce_data: nonce })
    }

    /// The head that encrypted data starts with: salt, then nonce.
    pub fn head(&self) -> (r: Vec<u8>)
        requires
            self.wf(),
        ensures
            r@ == self.salt_data@ + self.nonce_data@,
            r@.len() == SALT_LENGTH + NONCE_LENGTH,
    {
        let mut r = slice_to_vec(self.salt_data.as_slice(), 0, self.salt_data.len());
        let mut i: usize = 0;
        let ghost s = r@;
        assert(s =~= self.salt_data@);
        while i < self.nonce_data.len()
            invariant
                i <= self.nonce_data@.len(),
                r@ == s + self.nonce_data@.take(i as int),
            decreases self.nonce_data.len() - i,
        {
            r.push(self.nonce_data[i]);
            i += 1;
            assert(r@ =~= s + self.nonce_data@.take(i as int));
        }
        assert(self.nonce_data@.take(self.nonce_data@.len() as int) =~= self.nonce_data@);
        r
    }

    /// The plaintext sealed with the key and nonce.
    pub fn encrypt(&self, plain: &[u8]) -> (r: Result<Vec<u8>, Error>)
        requires
            self.wf(),
        ensures
            plain@.len() <= P_MAX ==> (r matches Ok(c) && c@ == aes256gcm_seal(self.key(), self.nonce_data@, plain@)
                && c@.len() == plain@.len() + 16
                && aes256gcm_open(self.key(), self.nonce_data@, c@) == Some(plain@)),
            plain@.len() > P_MAX ==> r == Err::<Vec<u8>, Error>(Error::EncryptFailed),
    {
        match seal(self.key.as_slice(), self.nonce_data.as_slice(), plain) {
            Some(c) => Ok(c),
            None => Err(Error::EncryptFailed),
        }
    }

    /// The data opened with the key and nonce; what this cipher sealed opens
    /// to what was sealed.
    pub fn decrypt(&self, sealed: &[u8]) -> (r: Result<Vec<u8>, Error>)
        requires
            self.wf(),
        ensures
            match aes256gcm_open(self.key(), self.nonce_data@, sealed@) {
                Some(p) => r matches Ok(x) && x@ == p,
                None => r == Err::<Vec<u8>, Error>(Error::DecryptFailed),
            },
            forall|p: Seq<u8>| p.len() <= P_MAX && sealed@ == #[trigger] aes256gcm_seal(self.key(), self.nonce_data@, p)
                ==> (r matches Ok(x) && x@ == p),
    {
        match open(self.key.as_slice(), self.nonce_data.as_slice(), sealed) {
            Some(p) => Ok(p),
            None => Err(Error::DecryptFailed),
        }
    }
}

/// The bytes `s[lo..hi]`.
pub fn slice_to_vec(s: &[u8], lo: usize, hi: usize) -> (r: Vec<u8>)
    requires
        lo <= hi <= s@.len(),
    ensures
        r@ == s@.subrange(lo as int, hi as int),
{
    let mut r: Vec<u8> = Vec::new();
    let mut i = lo;
    while i < hi
        invariant
            lo <= i <= hi <= s@.len(),
            r@ == s@.subrange(lo as int, i as int),
        decreases hi - i,
    {
        r.push(s[i]);
        i += 1;
        assert(r@ =~= s@.subrange(lo as int, i as int));
    }
    r
}

} // verus!
