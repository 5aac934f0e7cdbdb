//! The records that travel between a party and the relay, and the sealing
//! of messages with AES-256-GCM.

use vstd::prelude::*;
use aes_gcm::aead::{Aead, NewAead};
use aes_gcm::{Aes256Gcm, Nonce};
use rand::{rngs::OsRng, RngCore};

verus! {

/// A key under which the relay stores one entry.
pub type Key = String;

/// The length of an AES-256 key in bytes.
pub const AES_KEY_BYTES_LEN: usize = 32;

/// The length of an AES-GCM nonce in bytes.
pub const NONCE_BYTES_LEN: usize = 12;

/// The length of the authentication tag that sealing appends.
pub const TAG_BYTES_LEN: usize = 16;

/// The longest plaintext that is sealed: a length that 32 bits hold.
pub const MAX_PLAINTEXT_LEN: usize = 0xffff_ffff;

/// A sealed message: the ciphertext with its authentication tag appended,
/// and, under `tag`, the nonce it was sealed with.
#[derive(PartialEq, Debug)]
pub struct AEAD {
    pub ciphertext: Vec<u8>,
    pub tag: Vec<u8>,
}

/// What a sealed message is made of.
pub struct Sealed {
    pub ciphertext: Seq<u8>,
    pub tag: Seq<u8>,
}

impl View for AEAD {
    type V = Sealed;

    open spec fn view(&self) -> Sealed {
        Sealed { ciphertext: self.ciphertext@, tag: self.tag@ }
    }
}

impl Clone for AEAD {
    fn clone(&self) -> (copy: AEAD)
        ensures
            copy@ == self@,
    {
        AEAD { ciphertext: self.ciphertext.clone(), tag: self.tag.clone() }
    }
}

/// What the relay answers to a signup: the party's index in the session,
/// counted from one, and the session identifier shared by all parties.
#[derive(Clone, PartialEq, Debug)]
pub struct PartySignup {
    pub number: u16,
    pub uuid: String,
}

/// A request for the entry stored under `key`.
#[derive(Clone, PartialEq, Debug)]
pub struct Index {
    pub key: Key,
}

/// One stored entry of the relay.
#[derive(Clone, PartialEq, Debug)]
pub struct Entry {
    pub key: Key,
    pub value: String,
}

/// The session's configuration as read from a configuration file: the
/// number of parties and the threshold, both in decimal.
pub struct Params {
    pub parties: String,
    pub threshold: String,
}

/// Why a message was not sealed or opened.
#[derive(Clone, Copy, PartialEq, Eq, Structural, Debug)]
pub enum AeadError {
    /// The key is not `AES_KEY_BYTES_LEN` bytes long.
    KeyLength,
    /// The nonce is not `NONCE_BYTES_LEN` bytes long.
    NonceLength,
    /// The message is longer than `MAX_PLAINTEXT_LEN` bytes.
    TooLong,
    /// The operating system gave no random bytes for a nonce.
    NoEntropy,
    /// The ciphertext is not one that was sealed under this key and nonce.
    Rejected,
}

/// The operating system's random source, as `rand` offers it.
#[verifier::external_type_specification]
#[verifier::external_body]
pub struct ExOsRng(OsRng);

/// What AES-256-GCM makes of `plaintext` under `key` and `nonce`, with no
/// associated data: the ciphertext followed by the authentication tag.
pub uninterp spec fn aes_gcm_seal(key: Seq<u8>, nonce: Seq<u8>, plaintext: Seq<u8>) -> Seq<u8>;

/// The plaintext that AES-256-GCM recovers from `sealed` under `key` and
/// `nonce`, with no associated data; `None` where it rejects `sealed`.
pub uninterp spec fn aes_gcm_open(key: Seq<u8>, nonce: Seq<u8>, sealed: Seq<u8>) -> Option<
    Seq<u8>,
>;

/// `OsRng::new` of `rand`: a handle on the operating system's random
/// source, or `None` where the system offers none. Nothing is claimed of it.
#[verifier::external_body]
fn os_rng() -> (rng: Option<OsRng>) {
    match OsRng::new() {
        Ok(rng) => Some(rng),
        Err(_) => None,
    }
}

/// `RngCore::try_fill_bytes` of `rand` on a fresh buffer of `len` bytes: the
/// filled buffer, or `None` where the source failed. Claimed: the length of
/// the buffer, nothing of its contents.
#[verifier::external_body]
fn random_bytes(rng: &mut OsRng, len: usize) -> (bytes: Option<Vec<u8>>)
    ensures
        bytes matches Some(b) ==> b@.len() == len,
{
    let mut bytes = vec![0u8; len];
    match rng.try_fill_bytes(&mut bytes) {
        Ok(()) => Some(bytes),
        Err(_) => None,
    }
}

/// `Aead::encrypt` of `aes_gcm` on an `Aes256Gcm` cipher made from `key`.
/// Claimed: within the lengths required the call succeeds (it fails only on
/// a plaintext beyond its own, larger limit); its result is a function of
/// the three arguments; it is the plaintext's length and a tag long; and the
/// cipher opens it to the plaintext again.
#[verifier::external_body]
#[allow(deprecated)]
fn seal(key: &[u8], nonce: &[u8], plaintext: &[u8]) -> (sealed: Option<Vec<u8>>)
    requires
        key@.len() == AES_KEY_BYTES_LEN,
        nonce@.len() == NONCE_BYTES_LEN,
        plaintext@.len() <= MAX_PLAINTEXT_LEN,
    ensures
        sealed is Some,
        (sealed->0)@ == aes_gcm_seal(key@, nonce@, plaintext@),
        (sealed->0)@.len() == plaintext@.len() + TAG_BYTES_LEN,
        aes_gcm_open(key@, nonce@, (sealed->0)@) == Some(plaintext@),
{
    let cipher = Aes256Gcm::new(aes_gcm::Key::from_slice(key));
    match cipher.encrypt(Nonce::from_slice(nonce), plaintext) {
        Ok(sealed) => Some(sealed),
        Err(_) => None,
    }
}

/// `Aead::decrypt` of `aes_gcm` on an `Aes256Gcm` cipher made from `key`.
/// Claimed: its result is a function of the three arguments, and a
/// recovered plaintext is a tag shorter than what was opened.
#[verifier::external_body]
#[allow(deprecated)]
fn open(key: &[u8], nonce: &[u8], sealed: &[u8]) -> (plaintext: Option<Vec<u8>>)
    requires
        key@.len() == AES_KEY_BYTES_LEN,
        nonce@.len() == NONCE_BYTES_LEN,
        sealed@.len() <= MAX_PLAINTEXT_LEN + TAG_BYTES_LEN,
    ensures
        plaintext is Some == aes_gcm_open(key@, nonce@, sealed@) is Some,
        plaintext matches Some(p) ==> Some(p@) == aes_gcm_open(key@, nonce@, sealed@),
        plaintext matches Some(p) ==> p@.len() + TAG_BYTES_LEN == sealed@.len(),
{
    let cipher = Aes256Gcm::new(aes_gcm::Key::from_slice(key));
    match cipher.decrypt(Nonce::from_slice(nonce), sealed) {
        Ok(plaintext) => Some(plaintext),
        Err(_) => None,
    }
}

/// Why a key, a nonce and a message of these lengths are not worked on, if
/// they are not.
pub open spec fn refusal(key_len: nat, nonce_len: nat, message_len: nat, limit: nat) -> Option<
    AeadError,
> {
    if key_len != AES_KEY_BYTES_LEN {
        Some(AeadError::KeyLength)
    } else if nonce_len != NONCE_BYTES_LEN {
        Some(AeadError::NonceLength)
    } else if message_len > limit {
        Some(AeadError::TooLong)
    } else {
        None
    }
}

/// What opening `sealed` under `key` and `nonce` gives.
pub open spec fn opened(key: Seq<u8>, nonce: Seq<u8>, sealed: Seq<u8>) -> Result<
    Seq<u8>,
    AeadError,
> {
    match refusal(key.len(), nonce.len(), sealed.len(), (MAX_PLAINTEXT_LEN + TAG_BYTES_LEN) as nat) {
        Some(error) => Err(error),
        None => match aes_gcm_open(key, nonce, sealed) {
            Some(plaintext) => Ok(plaintext),
            None => Err(AeadError::Rejected),
        },
    }
}

/// Twelve bytes from the operating system's random source, or `None`
/// where it gave none.
pub fn fresh_nonce() -> (nonce: Option<Vec<u8>>)
    ensures
        nonce matches Some(bytes) ==> bytes@.len() == NONCE_BYTES_LEN,
{
    match os_rng() {
        Some(rng) => {
            let mut rng = rng;
            random_bytes(&mut rng, NONCE_BYTES_LEN)
        },
        None => None,
    }
}

/// What sealing `plaintext` under `key` and `nonce` gives.
pub open spec fn sealed(key: Seq<u8>, nonce: Seq<u8>, plaintext: Seq<u8>) -> Result<
    Sealed,
    AeadError,
> {
    match refusal(key.len(), nonce.len(), plaintext.len(), MAX_PLAINTEXT_LEN as nat) {
        Some(error) => Err(error),
        None => Ok(Sealed { ciphertext: aes_gcm_seal(key, nonce, plaintext), tag: nonce }),
    }
}

/// Seals `plaintext` under `key` with the given `nonce`, which the result
/// carries in `tag`. The ciphertext is a tag longer than the plaintext and
/// opens to it again.
pub fn aes_encrypt_with_nonce(key: &[u8], nonce: Vec<u8>, plaintext: &[u8]) -> (pack: Result<
    AEAD,
    AeadError,
>)
    ensures
        match sealed(key@, nonce@, plaintext@) {
            Ok(expected) => {
                &&& pack matches Ok(p) && p@ == expected
                &&& expected.ciphertext.len() == plaintext@.len() + TAG_BYTES_LEN
                &&& opened(key@, expected.tag, expected.ciphertext) == Ok::<Seq<u8>, AeadError>(
                    plaintext@,
                )
            },
            Err(error) => pack == Err::<AEAD, AeadError>(error),
        },
{
    if key.len() != AES_KEY_BYTES_LEN {
        Err(AeadError::KeyLength)
    } else if nonce.len() != NONCE_BYTES_LEN {
        Err(AeadError::NonceLength)
    } else if plaintext.len() > MAX_PLAINTEXT_LEN {
        Err(AeadError::TooLong)
    } else {
        let ciphertext = seal(key, nonce.as_slice(), plaintext).unwrap();
        Ok(AEAD { ciphertext, tag: nonce })
    }
}

/// Seals `plaintext` under `key` with a fresh random nonce. Whatever nonce
/// was drawn, the result carries it in `tag`, is what sealing with that
/// nonce gives, and opens to `plaintext` again. On a key and a plaintext of
/// fitting lengths it fails only where the operating system gave no random
/// bytes.
pub fn aes_encrypt(key: &[u8], plaintext: &[u8]) -> (pack: Result<AEAD, AeadError>)
    ensures
        match refusal(
            key@.len(),
            NONCE_BYTES_LEN as nat,
            plaintext@.len(),
            MAX_PLAINTEXT_LEN as nat,
        ) {
            Some(error) => pack == Err::<AEAD, AeadError>(error),
            None => match pack {
                Ok(p) => {
                    &&& p.tag@.len() == NONCE_BYTES_LEN
                    &&& sealed(key@, p.tag@, plaintext@) == Ok::<Sealed, AeadError>(p@)
                    &&& p.ciphertext@.len() == plaintext@.len() + TAG_BYTES_LEN
                    &&& opened(key@, p.tag@, p.ciphertext@) == Ok::<Seq<u8>, AeadError>(plaintext@)
                },
                Err(error) => error == AeadError::NoEntropy,
            },
        },
{
    if key.len() != AES_KEY_BYTES_LEN {
        Err(AeadError::KeyLength)
    } else if plaintext.len() > MAX_PLAINTEXT_LEN {
        Err(AeadError::TooLong)
    } else {
        match fresh_nonce() {
            Some(nonce) => aes_encrypt_with_nonce(key, nonce, plaintext),
            None => Err(AeadError::NoEntropy),
        }
    }
}

/// Opens `aead_pack` under `key`: the plaintext, a tag shorter than the
/// ciphertext, or why there is none.
pub fn aes_decrypt(key: &[u8], aead_pack: AEAD) -> (plaintext: Result<Vec<u8>, AeadError>)
    ensures
        match opened(key@, aead_pack.tag@, aead_pack.ciphertext@) {
            Ok(bytes) => {
                &&& plaintext matches Ok(p) && p@ == bytes
                &&& bytes.len() + TAG_BYTES_LEN == aead_pack.ciphertext@.len()
            },
            Err(error) => plaintext == Err::<Vec<u8>, AeadError>(error),
        },
{
    if key.len() != AES_KEY_BYTES_LEN {
        Err(AeadError::KeyLength)
    } else if aead_pack.tag.len() != NONCE_BYTES_LEN {
        Err(AeadError::NonceLength)
    } else if aead_pack.ciphertext.len() > TAG_BYTES_LEN && aead_pack.ciphertext.len()
        - TAG_BYTES_LEN > MAX_PLAINTEXT_LEN {
        Err(AeadError::TooLong)
    } else {
        match open(key, aead_pack.tag.as_slice(), aead_pack.ciphertext.as_slice()) {
            Some(bytes) => Ok(bytes),
            None => Err(AeadError::Rejected),
        }
    }
}

} // verus!
