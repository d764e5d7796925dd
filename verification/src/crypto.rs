//! Message cryptography: per-round key and dead drop derivation, AES-256-GCM
//! encryption with round nonces, and length-prefixed padding to `MESSAGE_SIZE`.
use crate::bytes::{append_bytes, copy_range, u64_le, u64_to_le_bytes, zeros};
use crate::primitives::{
    aes_256_gcm_open, aes_256_gcm_opened, aes_256_gcm_seal, aes_256_gcm_sealed, sha256,
    sha256_digest, SEAL_LIMIT, TAG_LEN,
};
use crate::types::{EncryptedMessage, SharedSecret, MESSAGE_SIZE};
use vstd::prelude::*;

verus! {

/// Errors that can occur during cryptographic operations.
#[derive(Clone, Copy, Debug, PartialEq, Eq)]
pub enum CryptoError {
    EncryptionFailed,
    DecryptionFailed,
    InvalidLength,
}

impl CryptoError {
    /// The error's message.
    pub fn message(&self) -> (r: String)
        ensures
            r@ == crypto_error_text(*self),
    {
        match self {
            CryptoError::EncryptionFailed => "encryption failed".to_string(),
            CryptoError::DecryptionFailed => "decryption failed".to_string(),
            CryptoError::InvalidLength => "invalid ciphertext length".to_string(),
        }
    }
}

/// The message text of each crypto error.
pub open spec fn crypto_error_text(e: CryptoError) -> Seq<char> {
    match e {
        CryptoError::EncryptionFailed => "encryption failed"@,
        CryptoError::DecryptionFailed => "decryption failed"@,
        CryptoError::InvalidLength => "invalid ciphertext length"@,
    }
}

/// The ASCII bytes of `dead_drop`.
pub open spec fn dead_drop_label() -> Seq<u8> {
    seq![100u8, 101u8, 97u8, 100u8, 95u8, 100u8, 114u8, 111u8, 112u8]
}

/// The symmetric key of a round: SHA-256 of the secret and the round's
/// little-endian bytes.
pub open spec fn round_key(secret: Seq<u8>, round: u64) -> Seq<u8> {
    sha256_digest(secret + u64_le(round))
}

/// The dead drop of a round: the first 16 bytes of SHA-256 of the secret, the
/// round's little-endian bytes and `dead_drop`.
pub open spec fn round_dead_drop(secret: Seq<u8>, round: u64) -> Seq<u8> {
    sha256_digest(secret + u64_le(round) + dead_drop_label()).take(16)
}

/// The 96-bit nonce of a round: its eight little-endian bytes, then `0 0 0 1`.
pub open spec fn round_nonce(round: u64) -> Seq<u8> {
    u64_le(round) + seq![0u8, 0u8, 0u8, 1u8]
}

/// The longest message that fits a padded payload.
pub open spec fn max_payload() -> nat {
    (MESSAGE_SIZE - 2) as nat
}

/// How many bytes of `m` padding keeps.
pub open spec fn kept_len(m: Seq<u8>) -> nat {
    if m.len() <= max_payload() {
        m.len()
    } else {
        max_payload()
    }
}

/// `m` padded to `MESSAGE_SIZE`: a two-byte little-endian length, the first
/// `kept_len(m)` bytes of `m`, then zeros.
pub open spec fn padded(m: Seq<u8>) -> Seq<u8> {
    let l = kept_len(m);
    seq![(l % 256) as u8, (l / 256) as u8] + m.take(l as int) + zeros((max_payload() - l) as nat)
}

/// What `unpad_message` makes of `d`: the length-prefixed body where the prefix
/// fits, otherwise `d` itself.
pub open spec fn unpadded(d: Seq<u8>) -> Seq<u8> {
    if d.len() < 2 {
        d
    } else {
        let l = d[0] as int + 256 * (d[1] as int);
        if l > d.len() - 2 {
            d
        } else {
            d.subrange(2, 2 + l)
        }
    }
}

/// The bytes of the encrypted form of `plaintext` in a round.
pub open spec fn encrypted_form(secret: Seq<u8>, round: u64, plaintext: Seq<u8>) -> Seq<u8> {
    aes_256_gcm_sealed(round_key(secret, round), round_nonce(round), padded(plaintext))
}

/// What `decrypt` makes of `ciphertext` under `key` in `round`.
pub open spec fn decrypted(key: Seq<u8>, round: u64, ciphertext: Seq<u8>) -> Result<Seq<u8>, CryptoError> {
    if ciphertext.len() < TAG_LEN {
        Err(CryptoError::InvalidLength)
    } else {
        match aes_256_gcm_opened(key, round_nonce(round), ciphertext) {
            Some(p) => Ok(p),
            None => Err(CryptoError::DecryptionFailed),
        }
    }
}

/// What `decrypt_message` makes of a message in a round.
pub open spec fn decrypted_message(secret: Seq<u8>, round: u64, data: Seq<u8>) -> Result<Seq<u8>, CryptoError> {
    match decrypted(round_key(secret, round), round, data) {
        Ok(p) => Ok(unpadded(p)),
        Err(e) => Err(e),
    }
}

fn dead_drop_label_bytes() -> (r: Vec<u8>)
    ensures
        r@ == dead_drop_label(),
{
    let r: Vec<u8> = vec![100u8, 101u8, 97u8, 100u8, 95u8, 100u8, 114u8, 111u8, 112u8];
    assert(r@ =~= dead_drop_label());
    r
}

/// Derive a symmetric encryption key from a shared secret and round number.
/// Uses SHA-256 to produce a 256-bit key.
pub fn derive_key(secret: &SharedSecret, round: u64) -> (r: [u8; 32])
    ensures
        r@ == round_key(secret@, round),
{
    let mut input: Vec<u8> = Vec::new();
    append_bytes(&mut input, secret.as_bytes());
    let round_bytes = u64_to_le_bytes(round);
    append_bytes(&mut input, round_bytes.as_slice());
    sha256(input.as_slice())
}

/// Derive a dead drop ID from a shared secret and round number.
/// Uses SHA-256 and takes the first 16 bytes.
pub fn derive_dead_drop_id(secret: &SharedSecret, round: u64) -> (r: [u8; 16])
    ensures
        r@ == round_dead_drop(secret@, round),
{
    let mut input: Vec<u8> = Vec::new();
    append_bytes(&mut input, secret.as_bytes());
    let round_bytes = u64_to_le_bytes(round);
    append_bytes(&mut input, round_bytes.as_slice());
    let label = dead_drop_label_bytes();
    append_bytes(&mut input, label.as_slice());
    let digest = sha256(input.as_slice());
    let r = crate::bytes::array16_from(&digest, 0);
    assert(r@ =~= round_dead_drop(secret@, round));
    r
}

/// Build a 96-bit nonce from a round number.
fn make_nonce(round: u64) -> (r: [u8; 12])
    ensures
        r@ == round_nonce(round),
{
    let round_bytes = u64_to_le_bytes(round);
    let mut nonce: [u8; 12] = [0u8; 12];
    let mut i: usize = 0;
    while i < 8
        invariant
            i <= 8,
            round_bytes@ == u64_le(round),
            round_bytes@.len() == 8,
            nonce@.len() == 12,
            forall|j: int| 0 <= j < i ==> nonce@[j] == round_bytes@[j],
            forall|j: int| i <= j < 12 ==> nonce@[j] == 0,
        decreases 8 - i,
    {
        nonce[i] = round_bytes[i];
        i = i + 1;
    }
    nonce[11] = 1u8;
    assert(nonce@ =~= round_nonce(round));
    nonce
}

/// Encrypt a plaintext message using AES-256-GCM with the given key.
/// The nonce is derived from the round number.
/// Returns the ciphertext with the 16-byte authentication tag appended.
pub fn encrypt(key: &[u8; 32], round: u64, plaintext: &[u8]) -> (r: Result<Vec<u8>, CryptoError>)
    ensures
        match r {
            Ok(c) => c@ == aes_256_gcm_sealed(key@, round_nonce(round), plaintext@) && c@.len()
                == plaintext@.len() + TAG_LEN,
            Err(e) => e == CryptoError::EncryptionFailed && plaintext@.len() > SEAL_LIMIT,
        },
{
    let nonce = make_nonce(round);
    match aes_256_gcm_seal(key, &nonce, plaintext) {
        Ok(c) => Ok(c),
        Err(_) => Err(CryptoError::EncryptionFailed),
    }
}

/// Decrypt a ciphertext using AES-256-GCM.
/// The nonce is derived from the round number.
pub fn decrypt(key: &[u8; 32], round: u64, ciphertext: &[u8]) -> (r: Result<Vec<u8>, CryptoError>)
    ensures
        match r {
            Ok(p) => decrypted(key@, round, ciphertext@) == Ok::<Seq<u8>, CryptoError>(p@),
            Err(e) => decrypted(key@, round, ciphertext@) == Err::<Seq<u8>, CryptoError>(e),
        },
        forall|p: Seq<u8>|
            p.len() <= SEAL_LIMIT && ciphertext@ == #[trigger] aes_256_gcm_sealed(key@, round_nonce(round), p)
                && ciphertext@.len() >= TAG_LEN ==> (r matches Ok(q) && q@ == p),
{
    if ciphertext.len() < TAG_LEN {
        return Err(CryptoError::InvalidLength);
    }
    let nonce = make_nonce(round);
    match aes_256_gcm_open(key, &nonce, ciphertext) {
        Ok(p) => Ok(p),
        Err(_) => Err(CryptoError::DecryptionFailed),
    }
}

/// Pad a message to MESSAGE_SIZE bytes.
/// Uses a simple length-prefixed scheme: first 2 bytes are the message length
/// (little-endian u16), followed by the message, followed by zeros.
/// Messages longer than `MESSAGE_SIZE - 2` bytes are cut to that length.
pub fn pad_message(msg: &[u8]) -> (r: Vec<u8>)
    ensures
        r@ == padded(msg@),
        r@.len() == MESSAGE_SIZE,
{
    let len: usize = if msg.len() < MESSAGE_SIZE - 2 {
        msg.len()
    } else {
        MESSAGE_SIZE - 2
    };
    let mut result: Vec<u8> = Vec::new();
    result.push((len % 256) as u8);
    result.push(((len / 256) % 256) as u8);
    let body = copy_range(msg, 0, len);
    append_bytes(&mut result, body.as_slice());
    let mut i: usize = len;
    while i < MESSAGE_SIZE - 2
        invariant
            len <= i <= MESSAGE_SIZE - 2,
            result@ == seq![(len % 256) as u8, (len / 256) as u8] + msg@.take(len as int) + zeros(
                (i - len) as nat,
            ),
        decreases MESSAGE_SIZE - 2 - i,
    {
        result.push(0u8);
        proof {
            assert(zeros((i - len) as nat).push(0u8) =~= zeros((i + 1 - len) as nat));
        }
        i = i + 1;
    }
    assert(result@ =~= padded(msg@));
    result
}

/// Remove length-padded message.
pub fn unpad_message(data: &[u8]) -> (r: Vec<u8>)
    ensures
        r@ == unpadded(data@),
{
    if data.len() < 2 {
        return copy_range(data, 0, data.len());
    }
    let len: usize = (data[0] as usize) + (data[1] as usize) * 256;
    if len > data.len() - 2 {
        return copy_range(data, 0, data.len());
    }
    copy_range(data, 2, 2 + len)
}

/// Padding then removing the padding gives back the message, cut to the
/// `MESSAGE_SIZE - 2` bytes a padded payload holds.
pub proof fn lemma_unpad_pad(m: Seq<u8>)
    ensures
        padded(m).len() == MESSAGE_SIZE,
        unpadded(padded(m)) == m.take(kept_len(m) as int),
{
    let d = padded(m);
    let l = kept_len(m);
    assert(d.len() == MESSAGE_SIZE);
    assert(d[0] as int + 256 * (d[1] as int) == l);
    assert(d.subrange(2, 2 + l as int) =~= m.take(l as int));
}

/// Encrypt a message for placement in a dead drop.
pub fn encrypt_message(secret: &SharedSecret, round: u64, plaintext: &[u8]) -> (r: Result<
    EncryptedMessage,
    CryptoError,
>)
    ensures
        r matches Ok(m) && m@ == encrypted_form(secret@, round, plaintext@) && m@.len()
            == MESSAGE_SIZE + TAG_LEN,
{
    let key = derive_key(secret, round);
    let padded_msg = pad_message(plaintext);
    let data = encrypt(&key, round, padded_msg.as_slice())?;
    Ok(EncryptedMessage { data })
}

/// Decrypt a message from a dead drop.
pub fn decrypt_message(secret: &SharedSecret, round: u64, msg: &EncryptedMessage) -> (r: Result<
    Vec<u8>,
    CryptoError,
>)
    ensures
        match r {
            Ok(p) => decrypted_message(secret@, round, msg@) == Ok::<Seq<u8>, CryptoError>(p@),
            Err(e) => decrypted_message(secret@, round, msg@) == Err::<Seq<u8>, CryptoError>(e),
        },
        forall|p: Seq<u8>|
            msg@ == #[trigger] encrypted_form(secret@, round, p) && msg@.len() >= TAG_LEN ==> (r matches Ok(
                q,
            ) && q@ == p.take(kept_len(p) as int)),
{
    let key = derive_key(secret, round);
    let padded_msg = decrypt(&key, round, msg.data.as_slice())?;
    proof {
        assert forall|p: Seq<u8>|
            msg@ == #[trigger] encrypted_form(secret@, round, p) && msg@.len()
                >= TAG_LEN implies unpadded(padded_msg@) == p.take(kept_len(p) as int) by {
            lemma_unpad_pad(p);
        }
    }
    Ok(unpad_message(padded_msg.as_slice()))
}

} // verus!
