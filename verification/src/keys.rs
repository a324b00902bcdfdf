use vstd::prelude::*;

verus! {

/// Length in bytes of the voice channel's AES key and of each of its two
/// nonces.
pub const CRYPT_BLOCK_LEN: usize = 16;

/// The key material that the server hands out in its `CryptSetup` message:
/// the shared key, the nonce the client encrypts with and the nonce it
/// decrypts with.
#[derive(Clone, Debug, PartialEq, Eq)]
pub struct Keys {
    key: Vec<u8>,
    encrypt_nonce: Vec<u8>,
    decrypt_nonce: Vec<u8>,
}

/// The key material does not have the sizes the voice cipher needs.
#[derive(Clone, Copy, Debug, PartialEq, Eq, Structural)]
pub enum KeyFormatError {
    InvalidKeyFormat,
}

impl View for Keys {
    /// (key, encrypt nonce, decrypt nonce)
    type V = (Seq<u8>, Seq<u8>, Seq<u8>);

    closed spec fn view(&self) -> (Seq<u8>, Seq<u8>, Seq<u8>) {
        (self.key@, self.encrypt_nonce@, self.decrypt_nonce@)
    }
}

/// A byte sequence that can serve as key or nonce of the voice cipher.
pub open spec fn is_block(s: Seq<u8>) -> bool {
    s.len() == CRYPT_BLOCK_LEN
}

/// Key material is usable when key and both nonces have the block length.
pub open spec fn keys_usable(k: (Seq<u8>, Seq<u8>, Seq<u8>)) -> bool {
    is_block(k.0) && is_block(k.1) && is_block(k.2)
}

/// Key material is usable exactly when key and both nonces are 16 bytes
/// long, whatever bytes they hold.
pub proof fn lemma_usable_by_length(k: (Seq<u8>, Seq<u8>, Seq<u8>))
    ensures
        forall|s: Seq<u8>| #[trigger] is_block(s) <==> s.len() == 16,
        keys_usable(k) <==> (k.0.len() == 16 && k.1.len() == 16 && k.2.len() == 16),
{
}

/// Copies a byte vector into a block-sized array, if its length allows.
fn to_block(v: &Vec<u8>) -> (r: Option<[u8; 16]>)
    ensures
        r is Some <==> is_block(v@),
        r matches Some(a) ==> a@ == v@,
{
    if v.len() != CRYPT_BLOCK_LEN {
        return None;
    }
    let mut a: [u8; 16] = [0u8; 16];
    let mut i: usize = 0;
    while i < CRYPT_BLOCK_LEN
        invariant
            v@.len() == 16,
            i <= 16,
            forall|j: int| 0 <= j < i ==> a@[j] == v@[j],
        decreases 16 - i,
    {
        a[i] = v[i];
        i = i + 1;
    }
    assert(a@ =~= v@);
    Some(a)
}

impl Keys {
    /// Key material as received in a `CryptSetup` message: its key, its
    /// client nonce (which the client encrypts with) and its server nonce
    /// (which the client decrypts with).
    pub fn new(key: Vec<u8>, client_nonce: Vec<u8>, server_nonce: Vec<u8>) -> (k: Keys)
        ensures
            k@ == (key@, client_nonce@, server_nonce@),
    {
        Keys { key, encrypt_nonce: client_nonce, decrypt_nonce: server_nonce }
    }

    /// A copy with the same key material.
    pub(crate) fn duplicate(&self) -> (k: Keys)
        ensures
            k@ == self@,
    {
        Keys {
            key: self.key.clone(),
            encrypt_nonce: self.encrypt_nonce.clone(),
            decrypt_nonce: self.decrypt_nonce.clone(),
        }
    }

    /// The key, encrypt nonce and decrypt nonce as the fixed-size arrays
    /// that the voice cipher is built from; fails unless all three have
    /// the block length.
    pub fn try_into(self) -> (r: Result<([u8; 16], [u8; 16], [u8; 16]), KeyFormatError>)
        ensures
            r is Ok <==> keys_usable(self@),
            r matches Ok(t) ==> (t.0@, t.1@, t.2@) == self@,
            r matches Err(e) ==> e == KeyFormatError::InvalidKeyFormat,
    {
        let key = match to_block(&self.key) {
            Some(a) => a,
            None => return Err(KeyFormatError::InvalidKeyFormat),
        };
        let encrypt_nonce = match to_block(&self.encrypt_nonce) {
            Some(a) => a,
            None => return Err(KeyFormatError::InvalidKeyFormat),
        };
        let decrypt_nonce = match to_block(&self.decrypt_nonce) {
            Some(a) => a,
            None => return Err(KeyFormatError::InvalidKeyFormat),
        };
        Ok((key, encrypt_nonce, decrypt_nonce))
    }
}

} // verus!
