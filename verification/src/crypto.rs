//! Authenticated encryption with AES256-CTR and Poly1305-AES, and hashing with
//! SHA-256. The primitives are those of the crates `aes256ctr_poly1305aes` and
//! `sha2`; what this module assumes of them is stated at the functions that
//! call them.

use crate::error::Error;
use crate::id::Id;
use aes256ctr_poly1305aes::aead::generic_array::GenericArray;
use aes256ctr_poly1305aes::aead::Aead;
use aes256ctr_poly1305aes::aead::NewAead;
use aes256ctr_poly1305aes::Aes256CtrPoly1305Aes;
use rand::RngCore;
use sha2::Digest;
use vstd::prelude::*;
use vstd::slice::slice_subrange;
use vstd::slice::slice_to_vec;

verus! {

/// What AES256-CTR with Poly1305-AES makes of `plain` under `key` and `nonce`:
/// the encrypted bytes followed by the tag.
pub uninterp spec fn aead_seal(key: Seq<u8>, nonce: Seq<u8>, plain: Seq<u8>) -> Seq<u8>;

/// The plaintext that AES256-CTR with Poly1305-AES recovers from `sealed` under
/// `key` and `nonce`, or `None` where the tag does not authenticate it.
pub uninterp spec fn aead_open(key: Seq<u8>, nonce: Seq<u8>, sealed: Seq<u8>) -> Option<Seq<u8>>;

/// The SHA-256 digest of `data`.
pub uninterp spec fn sha256(data: Seq<u8>) -> Seq<u8>;

/// The bytes that a SHA-256 state has absorbed since it was created.
pub uninterp spec fn sha256_absorbed(state: Sha256State) -> Seq<u8>;

/// A running SHA-256 computation: a `Sha256` of the `sha2` crate. Nothing is
/// known of what is inside but through `sha256_absorbed`.
#[verifier::external_body]
pub struct Sha256State {
    inner: sha2::Sha256,
}

/// `Aead::encrypt` of `Aes256CtrPoly1305Aes`, without associated data. The
/// cipher refuses only associated data, so the call succeeds; the result is the
/// plaintext encrypted in place followed by the 16-byte tag, a function of
/// the three arguments, and `Aead::decrypt` recovers the plaintext from it.
#[verifier::external_body]
fn seal(key: &[u8; 64], nonce: &[u8; 16], plain: &[u8]) -> (sealed: Option<Vec<u8>>)
    ensures
        sealed is Some,
        sealed->0@ == aead_seal(key@, nonce@, plain@),
        sealed->0@.len() == plain@.len() + 16,
        aead_open(key@, nonce@, sealed->0@) == Some(plain@),
{
    let cipher = Aes256CtrPoly1305Aes::new(GenericArray::from_slice(key));
    cipher.encrypt(GenericArray::from_slice(nonce), plain).ok()
}

/// `Aead::decrypt` of `Aes256CtrPoly1305Aes`, without associated data: the
/// plaintext where the trailing tag authenticates the rest, else `None`.
#[verifier::external_body]
fn open(key: &[u8; 64], nonce: &[u8; 16], sealed: &[u8]) -> (plain: Option<Vec<u8>>)
    ensures
        plain is Some <==> aead_open(key@, nonce@, sealed@) is Some,
        plain is Some ==> plain->0@ == aead_open(key@, nonce@, sealed@)->0,
{
    let cipher = Aes256CtrPoly1305Aes::new(GenericArray::from_slice(key));
    cipher.decrypt(GenericArray::from_slice(nonce), sealed).ok()
}

/// `RngCore::fill_bytes` of `rand::thread_rng()` on 16 bytes: nothing is known
/// of the bytes that come back.
#[verifier::external_body]
fn random_nonce() -> (nonce: [u8; 16]) {
    let mut nonce = [0u8; 16];
    rand::thread_rng().fill_bytes(&mut nonce);
    nonce
}

/// `Sha256::new`: a state that has absorbed nothing.
#[verifier::external_body]
fn sha256_new() -> (state: Sha256State)
    ensures
        sha256_absorbed(state) == Seq::<u8>::empty(),
{
    Sha256State { inner: sha2::Sha256::new() }
}

/// `Digest::update`: the state absorbs `data` after what it had absorbed.
#[verifier::external_body]
fn sha256_update(state: &mut Sha256State, data: &[u8])
    ensures
        sha256_absorbed(*final(state)) == sha256_absorbed(*old(state)) + data@,
{
    state.inner.update(data);
}

/// `Digest::finalize` on a copy of the state: the digest of the bytes absorbed so far.
#[verifier::external_body]
fn sha256_digest(state: &Sha256State) -> (digest: [u8; 32])
    ensures
        digest@ == sha256(sha256_absorbed(*state)),
{
    state.inner.clone().finalize().into()
}

/// The plaintext that a key with the bytes `key` recovers from `data`: the
/// first 16 bytes of `data` are the nonce, the rest is what the cipher sealed.
pub open spec fn opened(key: Seq<u8>, data: Seq<u8>) -> Option<Seq<u8>> {
    if data.len() < 16 {
        None
    } else {
        aead_open(key, data.take(16), data.skip(16))
    }
}

/// The ciphertext of `plain` under `key` with the nonce `nonce`: the nonce,
/// the encrypted bytes, the tag.
pub open spec fn sealed(key: Seq<u8>, nonce: Seq<u8>, plain: Seq<u8>) -> Seq<u8> {
    nonce + aead_seal(key, nonce, plain)
}

/// The key material of the repository, 64 bytes: the 32 bytes of the
/// encryption key, the 16 bytes of the MAC key `k` and the 16 bytes of the
/// MAC parameter `r`, in this order.
#[derive(Clone, Copy, Debug)]
pub struct Key {
    bytes: [u8; 64],
}

impl View for Key {
    type V = Seq<u8>;

    closed spec fn view(&self) -> Seq<u8> {
        self.bytes@
    }
}

/// Copies `src` into `dst` from index `at` on.
fn copy_into(dst: &mut [u8; 64], at: usize, src: &[u8])
    requires
        at + src@.len() <= 64,
    ensures
        final(dst)@ == old(dst)@.take(at as int) + src@ + old(dst)@.skip(at + src@.len()),
{
    let mut i: usize = 0;
    while i < src.len()
        invariant
            i <= src@.len(),
            at + src@.len() <= 64,
            forall|j: int| 0 <= j < at ==> dst@[j] == old(dst)@[j],
            forall|j: int| at <= j < at + i ==> dst@[j] == src@[j - at],
            forall|j: int| at + i <= j < 64 ==> dst@[j] == old(dst)@[j],
        decreases src@.len() - i,
    {
        dst[at + i] = src[i];
        i += 1;
    }
    assert(dst@ =~= old(dst)@.take(at as int) + src@ + old(dst)@.skip(at + src@.len()));
}

impl Key {
    /// A key has 64 bytes.
    pub proof fn lemma_len(&self)
        ensures
            self@.len() == 64,
    {
    }

    /// The 64 bytes of the key.
    pub fn as_bytes(&self) -> (bytes: &[u8; 64])
        ensures
            bytes@ == self@,
    {
        &self.bytes
    }

    /// The key whose 64 bytes are those of `key`: encryption key, then MAC key.
    pub fn from_slice(key: &[u8]) -> (k: Key)
        requires
            key@.len() == 64,
        ensures
            k@ == key@,
    {
        let mut bytes = [0u8; 64];
        copy_into(&mut bytes, 0, key);
        assert(bytes@ =~= key@);
        Key { bytes }
    }

    /// The key made of the encryption key `encrypt`, the MAC key `k` and the
    /// MAC parameter `r`.
    pub fn from_keys(encrypt: &[u8], k: &[u8], r: &[u8]) -> (key: Key)
        requires
            encrypt@.len() == 32,
            k@.len() == 16,
            r@.len() == 16,
        ensures
            key@ == encrypt@ + k@ + r@,
    {
        let mut bytes = [0u8; 64];
        copy_into(&mut bytes, 0, encrypt);
        copy_into(&mut bytes, 32, k);
        copy_into(&mut bytes, 48, r);
        assert(bytes@ =~= encrypt@ + k@ + r@);
        Key { bytes }
    }

    /// The three parts of the key: encryption key, MAC key `k`, MAC parameter `r`.
    pub fn to_keys(&self) -> (parts: (Vec<u8>, Vec<u8>, Vec<u8>))
        ensures
            parts.0@ == self@.subrange(0, 32),
            parts.1@ == self@.subrange(32, 48),
            parts.2@ == self@.subrange(48, 64),
    {
        let all = self.bytes.as_slice();
        let encrypt = slice_to_vec(slice_subrange(all, 0, 32));
        let k = slice_to_vec(slice_subrange(all, 32, 48));
        let r = slice_to_vec(slice_subrange(all, 48, 64));
        (encrypt, k, r)
    }

    /// Encrypts `data` under the nonce `nonce`. The result is the nonce, the
    /// encrypted bytes and the tag, and [`Key::decrypt_data`] gives `data` back.
    pub fn encrypt_with_nonce(&self, nonce: &[u8; 16], data: &[u8]) -> (r: Result<Vec<u8>, Error>)
        ensures
            r is Ok,
            r->Ok_0@ == sealed(self@, nonce@, data@),
            r->Ok_0@.len() == data@.len() + 32,
            opened(self@, r->Ok_0@) == Some(data@),
    {
        match seal(&self.bytes, nonce, data) {
            Some(body) => {
                let mut out: Vec<u8> = Vec::new();
                out.extend_from_slice(nonce.as_slice());
                out.extend_from_slice(body.as_slice());
                assert(out@ =~= nonce@ + body@);
                assert(out@.take(16) =~= nonce@);
                assert(out@.skip(16) =~= body@);
                Ok(out)
            },
            None => Err(Error::CryptoError),
        }
    }

    /// Encrypts `data` under a fresh random nonce. The ciphertext is 32 bytes
    /// longer than `data`, starts with the nonce, and decrypts to `data`.
    pub fn encrypt_data(&self, data: &[u8]) -> (r: Result<Vec<u8>, Error>)
        ensures
            r is Ok,
            r->Ok_0@.len() == data@.len() + 32,
            r->Ok_0@ == sealed(self@, r->Ok_0@.take(16), data@),
            opened(self@, r->Ok_0@) == Some(data@),
    {
        let nonce = random_nonce();
        let r = self.encrypt_with_nonce(&nonce, data);
        proof {
            if r is Ok {
                assert(r->Ok_0@.take(16) =~= nonce@);
            }
        }
        r
    }

    /// Decrypts `data`: the plaintext where `data` holds a nonce and a sealed
    /// text that the key authenticates, else `CryptoError`.
    pub fn decrypt_data(&self, data: &[u8]) -> (r: Result<Vec<u8>, Error>)
        ensures
            match opened(self@, data@) {
                Some(plain) => r is Ok && r->Ok_0@ == plain,
                None => r == Err::<Vec<u8>, Error>(Error::CryptoError),
            },
    {
        if data.len() < 16 {
            return Err(Error::CryptoError);
        }
        let mut nonce = [0u8; 16];
        let mut i: usize = 0;
        while i < 16
            invariant
                i <= 16,
                data@.len() >= 16,
                forall|j: int| 0 <= j < i ==> nonce@[j] == data@[j],
            decreases 16 - i,
        {
            nonce[i] = data[i];
            i += 1;
        }
        assert(nonce@ =~= data@.take(16));
        let rest = slice_subrange(data, 16, data.len());
        assert(rest@ =~= data@.skip(16));
        match open(&self.bytes, &nonce, rest) {
            Some(plain) => Ok(plain),
            None => Err(Error::CryptoError),
        }
    }
}

/// A streaming SHA-256 hash. Its view is the sequence of bytes fed to it since
/// it was created or last reset.
pub struct Hasher {
    state: Sha256State,
}

impl View for Hasher {
    type V = Seq<u8>;

    closed spec fn view(&self) -> Seq<u8> {
        sha256_absorbed(self.state)
    }
}

impl Hasher {
    /// A hasher in its start state.
    pub fn new() -> (h: Hasher)
        ensures
            h@ == Seq::<u8>::empty(),
    {
        Hasher { state: sha256_new() }
    }

    /// Feeds `data` to the hash, after what was fed before.
    pub fn update(&mut self, data: &[u8])
        ensures
            final(self)@ == old(self)@ + data@,
    {
        sha256_update(&mut self.state, data);
    }

    /// The id of the bytes fed so far. The hasher is left as it was.
    pub fn finalize(&self) -> (id: Id)
        ensures
            id@ == sha256(self@),
    {
        Id::new(sha256_digest(&self.state))
    }

    /// Puts the hasher back into its start state.
    pub fn reset(&mut self)
        ensures
            final(self)@ == Seq::<u8>::empty(),
    {
        self.state = sha256_new();
    }
}

/// The id of `data`: its SHA-256 digest.
pub fn hash(data: &[u8]) -> (id: Id)
    ensures
        id@ == sha256(data@),
{
    let mut hasher = Hasher::new();
    hasher.update(data);
    assert(Seq::<u8>::empty() + data@ =~= data@);
    hasher.finalize()
}

} // verus!
