//! Key files: the master key of a repository, encrypted under a key that
//! scrypt derives from a password.

use crate::crypto::opened;
use crate::crypto::Key;
use crate::error::Error;
use crate::id::bytes_precede;
use crate::id::Id;
use vstd::arithmetic::power2::lemma2_to64;
use vstd::arithmetic::power2::lemma_pow2_strictly_increases;
use vstd::arithmetic::power2::lemma_pow2_unfold;
use vstd::arithmetic::power2::pow2;
use vstd::bits::lemma_u64_shl_is_mul;
use vstd::bits::lemma_u32_shl_is_mul;
use vstd::layout::layout_of_primitives;
use vstd::layout::size_of;
use vstd::prelude::*;
use vstd::std_specs::bits::axiom_u32_leading_zeros;

verus! {

/// The bytes that standard base64 text with padding stands for, or `None`
/// where the text is no such base64.
pub uninterp spec fn base64_decoded(text: Seq<char>) -> Option<Seq<u8>>;

/// The 64 bytes that scrypt derives from a password and a salt with the cost
/// `2^log_n`, the block size `r` and the parallelism `p`.
pub uninterp spec fn scrypt_output(passwd: Seq<u8>, salt: Seq<u8>, log_n: u8, r: u32, p: u32) -> Seq<
    u8,
>;

/// The string that the JSON document `doc` holds at the JSON pointer
/// `pointer`, or `None` where `doc` is no JSON or holds no string there.
pub uninterp spec fn json_string_at(doc: Seq<u8>, pointer: Seq<char>) -> Option<Seq<char>>;

/// The non-negative integer below `2^64` that the JSON document `doc` holds at
/// the JSON pointer `pointer`, or `None` where `doc` is no JSON or holds no
/// such number there.
pub uninterp spec fn json_number_at(doc: Seq<u8>, pointer: Seq<char>) -> Option<u64>;

/// The parameters that scrypt accepts on this machine: `r` and `p` are not
/// zero, the work areas of `128 * r * 2^log_n` and `128 * r * p` bytes can be
/// addressed, `2^log_n` is below `2^(16 * r)` and `r * p` is below `2^30`.
pub open spec fn scrypt_params_valid(log_n: u8, r: u32, p: u32) -> bool {
    &&& r > 0
    &&& p > 0
    &&& log_n < usize::BITS
    &&& 128 * r * pow2(log_n as nat) <= usize::MAX
    &&& 128 * r * p <= usize::MAX
    &&& log_n < 16 * r
    &&& r * p < 0x4000_0000
}

/// `base64::decode`: the bytes that the text stands for, or `None` where the
/// crate reports an error.
#[verifier::external_body]
fn decode_base64(text: &str) -> (bytes: Option<Vec<u8>>)
    ensures
        bytes is Some <==> base64_decoded(text@) is Some,
        bytes is Some ==> bytes->0@ == base64_decoded(text@)->0,
{
    base64::decode(text).ok()
}

/// `scrypt::Params::new` and `scrypt::scrypt` with an output of 64 bytes. With
/// parameters that `Params::new` accepts the call succeeds, and the output is
/// a function of the arguments.
#[verifier::external_body]
fn derive_scrypt(passwd: &[u8], salt: &[u8], log_n: u8, r: u32, p: u32) -> (key: Option<Vec<u8>>)
    requires
        scrypt_params_valid(log_n, r, p),
    ensures
        key is Some,
        key->0@ == scrypt_output(passwd@, salt@, log_n, r, p),
        key->0@.len() == 64,
{
    let params = scrypt::Params::new(log_n, r, p).ok()?;
    let mut key = vec![0u8; 64];
    scrypt::scrypt(passwd, salt, &params, &mut key).ok()?;
    Some(key)
}

/// `serde_json::from_slice` into a `serde_json::Value`, then `Value::pointer`
/// and `Value::as_str`: the string at the pointer.
#[verifier::external_body]
fn json_string(doc: &[u8], pointer: &str) -> (text: Option<String>)
    ensures
        text is Some <==> json_string_at(doc@, pointer@) is Some,
        text is Some ==> text->0@ == json_string_at(doc@, pointer@)->0,
{
    let value: serde_json::Value = serde_json::from_slice(doc).ok()?;
    Some(value.pointer(pointer)?.as_str()?.to_string())
}

/// `serde_json::from_slice` into a `serde_json::Value`, then `Value::pointer`
/// and `Value::as_u64`: the number at the pointer.
#[verifier::external_body]
fn json_number(doc: &[u8], pointer: &str) -> (number: Option<u64>)
    ensures
        number == json_number_at(doc@, pointer@),
{
    let value: serde_json::Value = serde_json::from_slice(doc).ok()?;
    value.pointer(pointer)?.as_u64()
}

/// The number of bits of a value of the type `T`.
pub fn num_bits<T>() -> (bits: usize)
    requires
        size_of::<T>() * 8 <= usize::MAX,
    ensures
        bits == size_of::<T>() * 8,
{
    std::mem::size_of::<T>() * 8
}

/// The logarithm of `n` to the base 2, rounded down; 0 for `n` below 2.
pub open spec fn floor_log2(n: int) -> nat
    decreases n,
{
    if n <= 1 {
        0
    } else {
        1 + floor_log2(n / 2)
    }
}

/// Whether `n` is a power of two.
pub open spec fn is_power_of_two(n: u32) -> bool {
    n > 0 && pow2(floor_log2(n as int)) == n
}

/// A positive number lies between the power of two of its logarithm and the next one.
pub proof fn lemma_floor_log2_bounds(n: int)
    requires
        n > 0,
    ensures
        pow2(floor_log2(n)) <= n < pow2(floor_log2(n) + 1),
    decreases n,
{
    lemma2_to64();
    if n > 1 {
        lemma_floor_log2_bounds(n / 2);
        lemma_pow2_unfold(floor_log2(n));
        lemma_pow2_unfold(floor_log2(n) + 1);
    }
}

/// The logarithm is the only exponent whose power of two and the next enclose the number.
pub proof fn lemma_floor_log2_unique(n: int, l: nat)
    requires
        pow2(l) <= n < pow2(l + 1),
    ensures
        floor_log2(n) == l,
{
    vstd::arithmetic::power2::lemma_pow2_pos(l);
    lemma_floor_log2_bounds(n);
    let k = floor_log2(n);
    if k < l {
        if k + 1 < l {
            lemma_pow2_strictly_increases(k + 1, l);
        }
    } else if l < k {
        if l + 1 < k {
            lemma_pow2_strictly_increases(l + 1, k);
        }
    }
}

/// The logarithm of `x` to the base 2, rounded down.
pub fn log_2(x: u32) -> (l: u8)
    requires
        x > 0,
    ensures
        l == floor_log2(x as int),
        l < 32,
        pow2(l as nat) <= x < pow2(l as nat + 1),
{
    broadcast use layout_of_primitives;

    let zeros = x.leading_zeros();
    proof {
        axiom_u32_leading_zeros(x);
    }
    let l = num_bits::<u32>() as u8 - zeros as u8 - 1;
    proof {
        let s: u32 = (31 - zeros) as u32;
        assert(s == l);
        assert((x >> s) & 1u32 != 0u32);
        assert(x >= (1u32 << s)) by (bit_vector)
            requires
                s < 32,
                (x >> s) & 1u32 != 0u32,
        ;
        lemma2_to64();
        vstd::bits::lemma_u32_pow2_no_overflow(s as nat);
        lemma_u32_shl_is_mul(1u32, s);
        if s < 31 {
            let t: u32 = (s + 1) as u32;
            assert(x >> t == 0u32);
            assert(x < (1u32 << t)) by (bit_vector)
                requires
                    t < 32,
                    x >> t == 0u32,
            ;
            vstd::bits::lemma_u32_pow2_no_overflow(t as nat);
            lemma_u32_shl_is_mul(1u32, t);
        }
        lemma_floor_log2_unique(x as int, l as nat);
    }
    l
}

/// Whether scrypt accepts the parameters on this machine.
fn params_valid(log_n: u8, r: u32, p: u32) -> (ok: bool)
    ensures
        ok == scrypt_params_valid(log_n, r, p),
{
    if r == 0 || p == 0 || log_n as u32 >= usize::BITS {
        return false;
    }
    let shift = log_n as u64;
    proof {
        lemma2_to64();
        vstd::bits::lemma_u64_pow2_no_overflow(shift as nat);
        lemma_u64_shl_is_mul(1u64, shift);
    }
    let n: u128 = (1u64 << shift) as u128;
    let r128: u128 = 128 * (r as u128);
    assert(r128 * n <= 0x80_0000_0000 * 0x1_0000_0000_0000_0000) by (nonlinear_arith)
        requires
            0 <= r128 <= 0x80_0000_0000,
            0 <= n <= 0x1_0000_0000_0000_0000,
    ;
    assert(r128 * (p as u128) <= 0x80_0000_0000 * 0x1_0000_0000) by (nonlinear_arith)
        requires
            0 <= r128 <= 0x80_0000_0000,
            0 <= p <= 0x1_0000_0000,
    ;
    if r128 * n > usize::MAX as u128 {
        return false;
    }
    if r128 * (p as u128) > usize::MAX as u128 {
        return false;
    }
    if log_n as u64 >= 16 * (r as u64) {
        return false;
    }
    assert((r as u64) * (p as u64) <= 0xffff_ffff * 0xffff_ffff) by (nonlinear_arith)
        requires
            0 <= r <= 0xffff_ffff,
            0 <= p <= 0xffff_ffff,
    ;
    if (r as u64) * (p as u64) >= 0x4000_0000 {
        return false;
    }
    assert(128 * r * pow2(log_n as nat) == r128 * n) by (nonlinear_arith)
        requires
            r128 == 128 * r,
            n == pow2(log_n as nat),
    ;
    true
}

/// What a key file holds.
pub struct KeyFileView {
    pub kdf: Seq<char>,
    pub n: u32,
    pub r: u32,
    pub p: u32,
    pub data: Seq<char>,
    pub salt: Seq<char>,
}

/// The record that protects the master key of a repository with a password:
/// the parameters of scrypt, the salt, and the encrypted master key.
#[derive(Debug)]
pub struct KeyFile {
    pub kdf: String,
    pub n: u32,
    pub r: u32,
    pub p: u32,
    pub data: String,
    pub salt: String,
}

impl View for KeyFile {
    type V = KeyFileView;

    open spec fn view(&self) -> KeyFileView {
        KeyFileView {
            kdf: self.kdf@,
            n: self.n,
            r: self.r,
            p: self.p,
            data: self.data@,
            salt: self.salt@,
        }
    }
}

/// The key that scrypt derives from `passwd` with the parameters and the salt
/// of `file`. `N` must be a power of two and the parameters valid, else the
/// error is `InvalidParameter`; a salt that is no base64 is a `FormatError`.
pub open spec fn kdf_key_of(file: KeyFileView, passwd: Seq<u8>) -> Result<Seq<u8>, Error> {
    if !is_power_of_two(file.n) {
        Err(Error::InvalidParameter)
    } else if !scrypt_params_valid(floor_log2(file.n as int) as u8, file.r, file.p) {
        Err(Error::InvalidParameter)
    } else {
        match base64_decoded(file.salt) {
            None => Err(Error::FormatError),
            Some(salt) => Ok(
                scrypt_output(passwd, salt, floor_log2(file.n as int) as u8, file.r, file.p),
            ),
        }
    }
}

/// The key that the JSON record `doc` of a master key holds: the base64 texts
/// at `encrypt`, `mac.k` and `mac.r`, of 32, 16 and 16 bytes.
pub open spec fn master_key_of(doc: Seq<u8>) -> Option<Seq<u8>> {
    match (
        json_string_at(doc, "/encrypt"@),
        json_string_at(doc, "/mac/k"@),
        json_string_at(doc, "/mac/r"@),
    ) {
        (Some(encrypt), Some(k), Some(r)) => match (
            base64_decoded(encrypt),
            base64_decoded(k),
            base64_decoded(r),
        ) {
            (Some(encrypt), Some(k), Some(r)) => if encrypt.len() == 32 && k.len() == 16 && r.len()
                == 16 {
                Some(encrypt + k + r)
            } else {
                None
            },
            _ => None,
        },
        _ => None,
    }
}

/// The master key that `key` takes out of the data of `file`. Data that is no
/// base64 is a `FormatError`; data that `key` does not decrypt is a
/// `WrongPassword`; a plaintext that is no master key record is a `FormatError`.
pub open spec fn data_key_of(file: KeyFileView, key: Seq<u8>) -> Result<Seq<u8>, Error> {
    match base64_decoded(file.data) {
        None => Err(Error::FormatError),
        Some(sealed) => match opened(key, sealed) {
            None => Err(Error::WrongPassword),
            Some(doc) => match master_key_of(doc) {
                None => Err(Error::FormatError),
                Some(master) => Ok(master),
            },
        },
    }
}

/// The master key that `passwd` takes out of `file`.
pub open spec fn password_key_of(file: KeyFileView, passwd: Seq<u8>) -> Result<Seq<u8>, Error> {
    match kdf_key_of(file, passwd) {
        Err(e) => Err(e),
        Ok(key) => data_key_of(file, key),
    }
}

/// The key file that the JSON document `doc` holds: strings at `kdf`, `salt`
/// and `data`, numbers below `2^32` at `N`, `r` and `p`.
pub open spec fn key_file_of(doc: Seq<u8>) -> Option<KeyFileView> {
    match (
        json_string_at(doc, "/kdf"@),
        json_number_at(doc, "/N"@),
        json_number_at(doc, "/r"@),
        json_number_at(doc, "/p"@),
        json_string_at(doc, "/data"@),
        json_string_at(doc, "/salt"@),
    ) {
        (Some(kdf), Some(n), Some(r), Some(p), Some(data), Some(salt)) => if n <= u32::MAX && r
            <= u32::MAX && p <= u32::MAX {
            Some(KeyFileView { kdf, n: n as u32, r: r as u32, p: p as u32, data, salt })
        } else {
            None
        },
        _ => None,
    }
}

/// The master key that `passwd` takes out of the key file in the JSON document `doc`.
pub open spec fn file_key_of(doc: Seq<u8>, passwd: Seq<u8>) -> Result<Seq<u8>, Error> {
    match key_file_of(doc) {
        None => Err(Error::FormatError),
        Some(file) => password_key_of(file, passwd),
    }
}

/// The key file `file` protects the key `master` with the password `passwd`:
/// the key that scrypt derives from the password decrypts the data of the
/// file to the record of `master`.
pub open spec fn protects(file: KeyFileView, passwd: Seq<u8>, master: Seq<u8>) -> bool {
    &&& kdf_key_of(file, passwd) is Ok
    &&& base64_decoded(file.data) is Some
    &&& opened(kdf_key_of(file, passwd)->Ok_0, base64_decoded(file.data)->0) is Some
    &&& master_key_of(opened(kdf_key_of(file, passwd)->Ok_0, base64_decoded(file.data)->0)->0)
        == Some(master)
}

/// The password that protects a key in a key file takes that key out of it,
/// and its first 32 bytes are the encryption key of the record. Any other
/// password yields `WrongPassword` unless the key derived from it decrypts the
/// data as well.
pub proof fn lemma_unlock_round_trip(
    file: KeyFileView,
    passwd: Seq<u8>,
    master: Seq<u8>,
    other: Seq<u8>,
)
    requires
        protects(file, passwd, master),
    ensures
        password_key_of(file, passwd) == Ok::<Seq<u8>, Error>(master),
        master.len() == 64,
        kdf_key_of(file, other) is Ok,
        opened(kdf_key_of(file, other)->Ok_0, base64_decoded(file.data)->0) is None
            ==> password_key_of(file, other) == Err::<Seq<u8>, Error>(Error::WrongPassword),
{
}

/// The bytes of the key of a result.
pub open spec fn key_bytes(r: Result<Key, Error>) -> Result<Seq<u8>, Error> {
    match r {
        Ok(key) => Ok(key@),
        Err(e) => Err(e),
    }
}

/// The number below `2^32` at `pointer` in the JSON document `doc`.
fn json_u32(doc: &[u8], pointer: &str) -> (number: Option<u32>)
    ensures
        number == match json_number_at(doc@, pointer@) {
            Some(n) => if n <= u32::MAX {
                Some(n as u32)
            } else {
                None
            },
            None => None,
        },
{
    match json_number(doc, pointer) {
        Some(n) => if n <= 0xffff_ffff {
            Some(n as u32)
        } else {
            None
        },
        None => None,
    }
}

/// The bytes of the base64 text at `pointer` in the JSON document `doc`.
fn json_base64(doc: &[u8], pointer: &str) -> (bytes: Option<Vec<u8>>)
    ensures
        match json_string_at(doc@, pointer@) {
            Some(text) => match base64_decoded(text) {
                Some(b) => bytes is Some && bytes->0@ == b,
                None => bytes is None,
            },
            None => bytes is None,
        },
{
    match json_string(doc, pointer) {
        Some(text) => decode_base64(text.as_str()),
        None => None,
    }
}

/// The master key record in JSON that holds a key.
struct MasterKey {
    encrypt: Vec<u8>,
    k: Vec<u8>,
    r: Vec<u8>,
}

impl MasterKey {
    /// Reads the record from its JSON text.
    fn parse(doc: &[u8]) -> (r: Option<MasterKey>)
        ensures
            match (
                json_string_at(doc@, "/encrypt"@),
                json_string_at(doc@, "/mac/k"@),
                json_string_at(doc@, "/mac/r"@),
            ) {
                (Some(encrypt), Some(k), Some(mr)) => match (
                    base64_decoded(encrypt),
                    base64_decoded(k),
                    base64_decoded(mr),
                ) {
                    (Some(encrypt), Some(k), Some(mr)) => r is Some && r->0.encrypt@ == encrypt
                        && r->0.k@ == k && r->0.r@ == mr,
                    _ => r is None,
                },
                _ => r is None,
            },
    {
        let encrypt = json_base64(doc, "/encrypt");
        let k = json_base64(doc, "/mac/k");
        let r = json_base64(doc, "/mac/r");
        match (encrypt, k, r) {
            (Some(encrypt), Some(k), Some(r)) => Some(MasterKey { encrypt, k, r }),
            _ => None,
        }
    }

    /// The key that the record holds, where its parts have the lengths of a key.
    fn key(&self) -> (r: Result<Key, Error>)
        ensures
            self.encrypt@.len() == 32 && self.k@.len() == 16 && self.r@.len() == 16 ==> r is Ok
                && r->Ok_0@ == self.encrypt@ + self.k@ + self.r@,
            !(self.encrypt@.len() == 32 && self.k@.len() == 16 && self.r@.len() == 16) ==> r
                == Err::<Key, Error>(Error::FormatError),
    {
        if self.encrypt.len() != 32 || self.k.len() != 16 || self.r.len() != 16 {
            return Err(Error::FormatError);
        }
        Ok(Key::from_keys(self.encrypt.as_slice(), self.k.as_slice(), self.r.as_slice()))
    }
}

impl KeyFile {
    /// Generate a Key using the key derivation function from KeyFile and a given password
    pub fn kdf_key(&self, passwd: &[u8]) -> (r: Result<Key, Error>)
        ensures
            key_bytes(r) == kdf_key_of(self@, passwd@),
    {
        if self.n == 0 {
            return Err(Error::InvalidParameter);
        }
        let log_n = log_2(self.n);
        proof {
            lemma2_to64();
            vstd::bits::lemma_u32_pow2_no_overflow(log_n as nat);
            lemma_u32_shl_is_mul(1u32, log_n as u32);
        }
        if (1u32 << (log_n as u32)) != self.n {
            return Err(Error::InvalidParameter);
        }
        if !params_valid(log_n, self.r, self.p) {
            return Err(Error::InvalidParameter);
        }
        let salt = match decode_base64(self.salt.as_str()) {
            Some(salt) => salt,
            None => {
                return Err(Error::FormatError);
            },
        };
        match derive_scrypt(passwd, salt.as_slice(), log_n, self.r, self.p) {
            Some(key) => Ok(Key::from_slice(key.as_slice())),
            None => Err(Error::InvalidParameter),
        }
    }

    /// Extract a key from the data of the KeyFile using the given key.
    /// The key usually should be the key generated by kdf_key
    pub fn key_from_data(&self, key: &Key) -> (r: Result<Key, Error>)
        ensures
            key_bytes(r) == data_key_of(self@, key@),
    {
        let sealed = match decode_base64(self.data.as_str()) {
            Some(sealed) => sealed,
            None => {
                return Err(Error::FormatError);
            },
        };
        let doc = match key.decrypt_data(sealed.as_slice()) {
            Ok(doc) => doc,
            Err(_) => {
                return Err(Error::WrongPassword);
            },
        };
        match MasterKey::parse(doc.as_slice()) {
            Some(master) => master.key(),
            None => Err(Error::FormatError),
        }
    }

    /// Extract a key from the data of the KeyFile using the key
    /// from the derivation function in combination with the given password.
    pub fn key_from_password(&self, passwd: &[u8]) -> (r: Result<Key, Error>)
        ensures
            key_bytes(r) == password_key_of(self@, passwd@),
    {
        match self.kdf_key(passwd) {
            Ok(key) => self.key_from_data(&key),
            Err(e) => Err(e),
        }
    }

    /// Get a KeyFile from the bytes that the backend holds for it
    pub fn from_backend(data: &[u8]) -> (r: Result<KeyFile, Error>)
        ensures
            match key_file_of(data@) {
                Some(file) => r is Ok && r->Ok_0@ == file,
                None => r == Err::<KeyFile, Error>(Error::FormatError),
            },
    {
        let kdf = json_string(data, "/kdf");
        let n = json_u32(data, "/N");
        let r = json_u32(data, "/r");
        let p = json_u32(data, "/p");
        let text = json_string(data, "/data");
        let salt = json_string(data, "/salt");
        match (kdf, n, r, p, text, salt) {
            (Some(kdf), Some(n), Some(r), Some(p), Some(text), Some(salt)) => Ok(
                KeyFile { kdf, n, r, p, data: text, salt },
            ),
            _ => Err(Error::FormatError),
        }
    }
}

/// The key that `passwd` takes out of the key file with the bytes `data`.
pub fn key_from_backend(data: &[u8], passwd: &[u8]) -> (r: Result<Key, Error>)
    ensures
        key_bytes(r) == file_key_of(data@, passwd@),
{
    match KeyFile::from_backend(data) {
        Ok(file) => file.key_from_password(passwd),
        Err(e) => Err(e),
    }
}

/// A key file as the backend holds it: its id and its bytes.
#[derive(Debug)]
pub struct KeyEntry {
    pub id: Id,
    pub data: Vec<u8>,
}

/// Whether `passwd` opens the key file at index `i` of `files`.
pub open spec fn opens_at(files: Seq<KeyEntry>, passwd: Seq<u8>, i: int) -> bool {
    0 <= i < files.len() && file_key_of(files[i].data@, passwd) is Ok
}

/// The key file at index `i` is the first of `files` with the id `id`.
pub open spec fn first_with_id(files: Seq<KeyEntry>, id: Id, i: int) -> bool {
    &&& 0 <= i < files.len()
    &&& files[i].id == id
    &&& forall|j: int| 0 <= j < i ==> (#[trigger] files[j]).id != id
}

/// The key file at index `i` is the one whose key the search without a hint
/// returns: `passwd` opens it, and the id of no key file that `passwd` opens
/// comes before its id.
pub open spec fn first_opening(files: Seq<KeyEntry>, passwd: Seq<u8>, i: int) -> bool {
    &&& opens_at(files, passwd, i)
    &&& forall|j: int| #[trigger]
        opens_at(files, passwd, j) ==> !bytes_precede(files[j].id@, files[i].id@)
}

/// The number of flags that are set.
spec fn count_set(flags: Seq<bool>) -> nat
    decreases flags.len(),
{
    if flags.len() == 0 {
        0
    } else {
        count_set(flags.drop_last()) + if flags.last() {
            1nat
        } else {
            0nat
        }
    }
}

proof fn lemma_count_set_bound(flags: Seq<bool>)
    ensures
        count_set(flags) <= flags.len(),
        count_set(flags) == flags.len() ==> forall|i: int| 0 <= i < flags.len() ==> flags[i],
    decreases flags.len(),
{
    if flags.len() > 0 {
        lemma_count_set_bound(flags.drop_last());
        if count_set(flags) == flags.len() {
            assert forall|i: int| 0 <= i < flags.len() implies flags[i] by {
                if i < flags.len() - 1 {
                    assert(flags.drop_last()[i]);
                }
            }
        }
    }
}

proof fn lemma_count_set_update(flags: Seq<bool>, i: int)
    requires
        0 <= i < flags.len(),
        !flags[i],
    ensures
        count_set(flags.update(i, true)) == count_set(flags) + 1,
    decreases flags.len(),
{
    let after = flags.update(i, true);
    if i == flags.len() - 1 {
        assert(after.drop_last() =~= flags.drop_last());
    } else {
        assert(after.drop_last() =~= flags.drop_last().update(i, true));
        lemma_count_set_update(flags.drop_last(), i);
    }
}

/// The index of the first key file with the id `id`.
fn position(files: &Vec<KeyEntry>, id: &Id) -> (r: Option<usize>)
    ensures
        r is Some ==> first_with_id(files@, *id, r->0 as int),
        r is None ==> forall|j: int| 0 <= j < files@.len() ==> (#[trigger] files@[j]).id != *id,
{
    let mut i: usize = 0;
    while i < files.len()
        invariant
            i <= files@.len(),
            forall|j: int| 0 <= j < i ==> (#[trigger] files@[j]).id != *id,
        decreases files@.len() - i,
    {
        if files[i].id.equals(id) {
            return Some(i);
        }
        i += 1;
    }
    None
}

/// The index of a key file that was not tried and whose id comes after that
/// of no other such key file; `None` where all were tried.
fn next_candidate(files: &Vec<KeyEntry>, tried: &Vec<bool>) -> (r: Option<usize>)
    requires
        tried@.len() == files@.len(),
    ensures
        r is None ==> forall|k: int| 0 <= k < files@.len() ==> tried@[k],
        r is Some ==> r->0 < files@.len() && !tried@[r->0 as int] && forall|k: int|
            0 <= k < files@.len() && !tried@[k] ==> !bytes_precede(
                (#[trigger] files@[k]).id@,
                files@[r->0 as int].id@,
            ),
{
    let mut best: Option<usize> = None;
    let mut j: usize = 0;
    while j < files.len()
        invariant
            j <= files@.len(),
            tried@.len() == files@.len(),
            best is None ==> forall|k: int| 0 <= k < j ==> tried@[k],
            best is Some ==> best->0 < j && !tried@[best->0 as int] && forall|k: int|
                0 <= k < j && !tried@[k] ==> !bytes_precede(
                    (#[trigger] files@[k]).id@,
                    files@[best->0 as int].id@,
                ),
        decreases files@.len() - j,
    {
        if !tried[j] {
            match best {
                None => {
                    proof {
                        crate::id::lemma_precede_irreflexive(files@[j as int].id@);
                    }
                    best = Some(j);
                },
                Some(b) => {
                    if files[j].id.precedes(&files[b].id) {
                        proof {
                            crate::id::lemma_precede_irreflexive(files@[j as int].id@);
                            assert forall|k: int| 0 <= k < j && !tried@[k] implies !bytes_precede(
                                (#[trigger] files@[k]).id@,
                                files@[j as int].id@,
                            ) by {
                                if bytes_precede(files@[k].id@, files@[j as int].id@) {
                                    crate::id::lemma_precede_transitive(
                                        files@[k].id@,
                                        files@[j as int].id@,
                                        files@[b as int].id@,
                                    );
                                }
                            }
                        }
                        best = Some(j);
                    }
                },
            }
        }
        j += 1;
    }
    best
}

/// Find a KeyFile among those of the backend that fits to the given password and return the contained key.
/// If a key hint is given, only this key is tested.
/// This is recommended for a large number of keys.
///
/// Without a hint the key files are tried in ascending order of their ids,
/// and the first success is returned; if none succeeds the error is
/// `NoSuitableKey`. With a hint the error of that key file is returned, and
/// `BackendError` where the backend holds no key file with that id.
pub fn find_key_in_backend(files: &Vec<KeyEntry>, passwd: &[u8], hint: Option<&Id>) -> (r: Result<
    Key,
    Error,
>)
    ensures
        match hint {
            Some(id) => {
                &&& (forall|j: int| 0 <= j < files@.len() ==> (#[trigger] files@[j]).id != *id)
                    ==> r == Err::<Key, Error>(Error::BackendError)
                &&& forall|i: int|
                    first_with_id(files@, *id, i) ==> key_bytes(r) == file_key_of(
                        files@[i].data@,
                        passwd@,
                    )
            },
            None => {
                &&& (forall|j: int| !opens_at(files@, passwd@, j)) ==> r == Err::<Key, Error>(
                    Error::NoSuitableKey,
                )
                &&& (exists|j: int| opens_at(files@, passwd@, j)) ==> exists|i: int|
                    first_opening(files@, passwd@, i) && key_bytes(r) == file_key_of(
                        files@[i].data@,
                        passwd@,
                    )
            },
        },
{
    match hint {
        Some(id) => match position(files, id) {
            Some(i) => {
                assert forall|k: int| first_with_id(files@, *id, k) implies k == i by {
                    if k < i {
                        assert(files@[k].id != *id);
                    }
                }
                key_from_backend(files[i].data.as_slice(), passwd)
            },
            None => Err(Error::BackendError),
        },
        None => {
            let mut tried: Vec<bool> = Vec::new();
            while tried.len() < files.len()
                invariant
                    tried@.len() <= files@.len(),
                    forall|k: int| 0 <= k < tried@.len() ==> !tried@[k],
                    count_set(tried@) == 0,
                decreases files@.len() - tried@.len(),
            {
                let ghost before = tried@;
                tried.push(false);
                assert(tried@.drop_last() =~= before);
            }
            loop
                invariant
                    hint is None,
                    tried@.len() == files@.len(),
                    forall|k: int| 0 <= k < files@.len() && tried@[k] ==> !opens_at(files@, passwd@, k),
                decreases files@.len() - count_set(tried@),
            {
                proof {
                    lemma_count_set_bound(tried@);
                }
                match next_candidate(files, &tried) {
                    None => {
                        assert forall|j: int| !opens_at(files@, passwd@, j) by {
                            if 0 <= j < files@.len() {
                                assert(tried@[j]);
                            }
                        }
                        return Err(Error::NoSuitableKey);
                    },
                    Some(i) => {
                        match key_from_backend(files[i].data.as_slice(), passwd) {
                            Ok(key) => {
                                proof {
                                    assert(opens_at(files@, passwd@, i as int));
                                    assert(first_opening(files@, passwd@, i as int));
                                }
                                return Ok(key);
                            },
                            Err(_) => {
                                proof {
                                    lemma_count_set_update(tried@, i as int);
                                    lemma_count_set_bound(tried@.update(i as int, true));
                                }
                                tried.set(i, true);
                            },
                        }
                    },
                }
            }
        },
    }
}

} // verus!
