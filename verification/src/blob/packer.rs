//! The packer: streams blobs into a pending pack, leaves out what is stored
//! already, and finishes the pack when it is large, full or old enough.
//!
//! The packer holds the bytes of the pending pack and hands a finished pack
//! out to its caller, who stores the bytes and then publishes the manifest
//! to the indexer.

use crate::blob::BlobType;
use crate::crypto::opened;
use crate::crypto::sha256;
use crate::crypto::Hasher;
use crate::crypto::Key;
use crate::error::Error;
use crate::id::Id;
use crate::index::has_id;
use crate::index::known;
use crate::index::lemma_total_length_push;
use crate::index::lemma_total_length_take;
use crate::index::total_length;
use crate::index::IndexBlob;
use crate::index::IndexPack;
use crate::index::Indexer;
use crate::packfile::blob_bytes;
use crate::packfile::blobs_hold;
use crate::packfile::header_ciphertext;
use crate::packfile::is_pack;
use crate::packfile::lemma_blobs_hold_append;
use crate::packfile::serialize_header;
use crate::packfile::write_u32_le;
use vstd::prelude::*;

verus! {

pub const KB: u32 = 1024;

pub const MB: u32 = 1024 * KB;

/// A pending pack is flushed once it holds this many bytes.
pub const MAX_SIZE: u32 = 4 * MB;

/// A pending pack is flushed once it holds this many blobs.
pub const MAX_COUNT: u32 = 10_000;

/// A pending pack is flushed once it is this many seconds old.
pub const MAX_AGE: u64 = 300;

/// The thresholds at which a packer flushes its pending pack.
#[derive(Clone, Copy, Debug)]
pub struct Limits {
    /// Bytes of blob ciphertext.
    pub max_size: u32,
    /// Number of blobs.
    pub max_count: u32,
    /// Seconds since the pack was started.
    pub max_age: u64,
}

impl Default for Limits {
    fn default() -> (limits: Limits)
        ensures
            limits.max_size == MAX_SIZE,
            limits.max_count == MAX_COUNT,
            limits.max_age == MAX_AGE,
    {
        Limits { max_size: MAX_SIZE, max_count: MAX_COUNT, max_age: MAX_AGE }
    }
}

/// A finished pack: the bytes to store under `id`, and the manifest to publish
/// once they are stored.
#[derive(Debug)]
pub struct Pack {
    pub id: Id,
    pub data: Vec<u8>,
    pub index: IndexPack,
}

/// `pack` is the pack of the blobs `entries` with the plaintexts `plain`,
/// written under `key`: its manifest lists the blobs and carries the id, the id
/// is the hash of all its bytes, the bytes are the blobs' ciphertexts, the
/// encrypted header and the header's length, and every blob decrypts to its
/// plaintext.
pub open spec fn is_emitted(
    key: Seq<u8>,
    entries: Seq<IndexBlob>,
    plain: Seq<Seq<u8>>,
    pack: Pack,
) -> bool {
    &&& pack.index@ == entries
    &&& pack.index.wf()
    &&& pack.index.pack_id() == Some(pack.id)
    &&& pack.id@ == sha256(pack.data@)
    &&& pack.data@.len() == total_length(entries) + 37 * entries.len() + 36
    &&& is_pack(key, pack.data@, entries)
    &&& blobs_hold(key, pack.data@, entries, plain)
}

/// `UNIX_EPOCH.elapsed()`, in whole seconds: the time of the system clock, or
/// `None` where the clock stands before 1970. Nothing is known of the number.
#[verifier::external_body]
fn unix_seconds() -> (now: Option<u64>) {
    std::time::UNIX_EPOCH.elapsed().ok().map(|d| d.as_secs())
}

/// The time of the system clock in seconds since 1970, or 0 where it stands before that.
fn clock() -> u64 {
    seconds_of(unix_seconds())
}

/// The seconds that a reading of the clock stands for: the reading itself, and
/// 0 for the missing reading of a clock that stands before 1970.
fn seconds_of(reading: Option<u64>) -> (now: u64)
    ensures
        now == match reading {
            Some(seconds) => seconds,
            None => 0,
        },
{
    match reading {
        Some(seconds) => seconds,
        None => 0,
    }
}

/// Assembles packs from blobs: encrypts each blob and appends it to a pending
/// pack, unless the pending pack or the indexer holds its id already, and
/// finishes the pack at a threshold of size, count or age.
pub struct Packer {
    key: Key,
    file: Vec<u8>,
    size: u32,
    count: u32,
    created: u64,
    index: IndexPack,
    hasher: Hasher,
    limits: Limits,
    plain: Ghost<Seq<Seq<u8>>>,
}

impl Packer {
    /// The bytes of the key under which the packer encrypts.
    pub closed spec fn key(&self) -> Seq<u8> {
        self.key@
    }

    /// The bytes written to the pending pack.
    pub closed spec fn bytes(&self) -> Seq<u8> {
        self.file@
    }

    /// The manifest of the pending pack.
    pub closed spec fn entries(&self) -> Seq<IndexBlob> {
        self.index@
    }

    /// The plaintexts of the blobs of the pending pack, in insertion order.
    pub closed spec fn plaintexts(&self) -> Seq<Seq<u8>> {
        self.plain@
    }

    /// The number of blobs added since the packer was made or last reset.
    pub closed spec fn blob_count(&self) -> u32 {
        self.count
    }

    /// When the pending pack was started, in seconds.
    pub closed spec fn created(&self) -> u64 {
        self.created
    }

    /// The thresholds of the packer.
    pub closed spec fn limits(&self) -> Limits {
        self.limits
    }

    /// The packer takes blobs: the pending pack holds the ciphertexts of its
    /// blobs and nothing else, and no pack was finished since the last reset.
    pub open spec fn ready(&self) -> bool {
        &&& self.blob_count() == self.entries().len()
        &&& self.bytes().len() == total_length(self.entries())
    }

    /// A blob of `data_len` bytes of plaintext fits: with its ciphertext, the
    /// header and the trailer the pack stays within the range of a `u32`.
    pub open spec fn fits(&self, data_len: int) -> bool {
        self.bytes().len() + data_len + 32 + 37 * (self.blob_count() + 1) + 36 <= u32::MAX
    }

    /// With one blob more, of `data_len` bytes of plaintext, the pending pack
    /// is due at the time `now`: it has reached the count, the size or the age.
    pub open spec fn flush_due(&self, data_len: int, now: u64) -> bool {
        ||| self.blob_count() + 1 >= self.limits().max_count
        ||| self.bytes().len() + data_len + 32 >= self.limits().max_size
        ||| now - self.created() >= self.limits().max_age
    }

    spec fn inv(&self) -> bool {
        &&& self.file@.len() == self.size
        &&& self.index.wf()
        &&& self.index.pack_id() is None
        &&& total_length(self.index@) <= self.size
        &&& blobs_hold(self.key@, self.file@, self.index@, self.plain@)
        &&& (self.count == self.index@.len() ==> self.hasher@ == self.file@)
        &&& (self.ready() ==> self.size + 37 * self.count + 36 <= u32::MAX)
    }

    /// The invariant of the type. It includes that a packer that is ready and
    /// holds a blob is below its thresholds of size and count.
    pub closed spec fn wf(&self) -> bool {
        &&& self.inv()
        &&& (self.ready() ==> self.count == 0 || (self.size < self.limits.max_size && self.count
            < self.limits.max_count))
    }

    /// What the invariant says of the pending pack.
    pub proof fn lemma_wf(&self)
        requires
            self.wf(),
        ensures
            self.bytes().len() <= u32::MAX,
            crate::index::well_formed(self.entries()),
            total_length(self.entries()) <= self.bytes().len(),
            blobs_hold(self.key(), self.bytes(), self.entries(), self.plaintexts()),
            self.ready() ==> self.blob_count() == 0 || (self.bytes().len() < self.limits().max_size
                && self.blob_count() < self.limits().max_count),
    {
        self.index.lemma_wf();
    }

    /// What [`Packer::add_at`] does at the time `now` to the packer `pre` and
    /// returns. A packer that is not ready refuses. A blob whose id the pending
    /// pack or the indexer holds is not added. A blob that does not fit is
    /// refused. Else the blob is added at the end of the pending pack, and
    /// where the pack is then due it is finished and returned, and the packer
    /// starts a new one at `now`.
    pub open spec fn add_post(
        pre: Packer,
        post: Packer,
        indexer: Seq<Seq<IndexBlob>>,
        data: Seq<u8>,
        id: Id,
        tpe: BlobType,
        now: u64,
        r: Result<(bool, Option<Pack>), Error>,
    ) -> bool {
        if !pre.ready() {
            r == Err::<(bool, Option<Pack>), Error>(Error::InvalidParameter) && post == pre
        } else if has_id(pre.entries(), id) || known(indexer, id) {
            r == Ok::<(bool, Option<Pack>), Error>((false, None)) && post == pre
        } else if !pre.fits(data.len() as int) {
            r == Err::<(bool, Option<Pack>), Error>(Error::InvalidParameter) && post == pre
        } else {
            let blob = IndexBlob {
                id,
                tpe,
                offset: pre.bytes().len() as u32,
                length: (data.len() + 32) as u32,
            };
            let entries = pre.entries().push(blob);
            let plain = pre.plaintexts().push(data);
            &&& r is Ok
            &&& r->Ok_0.0
            &&& post.key() == pre.key()
            &&& post.limits() == pre.limits()
            &&& if pre.flush_due(data.len() as int, now) {
                &&& r->Ok_0.1 is Some
                &&& is_emitted(pre.key(), entries, plain, r->Ok_0.1->0)
                &&& r->Ok_0.1->0.data@.take(pre.bytes().len() as int) == pre.bytes()
                &&& post.bytes() == Seq::<u8>::empty()
                &&& post.entries() == Seq::<IndexBlob>::empty()
                &&& post.plaintexts() == Seq::<Seq<u8>>::empty()
                &&& post.blob_count() == 0
                &&& post.created() == now
            } else {
                &&& r->Ok_0.1 is None
                &&& post.bytes().len() == pre.bytes().len() + data.len() + 32
                &&& post.bytes().take(pre.bytes().len() as int) == pre.bytes()
                &&& post.entries() == entries
                &&& post.plaintexts() == plain
                &&& post.blob_count() == pre.blob_count() + 1
                &&& post.created() == pre.created()
            }
        }
    }

    /// What [`Packer::save`] does to the packer `pre` and returns. Without
    /// pending bytes nothing happens. A pending pack that holds other bytes
    /// than its blobs is refused. Else the pack is finished and returned, and
    /// the packer holds no bytes and no blobs.
    pub open spec fn save_post(pre: Packer, post: Packer, r: Result<Option<Pack>, Error>) -> bool {
        if pre.bytes().len() == 0 {
            r == Ok::<Option<Pack>, Error>(None) && post == pre
        } else if !pre.ready() {
            r == Err::<Option<Pack>, Error>(Error::InvalidParameter) && post == pre
        } else {
            &&& r is Ok
            &&& r->Ok_0 is Some
            &&& is_emitted(pre.key(), pre.entries(), pre.plaintexts(), r->Ok_0->0)
            &&& r->Ok_0->0.data@.take(pre.bytes().len() as int) == pre.bytes()
            &&& post.key() == pre.key()
            &&& post.limits() == pre.limits()
            &&& post.bytes() == Seq::<u8>::empty()
            &&& post.entries() == Seq::<IndexBlob>::empty()
            &&& post.plaintexts() == Seq::<Seq<u8>>::empty()
            &&& post.blob_count() == pre.blob_count()
            &&& post.created() == pre.created()
        }
    }

    /// What [`Packer::reset_at`] does at the time `now` to the packer `pre` and
    /// returns. A packer with pending blobs refuses. Else the packer is ready
    /// and empty, and its pack starts at `now`.
    pub open spec fn reset_post(pre: Packer, post: Packer, now: u64, r: Result<(), Error>) -> bool {
        if pre.entries().len() != 0 {
            r == Err::<(), Error>(Error::InvalidParameter) && post == pre
        } else {
            &&& r is Ok
            &&& post.key() == pre.key()
            &&& post.limits() == pre.limits()
            &&& post.bytes() == Seq::<u8>::empty()
            &&& post.entries() == Seq::<IndexBlob>::empty()
            &&& post.plaintexts() == Seq::<Seq<u8>>::empty()
            &&& post.blob_count() == 0
            &&& post.created() == now
        }
    }

    /// A packer for `key` with the standard thresholds, which starts its pack now.
    pub fn new(key: Key) -> (p: Packer)
        ensures
            p.wf(),
            p.ready(),
            p.key() == key@,
            p.limits().max_size == MAX_SIZE,
            p.limits().max_count == MAX_COUNT,
            p.limits().max_age == MAX_AGE,
            p.bytes() == Seq::<u8>::empty(),
            p.entries() == Seq::<IndexBlob>::empty(),
            p.plaintexts() == Seq::<Seq<u8>>::empty(),
            p.blob_count() == 0,
    {
        Packer::with_limits(key, Limits::default(), clock())
    }

    /// A packer for `key` with the thresholds `limits`, which starts its pack
    /// at the time `now`.
    pub fn with_limits(key: Key, limits: Limits, now: u64) -> (p: Packer)
        ensures
            p.wf(),
            p.ready(),
            p.key() == key@,
            p.limits() == limits,
            p.created() == now,
            p.bytes() == Seq::<u8>::empty(),
            p.entries() == Seq::<IndexBlob>::empty(),
            p.plaintexts() == Seq::<Seq<u8>>::empty(),
            p.blob_count() == 0,
    {
        Packer {
            key,
            file: Vec::new(),
            size: 0,
            count: 0,
            created: now,
            index: IndexPack::new(),
            hasher: Hasher::new(),
            limits,
            plain: Ghost(Seq::empty()),
        }
    }

    /// The number of bytes in the pending pack.
    pub fn size(&self) -> (n: u32)
        requires
            self.wf(),
        ensures
            n == self.bytes().len(),
    {
        self.size
    }

    /// The number of blobs added since the packer was made or last reset.
    pub fn count(&self) -> (n: u32)
        ensures
            n == self.blob_count(),
    {
        self.count
    }

    /// The manifest of the pending pack.
    pub fn index(&self) -> (index: &IndexPack)
        ensures
            index@ == self.entries(),
    {
        &self.index
    }

    /// Whether the packer takes blobs.
    pub fn is_ready(&self) -> (b: bool)
        requires
            self.wf(),
        ensures
            b == self.ready(),
    {
        self.count as usize == self.index.len() && self.size == self.index.total_length()
    }

    /// Whether the pending pack holds a blob with the id `id`.
    pub fn has(&self, id: &Id) -> (b: bool)
        ensures
            b == has_id(self.entries(), *id),
    {
        self.index.has(id)
    }

    fn append(&mut self, data: &[u8]) -> (r: Result<u32, Error>)
        requires
            old(self).inv(),
        ensures
            final(self).inv(),
            old(self).size + data@.len() > u32::MAX ==> r == Err::<u32, Error>(
                Error::InvalidParameter,
            ) && *final(self) == *old(self),
            old(self).size + data@.len() <= u32::MAX ==> {
                &&& r == Ok::<u32, Error>(data@.len() as u32)
                &&& final(self).file@ == old(self).file@ + data@
                &&& final(self).size == old(self).size + data@.len()
                &&& final(self).hasher@ == old(self).hasher@ + data@
                &&& final(self).key == old(self).key
                &&& final(self).count == old(self).count
                &&& final(self).created == old(self).created
                &&& final(self).index == old(self).index
                &&& final(self).limits == old(self).limits
                &&& final(self).plain == old(self).plain
            },
    {
        if data.len() > (u32::MAX - self.size) as usize {
            return Err(Error::InvalidParameter);
        }
        let len = data.len() as u32;
        proof {
            self.index.lemma_wf();
            lemma_blobs_hold_append(self.key@, self.file@, data@, self.index@, self.plain@);
        }
        self.hasher.update(data);
        self.file.extend_from_slice(data);
        self.size = self.size + len;
        assert(self.file@ =~= old(self).file@ + data@);
        Ok(len)
    }

    /// Appends `data` to the pending pack and feeds it to the hash; returns
    /// the number of bytes written. Refused where the pack would outgrow the
    /// range of a `u32`.
    pub fn write_data(&mut self, data: &[u8]) -> (r: Result<u32, Error>)
        requires
            old(self).wf(),
        ensures
            final(self).wf(),
            old(self).bytes().len() + data@.len() > u32::MAX ==> r == Err::<u32, Error>(
                Error::InvalidParameter,
            ) && *final(self) == *old(self),
            old(self).bytes().len() + data@.len() <= u32::MAX ==> {
                &&& r == Ok::<u32, Error>(data@.len() as u32)
                &&& final(self).bytes() == old(self).bytes() + data@
                &&& final(self).entries() == old(self).entries()
                &&& final(self).plaintexts() == old(self).plaintexts()
                &&& final(self).blob_count() == old(self).blob_count()
                &&& final(self).created() == old(self).created()
                &&& final(self).key() == old(self).key()
                &&& final(self).limits() == old(self).limits()
            },
    {
        self.append(data)
    }

    fn put_header(&mut self) -> (r: Result<(), Error>)
        requires
            old(self).inv(),
            old(self).ready(),
        ensures
            final(self).inv(),
            r is Ok,
            final(self).file@.len() == old(self).file@.len() + 37 * old(self).index@.len() + 36,
            final(self).file@.take(old(self).file@.len() as int) == old(self).file@,
            is_pack(final(self).key@, final(self).file@, final(self).index@),
            final(self).hasher@ == final(self).file@,
            final(self).key == old(self).key,
            final(self).count == old(self).count,
            final(self).created == old(self).created,
            final(self).index == old(self).index,
            final(self).limits == old(self).limits,
            final(self).plain == old(self).plain,
    {
        let header = serialize_header(self.index.blobs());
        let encrypted = match self.key.encrypt_data(header.as_slice()) {
            Ok(encrypted) => encrypted,
            Err(e) => {
                return Err(e);
            },
        };
        let header_len = encrypted.len() as u32;
        let _ = self.append(encrypted.as_slice());
        let trailer = write_u32_le(header_len);
        let _ = self.append(trailer.as_slice());
        proof {
            let body = old(self).file@;
            let data = self.file@;
            assert(data =~= body + encrypted@ + trailer@);
            assert(data.take(body.len() as int) =~= body);
            assert(header_ciphertext(data, self.index@) =~= encrypted@);
            assert(data.skip(data.len() - 4) =~= trailer@);
        }
        Ok(())
    }

    /// Writes the header of the pending pack and the header's length: the
    /// entries of the blobs in insertion order, encrypted, then the length of
    /// that ciphertext in four bytes. Refused where the packer is not ready.
    pub fn write_header(&mut self) -> (r: Result<(), Error>)
        requires
            old(self).wf(),
        ensures
            final(self).wf(),
            !old(self).ready() ==> r == Err::<(), Error>(Error::InvalidParameter) && *final(self)
                == *old(self),
            old(self).ready() ==> {
                &&& r is Ok
                &&& final(self).bytes().len() == old(self).bytes().len() + 37 * old(
                    self,
                ).entries().len() + 36
                &&& final(self).bytes().take(old(self).bytes().len() as int) == old(self).bytes()
                &&& is_pack(final(self).key(), final(self).bytes(), final(self).entries())
                &&& final(self).entries() == old(self).entries()
                &&& final(self).plaintexts() == old(self).plaintexts()
                &&& final(self).blob_count() == old(self).blob_count()
                &&& final(self).created() == old(self).created()
                &&& final(self).key() == old(self).key()
                &&& final(self).limits() == old(self).limits()
            },
    {
        if !self.is_ready() {
            return Err(Error::InvalidParameter);
        }
        self.put_header()
    }

    fn flush(&mut self) -> (r: Result<Option<Pack>, Error>)
        requires
            old(self).inv(),
        ensures
            final(self).wf(),
            Packer::save_post(*old(self), *final(self), r),
    {
        if self.size == 0 {
            proof {
                if self.ready() {
                    self.index.lemma_wf();
                    lemma_nothing_in_no_bytes(self.index@);
                }
            }
            return Ok(None);
        }
        if !(self.count as usize == self.index.len() && self.size == self.index.total_length()) {
            return Err(Error::InvalidParameter);
        }
        match self.put_header() {
            Ok(()) => {},
            Err(e) => {
                return Err(e);
            },
        }
        let id = self.hasher.finalize();
        self.index.set_id(id);
        let mut index = IndexPack::new();
        std::mem::swap(&mut self.index, &mut index);
        let mut data: Vec<u8> = Vec::new();
        std::mem::swap(&mut self.file, &mut data);
        self.size = 0;
        self.plain = Ghost(Seq::empty());
        Ok(Some(Pack { id, data, index }))
    }

    /// Finishes the pending pack, if it holds anything: writes the header and
    /// its length, takes the hash of all bytes as the id of the pack, and hands
    /// out the bytes with the manifest. The caller stores the bytes and then
    /// publishes the manifest. The packer takes blobs again after a reset.
    pub fn save(&mut self) -> (r: Result<Option<Pack>, Error>)
        requires
            old(self).wf(),
        ensures
            final(self).wf(),
            Packer::save_post(*old(self), *final(self), r),
    {
        self.flush()
    }

    /// The same as [`Packer::save`]: flushes the pending pack at shutdown.
    pub fn finalize(&mut self) -> (r: Result<Option<Pack>, Error>)
        requires
            old(self).wf(),
        ensures
            final(self).wf(),
            Packer::save_post(*old(self), *final(self), r),
    {
        self.save()
    }

    fn restart(&mut self, now: u64)
        requires
            old(self).inv(),
            old(self).index@.len() == 0,
        ensures
            final(self).wf(),
            Packer::reset_post(*old(self), *final(self), now, Ok(())),
            final(self).ready(),
    {
        self.file = Vec::new();
        self.size = 0;
        self.count = 0;
        self.created = now;
        self.hasher.reset();
        self.plain = Ghost(Seq::empty());
        assert(self.index@ =~= Seq::<IndexBlob>::empty());
    }

    /// Makes the packer ready for a new pack that starts at the time `now`: no
    /// bytes, no blobs, a fresh hash. A packer that still holds blobs refuses,
    /// since they would be lost.
    pub fn reset_at(&mut self, now: u64) -> (r: Result<(), Error>)
        requires
            old(self).wf(),
        ensures
            final(self).wf(),
            Packer::reset_post(*old(self), *final(self), now, r),
            r is Ok ==> final(self).ready(),
    {
        if !self.index.is_empty() {
            return Err(Error::InvalidParameter);
        }
        self.restart(now);
        Ok(())
    }

    /// [`Packer::reset_at`] at the time of the system clock.
    pub fn reset(&mut self) -> (r: Result<(), Error>)
        requires
            old(self).wf(),
        ensures
            final(self).wf(),
            exists|now: u64| Packer::reset_post(*old(self), *final(self), now, r),
            r is Ok ==> final(self).ready(),
    {
        let now = clock();
        let r = self.reset_at(now);
        assert(Packer::reset_post(*old(self), *self, now, r));
        r
    }

    /// Adds the blob `data` with the id `id` to the pending pack at the time
    /// `now`, unless the pending pack or `indexer` holds the id already.
    /// Returns whether the blob was added, and the finished pack where the
    /// pending pack became due with it.
    pub fn add_at(
        &mut self,
        indexer: &Indexer,
        data: &[u8],
        id: &Id,
        tpe: BlobType,
        now: u64,
    ) -> (r: Result<(bool, Option<Pack>), Error>)
        requires
            old(self).wf(),
        ensures
            final(self).wf(),
            Packer::add_post(*old(self), *final(self), indexer@, data@, *id, tpe, now, r),
    {
        if !self.is_ready() {
            return Err(Error::InvalidParameter);
        }
        // only add if this blob is not present
        if self.has(id) {
            return Ok((false, None));
        }
        if indexer.has(id) {
            return Ok((false, None));
        }
        if data.len() > 0xffff_ffff {
            return Err(Error::InvalidParameter);
        }
        let need: u64 = self.size as u64 + data.len() as u64 + 32 + 37 * (self.count as u64 + 1)
            + 36;
        if need > 0xffff_ffff {
            return Err(Error::InvalidParameter);
        }
        let offset = self.size;
        let encrypted = match self.key.encrypt_data(data) {
            Ok(encrypted) => encrypted,
            Err(e) => {
                return Err(e);
            },
        };
        let len = match self.append(encrypted.as_slice()) {
            Ok(len) => len,
            Err(e) => {
                return Err(e);
            },
        };
        self.index.add(*id, tpe, offset, len);
        self.count = self.count + 1;
        self.plain = Ghost(self.plain@.push(data@));
        proof {
            let blob = IndexBlob { id: *id, tpe, offset, length: len };
            let file = self.file@;
            assert(file.take(old(self).file@.len() as int) =~= old(self).file@);
            lemma_total_length_push(old(self).index@, blob);
            assert(blob_bytes(file, blob) =~= encrypted@);
            assert forall|i: int| 0 <= i < self.index@.len() implies opened(
                self.key@,
                blob_bytes(file, #[trigger] self.index@[i]),
            ) == Some(self.plain@[i]) by {
                if i < old(self).index@.len() {
                    assert(self.index@[i] == old(self).index@[i]);
                }
            }
        }
        // check if the pack needs to be saved
        if self.count >= self.limits.max_count || self.size >= self.limits.max_size || (now
            >= self.created && now - self.created >= self.limits.max_age) {
            let ghost full = *self;
            let pack = match self.flush() {
                Ok(pack) => pack,
                Err(e) => {
                    return Err(e);
                },
            };
            self.restart(now);
            proof {
                let p = pack->0;
                assert(p.data@.take(old(self).file@.len() as int) =~= p.data@.take(
                    full.file@.len() as int,
                ).take(old(self).file@.len() as int));
            }
            return Ok((true, pack));
        }
        Ok((true, None))
    }

    /// [`Packer::add_at`] at the time of the system clock.
    pub fn add(&mut self, indexer: &Indexer, data: &[u8], id: &Id, tpe: BlobType) -> (r: Result<
        (bool, Option<Pack>),
        Error,
    >)
        requires
            old(self).wf(),
        ensures
            final(self).wf(),
            exists|now: u64|
                Packer::add_post(*old(self), *final(self), indexer@, data@, *id, tpe, now, r),
    {
        let now = clock();
        let r = self.add_at(indexer, data, id, tpe, now);
        assert(Packer::add_post(*old(self), *self, indexer@, data@, *id, tpe, now, r));
        r
    }
}

/// Blobs that end within zero bytes are no blobs: none is empty.
proof fn lemma_nothing_in_no_bytes(blobs: Seq<IndexBlob>)
    requires
        crate::index::well_formed(blobs),
        total_length(blobs) == 0,
    ensures
        blobs.len() == 0,
{
    if blobs.len() > 0 {
        lemma_total_length_take(blobs, 0);
        lemma_total_length_take(blobs, 1);
        assert(blobs[0].length > 0);
    }
}

} // verus!
