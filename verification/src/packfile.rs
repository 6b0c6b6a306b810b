//! The layout of a pack: the ciphertexts of the blobs, the encrypted header
//! with one entry for each blob, and the length of the encrypted header in
//! four bytes.

use crate::blob::BlobType;
use crate::crypto::opened;
use crate::crypto::Key;
use crate::error::Error;
use crate::id::Id;
use crate::index::lemma_total_length_push;
use crate::index::lemma_total_length_take;
use crate::index::offsets_consistent;
use crate::index::total_length;
use crate::index::IndexBlob;
use vstd::prelude::*;
use vstd::slice::slice_subrange;

verus! {

/// The four bytes of `n`, least significant first.
pub open spec fn u32_le(n: u32) -> Seq<u8> {
    seq![
        (n % 256) as u8,
        ((n / 256) % 256) as u8,
        ((n / 65536) % 256) as u8,
        ((n / 16777216) % 256) as u8,
    ]
}

/// The number whose bytes, least significant first, are the first four of `b`.
pub open spec fn u32_from_le(b: Seq<u8>) -> int {
    b[0] + 256 * b[1] + 65536 * b[2] + 16777216 * b[3]
}

/// The header entry of a blob: its type as one byte, the length of its
/// ciphertext as four bytes, least significant first, and the 32 bytes of its id.
pub open spec fn entry_bytes(blob: IndexBlob) -> Seq<u8> {
    seq![blob.tpe.code()] + u32_le(blob.length) + blob.id@
}

/// The plaintext of a pack header: the entries of the blobs in insertion order.
pub open spec fn header_bytes(blobs: Seq<IndexBlob>) -> Seq<u8>
    decreases blobs.len(),
{
    if blobs.len() == 0 {
        Seq::empty()
    } else {
        header_bytes(blobs.drop_last()) + entry_bytes(blobs.last())
    }
}

/// The bytes of a pack that hold the ciphertext of `blob`.
pub open spec fn blob_bytes(data: Seq<u8>, blob: IndexBlob) -> Seq<u8> {
    data.subrange(blob.offset as int, blob.offset + blob.length)
}

/// The bytes of a pack between its blobs and its trailer: the encrypted header.
pub open spec fn header_ciphertext(data: Seq<u8>, blobs: Seq<IndexBlob>) -> Seq<u8> {
    data.subrange(total_length(blobs), data.len() - 4)
}

/// `data` is a pack with the blobs `blobs`, written under `key`: the
/// ciphertexts of the blobs, then the encrypted header, then the length of
/// the encrypted header in four bytes. So the sum of the blob lengths, the
/// header length and 4 is the size of the pack.
pub open spec fn is_pack(key: Seq<u8>, data: Seq<u8>, blobs: Seq<IndexBlob>) -> bool {
    &&& total_length(blobs) + 4 <= data.len() <= u32::MAX
    &&& data.skip(data.len() - 4) == u32_le((data.len() - 4 - total_length(blobs)) as u32)
    &&& opened(key, header_ciphertext(data, blobs)) == Some(header_bytes(blobs))
}

/// Every blob of `blobs` decrypts under `key` to the plaintext at its place in `plain`.
pub open spec fn blobs_hold(
    key: Seq<u8>,
    data: Seq<u8>,
    blobs: Seq<IndexBlob>,
    plain: Seq<Seq<u8>>,
) -> bool {
    &&& plain.len() == blobs.len()
    &&& forall|i: int|
        0 <= i < blobs.len() ==> opened(key, blob_bytes(data, #[trigger] blobs[i])) == Some(
            plain[i],
        )
}

/// A header has 37 bytes for each blob.
pub proof fn lemma_header_len(blobs: Seq<IndexBlob>)
    ensures
        header_bytes(blobs).len() == 37 * blobs.len(),
    decreases blobs.len(),
{
    if blobs.len() > 0 {
        lemma_header_len(blobs.drop_last());
    }
}

/// The four bytes of a number give the number back.
pub proof fn lemma_u32_le_round_trip(n: u32)
    ensures
        u32_le(n).len() == 4,
        u32_from_le(u32_le(n)) == n,
{
}

/// A number is known by its four bytes.
pub proof fn lemma_u32_le_injective(a: u32, b: u32)
    requires
        u32_le(a) == u32_le(b),
    ensures
        a == b,
{
    lemma_u32_le_round_trip(a);
    lemma_u32_le_round_trip(b);
}

/// Bytes that are appended to a pack leave its blobs as they are.
pub proof fn lemma_blobs_hold_append(
    key: Seq<u8>,
    data: Seq<u8>,
    more: Seq<u8>,
    blobs: Seq<IndexBlob>,
    plain: Seq<Seq<u8>>,
)
    requires
        blobs_hold(key, data, blobs, plain),
        crate::index::offsets_consistent(blobs),
        total_length(blobs) <= data.len(),
    ensures
        blobs_hold(key, data + more, blobs, plain),
{
    assert forall|i: int| 0 <= i < blobs.len() implies opened(
        key,
        blob_bytes(data + more, #[trigger] blobs[i]),
    ) == Some(plain[i]) by {
        lemma_total_length_take(blobs, i);
        lemma_total_length_take(blobs, i + 1);
        assert(blob_bytes(data + more, blobs[i]) =~= blob_bytes(data, blobs[i]));
    }
}

/// The last four bytes of a pack, read as a number with the least significant
/// byte first, are the length of the encrypted header; and the size of the
/// pack less these four bytes and less the header is the total length of the
/// ciphertexts of the blobs.
pub proof fn lemma_trailer(key: Seq<u8>, data: Seq<u8>, blobs: Seq<IndexBlob>)
    requires
        is_pack(key, data, blobs),
    ensures
        u32_from_le(data.skip(data.len() - 4)) == header_ciphertext(data, blobs).len(),
        data.len() - 4 - header_ciphertext(data, blobs).len() == total_length(blobs),
{
    lemma_total_length_take(blobs, 0);
    lemma_u32_le_round_trip((data.len() - 4 - total_length(blobs)) as u32);
}

/// Reading the bytes of a blob at its offset in a pack and decrypting them
/// gives the plaintext of the blob; the bytes lie among the blobs of the pack.
pub proof fn lemma_round_trip(
    key: Seq<u8>,
    data: Seq<u8>,
    blobs: Seq<IndexBlob>,
    plain: Seq<Seq<u8>>,
    i: int,
)
    requires
        blobs_hold(key, data, blobs, plain),
        crate::index::offsets_consistent(blobs),
        0 <= i < blobs.len(),
    ensures
        blobs[i].offset + blobs[i].length <= total_length(blobs),
        opened(key, data.subrange(blobs[i].offset as int, blobs[i].offset + blobs[i].length))
            == Some(plain[i]),
{
    lemma_total_length_take(blobs, i);
    lemma_total_length_take(blobs, i + 1);
}

/// The four bytes of `n`, least significant first.
pub fn write_u32_le(n: u32) -> (b: Vec<u8>)
    ensures
        b@ == u32_le(n),
{
    let mut b: Vec<u8> = Vec::new();
    b.push((n % 256) as u8);
    b.push(((n / 256) % 256) as u8);
    b.push(((n / 65536) % 256) as u8);
    b.push(((n / 16777216) % 256) as u8);
    assert(b@ =~= u32_le(n));
    b
}

/// The number that four bytes hold, least significant first.
pub fn read_u32_le(b: &[u8]) -> (n: u32)
    requires
        b@.len() == 4,
    ensures
        n == u32_from_le(b@),
        u32_le(n) == b@,
{
    let n: u32 = (b[0] as u32) + 256 * (b[1] as u32) + 65536 * (b[2] as u32) + 16777216 * (
    b[3] as u32);
    proof {
        let b0 = b@[0] as int;
        let b1 = b@[1] as int;
        let b2 = b@[2] as int;
        let b3 = b@[3] as int;
        let m = n as int;
        assert(m == b0 + 256 * (b1 + 256 * b2 + 65536 * b3));
        assert(m % 256 == b0 && m / 256 == b1 + 256 * b2 + 65536 * b3);
        assert(m == (b0 + 256 * b1) + 65536 * (b2 + 256 * b3));
        assert(m / 65536 == b2 + 256 * b3);
        assert(m == (b0 + 256 * b1 + 65536 * b2) + 16777216 * b3);
        assert(m / 16777216 == b3);
        assert(u32_le(n) =~= b@);
    }
    n
}

/// The plaintext of the header of a pack that holds `blobs`.
pub fn serialize_header(blobs: &Vec<IndexBlob>) -> (header: Vec<u8>)
    ensures
        header@ == header_bytes(blobs@),
        header@.len() == 37 * blobs@.len(),
{
    let mut header: Vec<u8> = Vec::new();
    let mut i: usize = 0;
    assert(blobs@.take(0) =~= Seq::<IndexBlob>::empty());
    while i < blobs.len()
        invariant
            i <= blobs@.len(),
            header@ == header_bytes(blobs@.take(i as int)),
        decreases blobs@.len() - i,
    {
        let blob = &blobs[i];
        let ghost before = header@;
        header.push(blob.tpe.to_byte());
        let len = write_u32_le(blob.length);
        header.extend_from_slice(len.as_slice());
        header.extend_from_slice(blob.id.bytes.as_slice());
        proof {
            assert(blobs@.take(i + 1).drop_last() =~= blobs@.take(i as int));
            assert(blobs@.take(i + 1).last() == blobs@[i as int]);
            assert(header@ =~= before + entry_bytes(blobs@[i as int]));
        }
        i += 1;
    }
    proof {
        assert(blobs@.take(i as int) =~= blobs@);
        lemma_header_len(blobs@);
    }
    header
}

/// `blobs` is what the header plaintext `bytes` lists: the header of `blobs`
/// is `bytes`, every blob starts where the blobs before it end, and the blobs
/// end within the range of a `u32`.
pub open spec fn header_lists(bytes: Seq<u8>, blobs: Seq<IndexBlob>) -> bool {
    &&& header_bytes(blobs) == bytes
    &&& offsets_consistent(blobs)
    &&& total_length(blobs) <= u32::MAX
}

/// `blobs` is what the pack `data` holds under `key`.
pub open spec fn pack_lists(key: Seq<u8>, data: Seq<u8>, blobs: Seq<IndexBlob>) -> bool {
    is_pack(key, data, blobs) && offsets_consistent(blobs)
}

/// The entry of the blob at index `k` lies at byte `37 * k` of the header.
pub proof fn lemma_header_entry(blobs: Seq<IndexBlob>, k: int)
    requires
        0 <= k < blobs.len(),
    ensures
        header_bytes(blobs).len() == 37 * blobs.len(),
        header_bytes(blobs).subrange(37 * k, 37 * k + 37) == entry_bytes(blobs[k]),
    decreases blobs.len(),
{
    lemma_header_len(blobs);
    lemma_header_len(blobs.drop_last());
    if k == blobs.len() - 1 {
        assert(header_bytes(blobs).subrange(37 * k, 37 * k + 37) =~= entry_bytes(blobs[k]));
    } else {
        lemma_header_entry(blobs.drop_last(), k);
        assert(header_bytes(blobs).subrange(37 * k, 37 * k + 37) =~= header_bytes(
            blobs.drop_last(),
        ).subrange(37 * k, 37 * k + 37));
    }
}

/// The header of the first `i` blobs is the first `37 * i` bytes of the header.
pub proof fn lemma_header_take(blobs: Seq<IndexBlob>, i: int)
    requires
        0 <= i <= blobs.len(),
    ensures
        header_bytes(blobs.take(i)) == header_bytes(blobs).take(37 * i),
    decreases blobs.len(),
{
    lemma_header_len(blobs);
    if i == blobs.len() {
        assert(blobs.take(i) =~= blobs);
        assert(header_bytes(blobs).take(37 * i) =~= header_bytes(blobs));
    } else {
        lemma_header_len(blobs.drop_last());
        lemma_header_take(blobs.drop_last(), i);
        assert(blobs.drop_last().take(i) =~= blobs.take(i));
        assert(header_bytes(blobs.drop_last()).take(37 * i) =~= header_bytes(blobs).take(37 * i));
    }
}

/// Blobs with one header have the same types, lengths and ids.
proof fn lemma_header_fields(a: Seq<IndexBlob>, b: Seq<IndexBlob>, k: int)
    requires
        header_bytes(a) == header_bytes(b),
        0 <= k < a.len(),
    ensures
        a.len() == b.len(),
        a[k].tpe == b[k].tpe,
        a[k].length == b[k].length,
        a[k].id == b[k].id,
{
    lemma_header_len(a);
    lemma_header_len(b);
    lemma_header_entry(a, k);
    lemma_header_entry(b, k);
    lemma_entry_fields(a[k], b[k]);
}

/// Blobs with one header have the same total length, prefix by prefix.
proof fn lemma_header_totals(a: Seq<IndexBlob>, b: Seq<IndexBlob>, i: int)
    requires
        header_bytes(a) == header_bytes(b),
        0 <= i <= a.len(),
    ensures
        a.len() == b.len(),
        total_length(a.take(i)) == total_length(b.take(i)),
    decreases i,
{
    lemma_header_len(a);
    lemma_header_len(b);
    if i == 0 {
        assert(a.take(0) =~= b.take(0));
    } else {
        lemma_header_totals(a, b, i - 1);
        lemma_header_fields(a, b, i - 1);
        lemma_total_length_take(a, i - 1);
        lemma_total_length_take(b, i - 1);
    }
}

/// A header lists one sequence of blobs only.
pub proof fn lemma_header_lists_one(bytes: Seq<u8>, a: Seq<IndexBlob>, b: Seq<IndexBlob>)
    requires
        header_lists(bytes, a),
        header_lists(bytes, b),
    ensures
        a == b,
{
    lemma_header_len(a);
    lemma_header_len(b);
    assert forall|k: int| 0 <= k < a.len() implies a[k] == b[k] by {
        lemma_header_fields(a, b, k);
        lemma_header_totals(a, b, k);
    }
    assert(a =~= b);
}

/// What a header that continues the blobs `out` says of the next blob.
proof fn lemma_header_next(bytes: Seq<u8>, blobs: Seq<IndexBlob>, out: Seq<IndexBlob>, i: int)
    requires
        header_lists(bytes, blobs),
        0 <= i,
        37 * i + 37 <= bytes.len(),
        out.len() == i,
        header_bytes(out) == bytes.take(37 * i),
    ensures
        i < blobs.len(),
        entry_bytes(blobs[i]) == bytes.subrange(37 * i, 37 * i + 37),
        total_length(blobs.take(i + 1)) == total_length(out) + blobs[i].length,
        total_length(out) + blobs[i].length <= u32::MAX,
{
    lemma_header_len(blobs);
    lemma_header_entry(blobs, i);
    lemma_header_take(blobs, i);
    lemma_header_totals(blobs.take(i), out, i);
    assert(blobs.take(i).take(i) =~= blobs.take(i));
    assert(out.take(i) =~= out);
    lemma_total_length_take(blobs, i);
    lemma_total_length_take(blobs, i + 1);
}

/// Blobs with one entry have the same type, length and id.
proof fn lemma_entry_fields(a: IndexBlob, b: IndexBlob)
    requires
        entry_bytes(a) == entry_bytes(b),
    ensures
        a.tpe == b.tpe,
        a.length == b.length,
        a.id == b.id,
{
    let ea = entry_bytes(a);
    let eb = entry_bytes(b);
    assert(ea[0] == a.tpe.code() && eb[0] == b.tpe.code());
    assert(ea.subrange(1, 5) =~= u32_le(a.length));
    assert(eb.subrange(1, 5) =~= u32_le(b.length));
    lemma_u32_le_injective(a.length, b.length);
    assert(ea.subrange(5, 37) =~= a.id@);
    assert(eb.subrange(5, 37) =~= b.id@);
    assert(a.id.bytes =~= b.id.bytes);
}

/// The header of the blobs read so far and the entry of the next one make the
/// header of the blobs with the next one.
proof fn lemma_header_push(bytes: Seq<u8>, out: Seq<IndexBlob>, blob: IndexBlob, i: int)
    requires
        0 <= i,
        37 * i + 37 <= bytes.len(),
        header_bytes(out) == bytes.take(37 * i),
        entry_bytes(blob) == bytes.subrange(37 * i, 37 * i + 37),
    ensures
        header_bytes(out.push(blob)) == bytes.take(37 * (i + 1)),
{
    assert(out.push(blob).drop_last() =~= out);
    assert(bytes.take(37 * i) + bytes.subrange(37 * i, 37 * i + 37) =~= bytes.take(37 * (i + 1)));
}

/// A blob that starts where the others end keeps the offsets consistent.
proof fn lemma_offsets_push(out: Seq<IndexBlob>, blob: IndexBlob)
    requires
        offsets_consistent(out),
        blob.offset == total_length(out),
    ensures
        offsets_consistent(out.push(blob)),
{
    let after = out.push(blob);
    assert forall|k: int| 0 <= k < after.len() implies (#[trigger] after[k]).offset
        == total_length(after.take(k)) by {
        if k < out.len() {
            assert(after.take(k) =~= out.take(k));
        } else {
            assert(after.take(k) =~= out);
        }
    }
}

/// Reads one entry of a pack header for a blob that starts at `offset`;
/// `None` where the type is unknown.
fn parse_entry(entry: &[u8], offset: u32) -> (r: Option<IndexBlob>)
    requires
        entry@.len() == 37,
    ensures
        r is Some ==> entry_bytes(r->0) == entry@ && r->0.offset == offset,
        r is None ==> BlobType::of_code(entry@[0]) is None,
{
    let length = read_u32_le(slice_subrange(entry, 1, 5));
    let tpe = BlobType::from_byte(entry[0]);
    let id = Id::from_slice(slice_subrange(entry, 5, 37));
    match (tpe, id) {
        (Some(tpe), Some(id)) => {
            let blob = IndexBlob { id, tpe, offset, length };
            assert(entry_bytes(blob) =~= entry@);
            Some(blob)
        },
        _ => None,
    }
}

/// Reads the plaintext of a pack header: the blobs that it lists, each at the
/// offset where the blobs before it end. The error is `FormatError` where the
/// bytes are no header: their number is no multiple of 37, a type is
/// unknown, or the blobs end beyond the range of a `u32`.
pub fn parse_header(bytes: &[u8]) -> (r: Result<Vec<IndexBlob>, Error>)
    ensures
        r is Ok ==> header_lists(bytes@, r->Ok_0@),
        r is Err ==> r == Err::<Vec<IndexBlob>, Error>(Error::FormatError) && forall|
            blobs: Seq<IndexBlob>,
        |
            !header_lists(bytes@, blobs),
{
    if bytes.len() % 37 != 0 {
        proof {
            assert forall|blobs: Seq<IndexBlob>| !header_lists(bytes@, blobs) by {
                lemma_header_len(blobs);
            }
        }
        return Err(Error::FormatError);
    }
    let n = bytes.len() / 37;
    let mut out: Vec<IndexBlob> = Vec::new();
    let mut total: u32 = 0;
    let mut i: usize = 0;
    assert(bytes@.take(0) =~= header_bytes(out@));
    while i < n
        invariant
            i <= n,
            bytes@.len() == 37 * n,
            37 * n <= usize::MAX,
            out@.len() == i,
            header_bytes(out@) == bytes@.take(37 * i),
            offsets_consistent(out@),
            total == total_length(out@),
        decreases n - i,
    {
        assert(37 * i + 37 <= 37 * n);
        let at = 37 * i;
        let entry = slice_subrange(bytes, at, at + 37);
        let blob = match parse_entry(entry, total) {
            Some(blob) => blob,
            None => {
                proof {
                    assert forall|blobs: Seq<IndexBlob>| !header_lists(bytes@, blobs) by {
                        if header_lists(bytes@, blobs) {
                            lemma_header_next(bytes@, blobs, out@, i as int);
                            assert(entry_bytes(blobs[i as int])[0] == entry@[0]);
                        }
                    }
                }
                return Err(Error::FormatError);
            },
        };
        if blob.length > u32::MAX - total {
            proof {
                assert forall|blobs: Seq<IndexBlob>| !header_lists(bytes@, blobs) by {
                    if header_lists(bytes@, blobs) {
                        lemma_header_next(bytes@, blobs, out@, i as int);
                        lemma_entry_fields(blobs[i as int], blob);
                    }
                }
            }
            return Err(Error::FormatError);
        }
        proof {
            lemma_header_push(bytes@, out@, blob, i as int);
            lemma_offsets_push(out@, blob);
            lemma_total_length_push(out@, blob);
        }
        out.push(blob);
        total = total + blob.length;
        i += 1;
    }
    assert(bytes@.take(37 * n) =~= bytes@);
    Ok(out)
}

/// A pack holds one sequence of blobs only.
pub proof fn lemma_pack_lists_one(key: Seq<u8>, data: Seq<u8>, a: Seq<IndexBlob>, b: Seq<IndexBlob>)
    requires
        pack_lists(key, data, a),
        pack_lists(key, data, b),
    ensures
        a == b,
{
    lemma_total_length_take(a, 0);
    lemma_total_length_take(b, 0);
    lemma_u32_le_injective(
        (data.len() - 4 - total_length(a)) as u32,
        (data.len() - 4 - total_length(b)) as u32,
    );
    lemma_header_lists_one(header_bytes(a), a, b);
}

/// The encrypted header of the pack `data`, as the last four bytes of the pack
/// give its length; `None` where the pack is shorter than four bytes or than
/// the header, or larger than the range of a `u32`.
pub open spec fn sealed_header(data: Seq<u8>) -> Option<Seq<u8>> {
    if 4 <= data.len() <= u32::MAX && u32_from_le(data.skip(data.len() - 4)) + 4 <= data.len() {
        Some(
            data.subrange(data.len() - 4 - u32_from_le(data.skip(data.len() - 4)), data.len() - 4),
        )
    } else {
        None
    }
}

/// Reads the manifest of a pack: takes the length of the encrypted header from
/// the last four bytes, decrypts the header and lists its blobs. A pack
/// whose size is not the sum of its blobs, its header and the four bytes, or
/// whose header is malformed, is a `FormatError`; a header that the key does
/// not authenticate is a `CryptoError`.
pub fn read_pack(key: &Key, data: &[u8]) -> (r: Result<Vec<IndexBlob>, Error>)
    ensures
        r is Ok ==> pack_lists(key@, data@, r->Ok_0@),
        r is Err ==> forall|blobs: Seq<IndexBlob>| !pack_lists(key@, data@, blobs),
        r is Err ==> r->Err_0 == if sealed_header(data@) is Some && opened(
            key@,
            sealed_header(data@)->0,
        ) is None {
            Error::CryptoError
        } else {
            Error::FormatError
        },
{
    let size = data.len();
    if size < 4 || size > 0xffff_ffff {
        proof {
            assert forall|blobs: Seq<IndexBlob>| !pack_lists(key@, data@, blobs) by {
                lemma_total_length_take(blobs, 0);
            }
        }
        return Err(Error::FormatError);
    }
    let trailer = slice_subrange(data, size - 4, size);
    assert(trailer@ =~= data@.skip(size - 4));
    let header_len = read_u32_le(trailer) as usize;
    proof {
        assert forall|blobs: Seq<IndexBlob>| pack_lists(key@, data@, blobs) implies size - 4
            - total_length(blobs) == header_len && header_ciphertext(data@, blobs)
            == data@.subrange(size - 4 - header_len, size - 4) by {
            lemma_total_length_take(blobs, 0);
            lemma_u32_le_round_trip((size - 4 - total_length(blobs)) as u32);
        }
    }
    if header_len > size - 4 {
        return Err(Error::FormatError);
    }
    let sealed = slice_subrange(data, size - 4 - header_len, size - 4);
    let header = match key.decrypt_data(sealed) {
        Ok(header) => header,
        Err(_) => {
            return Err(Error::CryptoError);
        },
    };
    let blobs = match parse_header(header.as_slice()) {
        Ok(blobs) => blobs,
        Err(_) => {
            proof {
                assert forall|other: Seq<IndexBlob>| !pack_lists(key@, data@, other) by {
                    if pack_lists(key@, data@, other) {
                        lemma_total_length_take(other, 0);
                        assert(header_lists(header@, other));
                    }
                }
            }
            return Err(Error::FormatError);
        },
    };
    proof {
        assert forall|other: Seq<IndexBlob>| pack_lists(key@, data@, other) implies other
            == blobs@ by {
            lemma_total_length_take(other, 0);
            lemma_header_lists_one(header@, other, blobs@);
        }
    }
    let mut total: usize = 0;
    let mut i: usize = 0;
    assert(blobs@.take(0) =~= Seq::<IndexBlob>::empty());
    while i < blobs.len()
        invariant
            i <= blobs@.len(),
            total == total_length(blobs@.take(i as int)),
            total_length(blobs@) <= u32::MAX,
        decreases blobs@.len() - i,
    {
        proof {
            lemma_total_length_take(blobs@, i as int);
            lemma_total_length_take(blobs@, i + 1);
        }
        total = total + blobs[i].length as usize;
        i += 1;
    }
    assert(blobs@.take(i as int) =~= blobs@);
    if total != size - 4 - header_len {
        return Err(Error::FormatError);
    }
    assert(header_ciphertext(data@, blobs@) =~= sealed@);
    assert(trailer@ == u32_le(header_len as u32));
    Ok(blobs)
}

/// Reads a blob from a pack: decrypts the bytes at its offset. A blob that
/// does not lie in the pack is a `FormatError`; bytes that the key does not
/// authenticate are a `CryptoError`.
pub fn read_blob(key: &Key, data: &[u8], blob: &IndexBlob) -> (r: Result<Vec<u8>, Error>)
    ensures
        blob.offset + blob.length > data@.len() ==> r == Err::<Vec<u8>, Error>(Error::FormatError),
        blob.offset + blob.length <= data@.len() ==> match opened(key@, blob_bytes(data@, *blob)) {
            Some(plain) => r is Ok && r->Ok_0@ == plain,
            None => r == Err::<Vec<u8>, Error>(Error::CryptoError),
        },
{
    let from = blob.offset as usize;
    if blob.length as usize > data.len() || from > data.len() - blob.length as usize {
        return Err(Error::FormatError);
    }
    key.decrypt_data(slice_subrange(data, from, from + blob.length as usize))
}

} // verus!
