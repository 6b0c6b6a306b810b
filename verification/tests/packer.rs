use rustic::blob::packer::{Limits, Pack, Packer, MAX_AGE, MAX_COUNT, MAX_SIZE};
use rustic::blob::BlobType;
use rustic::crypto::{hash, Key};
use rustic::error::Error;
use rustic::id::Id;
use rustic::index::{IndexBlob, Indexer};
use rustic::packfile::{read_blob as read_from, read_pack, serialize_header};

fn key() -> Key {
    Key::from_slice(b"This is an example of a very secret key. Keep it always secret!!")
}

fn limits(max_size: u32, max_count: u32, max_age: u64) -> Limits {
    Limits { max_size, max_count, max_age }
}

/// Holds the pack to what a reader expects of it, and returns the plaintext of its header.
fn check_pack(key: &Key, pack: &Pack) -> Vec<u8> {
    let size = pack.data.len();
    let blobs = pack.index.blobs();
    assert_eq!(pack.index.id(), Some(pack.id));
    assert_eq!(pack.id, hash(&pack.data));
    let mut trailer = [0u8; 4];
    trailer.copy_from_slice(&pack.data[size - 4..]);
    let header_len = u32::from_le_bytes(trailer) as usize;
    let total: usize = blobs.iter().map(|b| b.length as usize).sum();
    assert_eq!(total + header_len + 4, size);
    assert_eq!(header_len, 37 * blobs.len() + 32);
    let mut offset = 0;
    for blob in blobs {
        assert_eq!(blob.offset, offset);
        offset += blob.length;
    }
    let header = key.decrypt_data(&pack.data[total..size - 4]).unwrap();
    assert_eq!(header, serialize_header(blobs));
    assert_eq!(read_pack(key, &pack.data).as_ref(), Ok(blobs));
    header
}

fn read_blob(key: &Key, pack: &Pack, blob: &IndexBlob) -> Vec<u8> {
    let from = blob.offset as usize;
    let to = from + blob.length as usize;
    let plain = key.decrypt_data(&pack.data[from..to]).unwrap();
    assert_eq!(read_from(key, &pack.data, blob).as_ref(), Ok(&plain));
    plain
}

#[test]
fn standard_thresholds() {
    assert_eq!(MAX_SIZE, 4 * 1024 * 1024);
    assert_eq!(MAX_COUNT, 10_000);
    assert_eq!(MAX_AGE, 300);
    let standard = Limits::default();
    assert_eq!(standard.max_size, 4_194_304);
    assert_eq!(standard.max_count, 10_000);
    assert_eq!(standard.max_age, 300);
}

#[test]
fn single_blob_manual_finalize() {
    let key = key();
    let mut indexer = Indexer::new();
    let mut packer = Packer::new(key);
    let blob = b"0123456789".to_vec();
    let id = hash(&blob);
    let r = packer.add(&indexer, &blob, &id, BlobType::Data).unwrap();
    assert!(r.0);
    assert!(r.1.is_none());
    assert_eq!(packer.size(), 42);
    assert_eq!(packer.count(), 1);

    let pack = packer.finalize().unwrap().unwrap();
    assert_eq!(
        pack.index.blobs().clone(),
        vec![IndexBlob { id, tpe: BlobType::Data, offset: 0, length: 42 }]
    );
    let header = check_pack(&key, &pack);
    let mut expected = vec![0u8, 42, 0, 0, 0];
    expected.extend_from_slice(&id.bytes);
    assert_eq!(header, expected);
    assert_eq!(pack.data.len(), 42 + 69 + 4);
    assert_eq!(&pack.data[pack.data.len() - 4..], &[69u8, 0, 0, 0]);
    assert_eq!(read_blob(&key, &pack, &pack.index.blobs()[0]), blob);

    indexer.add(pack.index);
    assert!(indexer.has(&id));
}

#[test]
fn dedup_within_a_packer() {
    let indexer = Indexer::new();
    let mut packer = Packer::new(key());
    let blob = b"0123456789".to_vec();
    let id = hash(&blob);
    let first = packer.add(&indexer, &blob, &id, BlobType::Data).unwrap();
    let size = packer.size();
    let second = packer.add(&indexer, &blob, &id, BlobType::Data).unwrap();
    assert!(first.0);
    assert!(!second.0);
    assert!(second.1.is_none());
    assert_eq!(packer.index().len(), 1);
    assert_eq!(packer.count(), 1);
    assert_eq!(packer.size(), size);
    assert!(packer.has(&id));
    let pack = packer.finalize().unwrap().unwrap();
    assert_eq!(pack.index.len(), 1);
}

#[test]
fn dedup_across_packers() {
    let mut indexer = Indexer::new();
    let blob = b"0123456789".to_vec();
    let id = hash(&blob);

    let mut a = Packer::new(key());
    assert!(a.add(&indexer, &blob, &id, BlobType::Data).unwrap().0);
    let pack = a.finalize().unwrap().unwrap();
    indexer.add(pack.index);

    let mut b = Packer::new(key());
    let r = b.add(&indexer, &blob, &id, BlobType::Data).unwrap();
    assert!(!r.0);
    assert!(r.1.is_none());
    assert_eq!(b.size(), 0);
    assert!(b.finalize().unwrap().is_none());
}

#[test]
fn size_triggered_flush() {
    let key = key();
    let mut indexer = Indexer::new();
    let mut packer = Packer::new(key);
    let mib = 1024 * 1024;
    let mut packs = Vec::new();
    let mut flushed_at = Vec::new();
    for i in 0..5u8 {
        let blob = vec![i; mib];
        let id = hash(&blob);
        let r = packer.add(&indexer, &blob, &id, BlobType::Data).unwrap();
        assert!(r.0);
        if let Some(pack) = r.1 {
            flushed_at.push(i);
            check_pack(&key, &pack);
            packs.push(pack.data.len());
            assert_eq!(pack.index.len(), 4);
            indexer.add(pack.index);
        }
    }
    assert_eq!(flushed_at, vec![3]);
    assert_eq!(packer.count(), 1);
    let last = packer.finalize().unwrap().unwrap();
    check_pack(&key, &last);
    assert_eq!(last.index.len(), 1);
    assert_eq!(read_blob(&key, &last, &last.index.blobs()[0]), vec![4u8; mib]);
    packs.push(last.data.len());
    assert_eq!(packs.len(), 2);
    let overhead_first = 37 * 4 + 32 + 4;
    let overhead_second = 37 + 32 + 4;
    assert_eq!(packs[0], 4 * (mib + 32) + overhead_first);
    assert_eq!(packs[1], mib + 32 + overhead_second);
    assert_eq!(packs[0] + packs[1], 5 * mib + 5 * 32 + overhead_first + overhead_second);
    // the fourth blob took the first pack beyond the threshold of size
    assert!(packs[0] > MAX_SIZE as usize + overhead_first);
    assert!(packs[0] - (mib + 32) < MAX_SIZE as usize);
}

#[test]
fn a_pack_that_lands_on_the_threshold_is_no_larger() {
    let key = key();
    let indexer = Indexer::new();
    let mut packer = Packer::with_limits(key, limits(100, 1000, 300), 0);
    let r = packer.add_at(&indexer, &[1u8; 18], &hash(&[1u8; 18]), BlobType::Data, 0).unwrap();
    assert!(r.1.is_none());
    assert_eq!(packer.size(), 50);
    let r = packer.add_at(&indexer, &[2u8; 17], &hash(&[2u8; 17]), BlobType::Data, 0).unwrap();
    assert!(r.1.is_none());
    assert_eq!(packer.size(), 99);
    let mut other = Packer::with_limits(key, limits(100, 1000, 300), 0);
    other.add_at(&indexer, &[1u8; 18], &hash(&[1u8; 18]), BlobType::Data, 0).unwrap();
    let r = other.add_at(&indexer, &[2u8; 18], &hash(&[2u8; 18]), BlobType::Data, 0).unwrap();
    let pack = r.1.unwrap();
    assert_eq!(pack.data.len(), 100 + (2 * 37 + 32) + 4);
    check_pack(&key, &pack);
    assert_eq!(other.size(), 0);
    assert!(other.is_ready());
}

#[test]
fn count_triggered_flush() {
    let key = key();
    let indexer = Indexer::new();
    let mut packer = Packer::with_limits(key, limits(1 << 20, 3, 300), 1000);
    let mut emitted = Vec::new();
    for i in 0..7u8 {
        let blob = vec![i; 10];
        let r = packer.add_at(&indexer, &blob, &hash(&blob), BlobType::Tree, 1000).unwrap();
        assert!(r.0);
        if let Some(pack) = r.1 {
            assert!(pack.index.len() <= 3);
            check_pack(&key, &pack);
            emitted.push((i, pack.index.len()));
        }
    }
    assert_eq!(emitted, vec![(2, 3), (5, 3)]);
    assert_eq!(packer.count(), 1);
}

#[test]
fn age_triggered_flush() {
    let indexer = Indexer::new();
    let mut packer = Packer::with_limits(key(), limits(1 << 20, 100, 300), 1000);
    let r = packer.add_at(&indexer, b"one", &hash(b"one"), BlobType::Data, 1299).unwrap();
    assert!(r.0 && r.1.is_none());
    let r = packer.add_at(&indexer, b"two", &hash(b"two"), BlobType::Data, 1300).unwrap();
    assert!(r.0);
    let pack = r.1.unwrap();
    assert_eq!(pack.index.len(), 2);
    // the new pack starts at the time of the flush
    let r = packer.add_at(&indexer, b"three", &hash(b"three"), BlobType::Data, 1599).unwrap();
    assert!(r.0 && r.1.is_none());
    let r = packer.add_at(&indexer, b"four", &hash(b"four"), BlobType::Data, 1600).unwrap();
    assert!(r.1.is_some());
}

#[test]
fn a_clock_that_went_back_triggers_nothing() {
    let indexer = Indexer::new();
    let mut packer = Packer::with_limits(key(), limits(1 << 20, 100, 300), 1000);
    let r = packer.add_at(&indexer, b"one", &hash(b"one"), BlobType::Data, 5).unwrap();
    assert!(r.0 && r.1.is_none());
}

#[test]
fn save_of_nothing_emits_nothing() {
    let mut packer = Packer::new(key());
    assert!(packer.save().unwrap().is_none());
    assert!(packer.finalize().unwrap().is_none());
    assert_eq!(packer.size(), 0);
    assert_eq!(packer.count(), 0);
    assert!(packer.is_ready());
    assert!(packer.index().is_empty());
}

#[test]
fn save_then_save_is_a_no_op_and_add_waits_for_reset() {
    let indexer = Indexer::new();
    let mut packer = Packer::new(key());
    assert!(packer.add(&indexer, b"one", &hash(b"one"), BlobType::Data).unwrap().0);
    assert!(packer.save().unwrap().is_some());
    assert_eq!(packer.size(), 0);
    assert!(packer.save().unwrap().is_none());
    assert!(!packer.is_ready());
    assert!(matches!(
        packer.add(&indexer, b"two", &hash(b"two"), BlobType::Data),
        Err(Error::InvalidParameter)
    ));
    assert_eq!(packer.reset(), Ok(()));
    assert!(packer.is_ready());
    assert_eq!(packer.count(), 0);
    assert!(packer.add(&indexer, b"two", &hash(b"two"), BlobType::Data).unwrap().0);
    let pack = packer.finalize().unwrap().unwrap();
    assert_eq!(pack.index.blobs()[0].offset, 0);
    check_pack(&key(), &pack);
}

#[test]
fn reset_refuses_to_drop_pending_blobs() {
    let indexer = Indexer::new();
    let mut packer = Packer::new(key());
    assert_eq!(packer.reset(), Ok(()));
    assert!(packer.add(&indexer, b"one", &hash(b"one"), BlobType::Data).unwrap().0);
    assert_eq!(packer.reset(), Err(Error::InvalidParameter));
    assert_eq!(packer.reset_at(5), Err(Error::InvalidParameter));
    assert_eq!(packer.count(), 1);
    assert_eq!(packer.size(), 35);
    assert!(packer.finalize().unwrap().is_some());
    assert_eq!(packer.reset_at(5), Ok(()));
}

#[test]
fn blobs_come_back_from_their_offsets() {
    let key = key();
    let indexer = Indexer::new();
    let mut packer = Packer::new(key);
    let blobs: Vec<Vec<u8>> = vec![b"first".to_vec(), Vec::new(), vec![7u8; 1000], b"last".to_vec()];
    for (i, blob) in blobs.iter().enumerate() {
        let tpe = if i % 2 == 0 { BlobType::Data } else { BlobType::Tree };
        assert!(packer.add(&indexer, blob, &hash(blob), tpe).unwrap().0);
    }
    let pack = packer.finalize().unwrap().unwrap();
    let header = check_pack(&key, &pack);
    assert_eq!(header.len(), 4 * 37);
    assert_eq!(header[0], 0);
    assert_eq!(header[37], 1);
    let entries = pack.index.blobs();
    assert_eq!(entries.len(), 4);
    let offsets: Vec<u32> = entries.iter().map(|b| b.offset).collect();
    assert_eq!(offsets, vec![0, 37, 69, 1101]);
    for (entry, blob) in entries.iter().zip(blobs.iter()) {
        assert_eq!(entry.id, hash(blob));
        assert_eq!(entry.length as usize, blob.len() + 32);
        assert_eq!(&read_blob(&key, &pack, entry), blob);
    }
}

#[test]
fn distinct_ids_in_equal_distinct_ids_out() {
    let key = key();
    let mut indexer = Indexer::new();
    let mut packer = Packer::with_limits(key, limits(1 << 20, 4, 300), 0);
    let sequence: [u8; 12] = [1, 2, 1, 3, 4, 2, 5, 5, 6, 1, 7, 3];
    let mut accepted = 0;
    let mut seen: Vec<Id> = Vec::new();
    for n in sequence {
        let blob = vec![n; 5];
        let r = packer.add_at(&indexer, &blob, &hash(&blob), BlobType::Data, 0).unwrap();
        if r.0 {
            accepted += 1;
        }
        if let Some(pack) = r.1 {
            seen.extend(pack.index.blobs().iter().map(|b| b.id));
            indexer.add(pack.index);
        }
    }
    if let Some(pack) = packer.finalize().unwrap() {
        seen.extend(pack.index.blobs().iter().map(|b| b.id));
        indexer.add(pack.index);
    }
    assert_eq!(accepted, 7);
    assert_eq!(seen.len(), 7);
    for (i, a) in seen.iter().enumerate() {
        for b in &seen[i + 1..] {
            assert_ne!(a, b);
        }
    }
    assert_eq!(indexer.len(), 2);
}

#[test]
fn write_data_appends_and_counts() {
    let mut packer = Packer::new(key());
    assert_eq!(packer.write_data(b"abcde"), Ok(5));
    assert_eq!(packer.write_data(b""), Ok(0));
    assert_eq!(packer.write_data(b"fg"), Ok(2));
    assert_eq!(packer.size(), 7);
    assert_eq!(packer.count(), 0);
    assert!(!packer.is_ready());
    // other bytes than blobs make no pack
    let indexer = Indexer::new();
    assert!(matches!(
        packer.add(&indexer, b"one", &hash(b"one"), BlobType::Data),
        Err(Error::InvalidParameter)
    ));
    assert!(matches!(packer.save(), Err(Error::InvalidParameter)));
    assert_eq!(packer.write_header(), Err(Error::InvalidParameter));
    assert_eq!(packer.reset(), Ok(()));
    assert!(packer.is_ready());
    assert_eq!(packer.size(), 0);
}

#[test]
fn write_header_appends_header_and_length() {
    let key = key();
    let indexer = Indexer::new();
    let mut packer = Packer::new(key);
    assert!(packer.add(&indexer, b"0123456789", &hash(b"0123456789"), BlobType::Tree).unwrap().0);
    assert_eq!(packer.size(), 42);
    assert_eq!(packer.write_header(), Ok(()));
    assert_eq!(packer.size(), 42 + 69 + 4);
    assert!(!packer.is_ready());
    assert_eq!(packer.index().len(), 1);
}
