//! The on-disk building blocks: headers, alignment, buffers, the
//! cache and the lock word.

use striking_db::{
    align, align_up, block_align, block_align_up, Buffer, BufferStatus, CopyRwLock, Item,
    ReadCache, ReadContext, Stats, StrandHeader, VolumeHeader, PAGE_SIZE, TRIM_SIZE,
};

#[test]
fn alignment_formulas() {
    assert_eq!(align(0), 0);
    assert_eq!(align(5000), 4096);
    assert_eq!(align(4096), 4096);
    assert_eq!(align(8191), 4096);
    assert_eq!(align_up(5000), 8192);
    assert_eq!(align_up(4096), 4096);
    assert_eq!(align_up(1), 4096);
    assert_eq!(block_align(262144), 262144);
    assert_eq!(block_align(262145), 262144);
    assert_eq!(block_align(500000), 262144);
    assert_eq!(block_align_up(1), 262144);
    assert_eq!(block_align_up(262144), 262144);
    assert_eq!(PAGE_SIZE, 4096);
    assert_eq!(TRIM_SIZE, 262144);
}

#[test]
fn volume_header_round_trip() {
    let header = VolumeHeader::new(7, Some(123456));
    let page = header.encode();
    assert_eq!(page.len(), PAGE_SIZE as usize);
    // the signature 0x864d26e37a418b16 is stored little-endian
    assert_eq!(page[0], 0x16);
    assert_eq!(page[7], 0x86);
    let back = VolumeHeader::decode(&page).unwrap();
    assert_eq!(back.get_strands(), 7);
    assert_eq!(back.get_state_ptr(), Some(123456));
    assert_eq!(back, header);
}

#[test]
fn volume_header_none_state_ptr_is_zero() {
    let header = VolumeHeader::new(3, None);
    let page = header.encode();
    let back = VolumeHeader::decode(&page).unwrap();
    assert_eq!(back.get_state_ptr(), None);
    assert_eq!(back.get_strands(), 3);
}

#[test]
fn volume_header_rejects_corruption() {
    let header = VolumeHeader::new(5, Some(9999));
    let mut page = header.encode();
    for &i in &[0usize, 8, 11, 13, 21, 100, 4095] {
        let mut broken = page.clone();
        broken[i] ^= 0x01;
        assert!(VolumeHeader::decode(&broken).is_err(), "byte {} went unnoticed", i);
    }
    // untouched, it still decodes
    page[0] ^= 0x00;
    assert!(VolumeHeader::decode(&page).is_ok());
}

#[test]
fn strand_header_round_trip() {
    let mut stats = Stats::zero();
    stats.read_bytes = 11;
    stats.written_bytes = 22;
    stats.valid_items = 3;
    let mut header = StrandHeader::new(4, 1 << 20);
    header.set_offset(8192);
    header.set_stats(&stats);
    let page = header.encode();
    assert_eq!(page.len(), PAGE_SIZE as usize);
    let back = StrandHeader::decode(&page).unwrap();
    assert_eq!(back.get_id(), 4);
    assert_eq!(back.get_capacity(), 1 << 20);
    assert_eq!(back.get_offset(), 8192);
    assert_eq!(back.get_stats(), stats);
}

#[test]
fn strand_header_rejects_corruption() {
    let header = StrandHeader::new(1, 65536);
    let page = header.encode();
    for &i in &[0usize, 8, 10, 18, 26, 82, 90, 4000] {
        let mut broken = page.clone();
        broken[i] = broken[i].wrapping_add(1);
        assert!(StrandHeader::decode(&broken).is_err(), "byte {} went unnoticed", i);
    }
}

#[test]
fn strand_header_fresh_values() {
    let header = StrandHeader::new(9, 32768);
    assert_eq!(header.get_id(), 9);
    assert_eq!(header.get_capacity(), 32768);
    assert_eq!(header.get_offset(), PAGE_SIZE);
    assert_eq!(header.get_stats(), Stats::zero());
}

#[test]
fn stats_add_saturates() {
    let mut a = Stats::zero();
    a.read_bytes = u64::MAX - 1;
    a.valid_items = 10;
    let mut b = Stats::zero();
    b.read_bytes = 5;
    b.valid_items = 1;
    a.add(&b);
    assert_eq!(a.read_bytes, u64::MAX);
    assert_eq!(a.valid_items, 11);
}

#[test]
fn buffer_states() {
    let mut buffer = Buffer::new(16);
    assert_eq!(buffer.bytes.len(), 16);
    assert!(buffer.bytes.iter().all(|&b| b == 0));
    assert_eq!(buffer.status, BufferStatus::Empty);
    buffer.status = BufferStatus::Dirty;
    buffer.reset();
    assert_eq!(buffer.status, BufferStatus::Empty);
}

#[test]
fn read_cache_stores_and_evicts() {
    let mut cache = ReadCache::with_capacity(2);
    cache.insert(b"a", b"1");
    assert_eq!(cache.get(b"a"), Some(b"1".to_vec()));
    cache.insert(b"b", b"2");
    cache.insert(b"c", b"3");
    // the least recently used entry is gone, the newest survive
    assert_eq!(cache.get(b"c"), Some(b"3".to_vec()));
    assert_eq!(cache.get(b"a"), None);
    cache.remove(b"c");
    assert_eq!(cache.get(b"c"), None);
    cache.insert(b"d", b"4");
    cache.clear();
    assert_eq!(cache.get(b"d"), None);
}

#[test]
fn copy_lock_protocol() {
    let mut lock: CopyRwLock<u64> = CopyRwLock::new(42);
    let first = lock.try_read_lock();
    assert_eq!(first, Some(42));
    let second = lock.try_read_lock();
    assert_eq!(second, Some(42));
    // a writer cannot enter while readers hold the lock
    assert_eq!(lock.try_write_lock(), None);
    lock.read_unlock();
    lock.read_unlock();
    assert_eq!(lock.try_write_lock(), Some(42));
    // readers cannot enter while the writer holds the lock
    assert_eq!(lock.try_read_lock(), None);
    lock.write_unlock(99);
    assert_eq!(lock.try_read_lock(), Some(99));
}

#[test]
fn item_accessors_and_copies() {
    let item = Item { key: b"k".to_vec(), value: b"value".to_vec() };
    assert_eq!(item.key(), &b"k".to_vec());
    assert_eq!(item.value(), &b"value".to_vec());
    let ctx = ReadContext { key: b"key".to_vec(), val: b"0123456789".to_vec() };
    assert_eq!(ctx.key(), &b"key".to_vec());
    assert_eq!(ctx.val(), &b"0123456789".to_vec());
    let mut small = vec![0u8; 4];
    assert_eq!(ctx.copy_val(&mut small), 4);
    assert_eq!(&small[..], b"0123");
    let mut large = vec![0xaau8; 8];
    assert_eq!(ctx.copy_key(&mut large), 3);
    assert_eq!(&large[..], b"key\xaa\xaa\xaa\xaa\xaa");
}
