//! End-to-end behaviour of the datastore through its public surface.

use striking_db::{Error, Memory, OpenOptions, Store, VolumeHeader, MAX_KEY_LEN, PAGE_SIZE};

fn fresh_store(bytes: usize, strands: Option<u16>) -> Store {
    let mut options = OpenOptions::new();
    options.truncate();
    if let Some(n) = strands {
        options.strands(n);
    }
    Store::memory(bytes, &options).expect("creating a datastore in memory must succeed")
}

fn lookup_string(store: &mut Store, key: &[u8]) -> Result<Vec<u8>, Error> {
    let mut buf = vec![0u8; 4096];
    let n = store.lookup(key, &mut buf)?;
    buf.truncate(n);
    Ok(buf)
}

#[test]
fn crud_scenario() {
    let mut store = fresh_store(1 << 20, Some(2));
    store.insert(b"abc", b"000").unwrap();
    assert_eq!(lookup_string(&mut store, b"abc").unwrap(), b"000");
    store.update(b"abc", b"111").unwrap();
    assert_eq!(lookup_string(&mut store, b"abc").unwrap(), b"111");
    store.insert(b"def", b"ABCDEF").unwrap();
    let mut buf = vec![0u8; 16];
    let n = store.delete(b"def", &mut buf).unwrap();
    assert_eq!(n, 6);
    assert_eq!(&buf[..n], b"ABCDEF");
    assert!(matches!(lookup_string(&mut store, b"def"), Err(Error::ItemNotFound)));
}

#[test]
fn round_trip_single_key() {
    let mut store = fresh_store(1 << 20, Some(2));
    let key = b"a rather ordinary key";
    let val = b"a value worth keeping";
    store.insert(key, val).unwrap();
    let mut buf = vec![0u8; 64];
    let n = store.lookup(key, &mut buf).unwrap();
    assert_eq!(n, val.len());
    assert_eq!(&buf[..n], val);
}

#[test]
fn lookup_truncates_to_buffer() {
    let mut store = fresh_store(1 << 20, Some(2));
    store.insert(b"k", b"0123456789").unwrap();
    let mut buf = vec![0u8; 4];
    let n = store.lookup(b"k", &mut buf).unwrap();
    assert_eq!(n, 4);
    assert_eq!(&buf[..], b"0123");
}

#[test]
fn insert_uniqueness() {
    let mut store = fresh_store(1 << 20, Some(2));
    store.insert(b"k", b"first").unwrap();
    assert!(matches!(store.insert(b"k", b"second"), Err(Error::ItemExists)));
    assert_eq!(lookup_string(&mut store, b"k").unwrap(), b"first");
}

#[test]
fn update_requires_presence() {
    let mut store = fresh_store(1 << 20, Some(2));
    assert!(matches!(store.update(b"absent", b"v"), Err(Error::ItemNotFound)));
    assert!(!store.contains(b"absent"));
}

#[test]
fn put_is_upsert() {
    let mut store = fresh_store(1 << 20, Some(2));
    store.put(b"k", b"v1").unwrap();
    store.put(b"k", b"v2").unwrap();
    assert_eq!(lookup_string(&mut store, b"k").unwrap(), b"v2");
}

#[test]
fn remove_then_lookup() {
    let mut store = fresh_store(1 << 20, Some(2));
    store.insert(b"k", b"v").unwrap();
    store.remove(b"k").unwrap();
    assert!(matches!(lookup_string(&mut store, b"k"), Err(Error::ItemNotFound)));
    assert!(!store.contains(b"k"));
    // removing an absent key is not an error
    store.remove(b"k").unwrap();
}

#[test]
fn delete_returns_old_value() {
    let mut store = fresh_store(1 << 20, Some(2));
    store.insert(b"k", b"precious").unwrap();
    let mut buf = vec![0u8; 32];
    let n = store.delete(b"k", &mut buf).unwrap();
    assert_eq!(n, 8);
    assert_eq!(&buf[..n], b"precious");
    assert!(matches!(lookup_string(&mut store, b"k"), Err(Error::ItemNotFound)));
}

#[test]
fn key_length_boundaries() {
    let mut store = fresh_store(1 << 22, Some(2));
    assert!(matches!(store.insert(b"", b"v"), Err(Error::InvalidKey)));
    let too_long = vec![7u8; MAX_KEY_LEN as usize + 1];
    assert!(matches!(store.insert(&too_long, b"v"), Err(Error::InvalidKey)));
    let longest = vec![7u8; MAX_KEY_LEN as usize];
    store.insert(&longest, b"v").unwrap();
    assert_eq!(lookup_string(&mut store, &longest).unwrap(), b"v");
    // the empty value is allowed
    store.insert(b"empty", b"").unwrap();
    assert_eq!(lookup_string(&mut store, b"empty").unwrap(), b"");
    assert!(matches!(store.lookup(b"", &mut vec![0u8; 4]), Err(Error::InvalidKey)));
    assert!(matches!(store.remove(b""), Err(Error::InvalidKey)));
}

#[test]
fn many_random_puts() {
    let mut store = fresh_store(1 << 22, Some(4));
    let mut keys: Vec<Vec<u8>> = Vec::new();
    let mut seed: u64 = rand::random::<u64>();
    for i in 0..800usize {
        // a simple multiplicative mix over a random seed
        seed = seed.wrapping_mul(6364136223846793005).wrapping_add(1442695040888963407);
        let key = format!("t{}_{}", i % 8, seed);
        let val = format!("value-{}", i);
        store.put(key.as_bytes(), val.as_bytes()).unwrap();
        keys.push(key.into_bytes());
    }
    for key in &keys {
        assert!(store.contains(key));
    }
}

#[test]
fn persistence_across_reopen() {
    let mut store = fresh_store(1 << 20, Some(2));
    store.insert(b"k", b"v1").unwrap();
    store.insert(b"other", b"v2").unwrap();
    let device: Memory = store.close().unwrap();
    let mut reopened = Store::open(device, &OpenOptions::new()).unwrap();
    assert_eq!(lookup_string(&mut reopened, b"k").unwrap(), b"v1");
    assert_eq!(lookup_string(&mut reopened, b"other").unwrap(), b"v2");
    assert!(reopened.contains(b"k"));
    assert!(!reopened.contains(b"missing"));
}

#[test]
fn persistence_of_many_items() {
    let mut store = fresh_store(1 << 22, Some(3));
    for i in 0..200usize {
        let key = format!("key-{}", i);
        let val = format!("val-{}", i);
        store.insert(key.as_bytes(), val.as_bytes()).unwrap();
    }
    store.remove(b"key-7").unwrap();
    let device = store.close().unwrap();
    let mut reopened = Store::open(device, &OpenOptions::new()).unwrap();
    for i in 0..200usize {
        let key = format!("key-{}", i);
        if i == 7 {
            assert!(!reopened.contains(key.as_bytes()));
        } else {
            let val = format!("val-{}", i);
            assert_eq!(lookup_string(&mut reopened, key.as_bytes()).unwrap(), val.as_bytes());
        }
    }
}

#[test]
fn fill_until_out_of_space() {
    let mut store = fresh_store(1 << 18, Some(2));
    let value = vec![9u8; 4000];
    let mut stored: Vec<Vec<u8>> = Vec::new();
    let mut i: usize = 0;
    loop {
        let key = format!("fill-{}", i);
        match store.put(key.as_bytes(), &value) {
            Ok(()) => stored.push(key.into_bytes()),
            Err(Error::OutOfSpace) => break,
            Err(e) => panic!("unexpected error while filling: {:?}", e),
        }
        i += 1;
        assert!(i < 10_000, "the device never filled up");
    }
    assert!(!stored.is_empty());
    for key in &stored {
        let mut buf = vec![0u8; 4096];
        let n = store.lookup(key, &mut buf).unwrap();
        assert_eq!(n, value.len());
        assert_eq!(&buf[..n], &value[..]);
    }
}

#[test]
fn merge_scenario() {
    let mut store = fresh_store(1 << 20, Some(2));
    store
        .merge(b"k", |prev| {
            assert!(prev.is_none());
            Some(b"x".to_vec())
        })
        .unwrap();
    assert_eq!(lookup_string(&mut store, b"k").unwrap(), b"x");
    store
        .merge(b"k", |prev| {
            assert_eq!(prev, Some(b"x".to_vec()));
            None
        })
        .unwrap();
    assert!(!store.contains(b"k"));
}

#[test]
fn merge_updates_in_place() {
    let mut store = fresh_store(1 << 20, Some(2));
    store.insert(b"counter", b"5").unwrap();
    store
        .merge(b"counter", |prev| {
            let mut v = prev.unwrap();
            v.push(b'5');
            Some(v)
        })
        .unwrap();
    assert_eq!(lookup_string(&mut store, b"counter").unwrap(), b"55");
}

#[test]
fn too_few_strands_is_rejected() {
    let mut options = OpenOptions::new();
    options.truncate().strands(1);
    assert!(matches!(Store::memory(1 << 20, &options), Err(Error::BadArgument(_))));
}

#[test]
fn reindex_is_unimplemented() {
    let mut options = OpenOptions::new();
    options.reindex();
    let device = Memory::new(1 << 20);
    assert!(matches!(Store::open(device, &options), Err(Error::Unimplemented)));
}

#[test]
fn open_blank_device_is_corrupt() {
    let device = Memory::new(1 << 20);
    assert!(matches!(Store::open(device, &OpenOptions::new()), Err(Error::Corrupt)));
}

#[test]
fn corrupt_strand_header_fails_reopen() {
    let mut store = fresh_store(1 << 20, Some(2));
    store.insert(b"abc", b"000").unwrap();
    let mut device = store.close().unwrap();
    // The first strand begins right after the volume header page, so
    // its header occupies the second device page.
    let mut page = vec![0u8; PAGE_SIZE as usize];
    device.read(PAGE_SIZE, &mut page).unwrap();
    page[16] ^= 0xff;
    device.write(PAGE_SIZE, &page).unwrap();
    assert!(matches!(Store::open(device, &OpenOptions::new()), Err(Error::Corrupt)));
}

#[test]
fn version_gate() {
    let mut store = fresh_store(1 << 20, Some(2));
    store.insert(b"k", b"v").unwrap();
    let mut device = store.close().unwrap();
    let mut header = VolumeHeader::new(2, None);
    header.major = header.major.wrapping_add(1);
    let page = header.encode();
    device.write(0, &page).unwrap();
    assert!(matches!(
        Store::open(device, &OpenOptions::new()),
        Err(Error::IncompatibleVersion)
    ));
}

#[test]
fn stats_track_items() {
    let mut store = fresh_store(1 << 20, Some(2));
    store.insert(b"a", b"1").unwrap();
    store.insert(b"b", b"2").unwrap();
    store.remove(b"a").unwrap();
    let stats = store.stats();
    assert_eq!(stats.valid_items, 2);
    assert_eq!(stats.deleted_items, 1);
    assert!(stats.written_bytes > 0);
}

#[test]
fn default_strand_count_is_derived() {
    // Without an explicit strand count the default is derived from the
    // processor count and the device capacity, clamped to at least two.
    let mut options = OpenOptions::new();
    options.truncate();
    let mut store = Store::memory(1 << 21, &options).unwrap();
    store.insert(b"k", b"v").unwrap();
    assert_eq!(lookup_string(&mut store, b"k").unwrap(), b"v");
}
