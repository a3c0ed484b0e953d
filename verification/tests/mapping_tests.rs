use mmap_io::flush::{FlushPolicy, FlushTimer};
use mmap_io::{MemoryMappedFile, MmapAdvice, MmapError, MmapMode, TouchHint};

#[test]
fn test_create_write_flush_read_back() {
    // create, write "hello", flush, reopen read-only, read it back.
    let mut m = MemoryMappedFile::create_rw(4096).expect("create");
    m.update_region(0, b"hello").expect("write");
    m.flush().expect("flush");

    let ro = MemoryMappedFile::open_ro(m.durable_bytes());
    let mut buf = vec![0u8; 5];
    ro.read_into(0, &mut buf).expect("read");
    assert_eq!(&buf, b"hello");
}

#[test]
fn test_flush_policy_always_persists_each_write() {
    let mut m = MemoryMappedFile::builder()
        .size(64 * 1024)
        .flush_policy(FlushPolicy::Always)
        .create()
        .expect("create");

    let payload = vec![0xABu8; 16];
    m.update_region(0, &payload).expect("write");

    // The file image holds the payload with no explicit flush.
    let durable = m.durable_bytes();
    assert_eq!(&durable[0..16], &payload[..]);
    assert_eq!(m.bytes_since_flush(), 0);
    assert_eq!(m.writes_since_flush(), 0);
}

#[test]
fn test_touch_hint_eager() {
    let m = MemoryMappedFile::builder()
        .mode(MmapMode::ReadWrite)
        .size(1024 * 1024)
        .touch_hint(TouchHint::Eager)
        .create()
        .expect("create with eager touch");

    assert_eq!(m.page_count(), 256);
    for pg in 0..m.page_count() {
        assert_eq!(m.is_page_resident(pg), Some(true));
    }
}

#[test]
fn test_touch_hint_never() {
    let m = MemoryMappedFile::builder()
        .mode(MmapMode::ReadWrite)
        .size(1024 * 1024)
        .touch_hint(TouchHint::Never)
        .create()
        .expect("create with no touch");

    for pg in 0..m.page_count() {
        assert_eq!(m.is_page_resident(pg), Some(false));
    }
    assert_eq!(m.is_page_resident(256), None);
}

#[test]
fn test_resize_grow_write_shrink() {
    let mut m = MemoryMappedFile::create_rw(1024 * 1024).expect("create");
    m.resize(8 * 1024 * 1024).expect("resize grow");
    assert_eq!(m.len(), 8 * 1024 * 1024);

    let payload = vec![0x5Au8; 64];
    m.update_region(4 * 1024 * 1024, &payload).expect("write");
    m.flush().expect("flush");
    m.resize(1024 * 1024).expect("resize shrink");

    assert_eq!(m.len(), 1024 * 1024);
    let mut buf = vec![0u8; 1];
    assert_eq!(
        m.read_into(1024 * 1024, &mut buf),
        Err(MmapError::InvalidRange)
    );
    assert_eq!(
        m.read_into(4 * 1024 * 1024, &mut buf),
        Err(MmapError::InvalidRange)
    );
}

#[test]
fn test_resize_preserves_prefix_and_zero_extends() {
    let mut m = MemoryMappedFile::create_rw(100).expect("create");
    m.update_region(0, b"abc").expect("write");
    m.resize(200).expect("grow");

    let mut buf = vec![0u8; 3];
    m.read_into(0, &mut buf).expect("read prefix");
    assert_eq!(&buf, b"abc");
    let mut tail = vec![1u8; 100];
    m.read_into(100, &mut tail).expect("read tail");
    assert!(tail.iter().all(|b| *b == 0));

    m.resize(2).expect("shrink");
    let mut two = vec![0u8; 2];
    m.read_into(0, &mut two).expect("read shrunk");
    assert_eq!(&two, b"ab");
}

#[test]
fn test_microflush_optimization() {
    // A 512-byte flush range syncs exactly the first page: a write on a
    // later page is not persisted by it.
    let mut m = MemoryMappedFile::create_rw(64 * 1024).expect("create");

    let small_data = vec![0xCDu8; 512];
    m.update_region(0, &small_data).expect("write");
    let far_data = vec![0xEEu8; 16];
    m.update_region(8192, &far_data).expect("write far");

    m.flush_range(0, 512).expect("flush_range");

    let durable = m.durable_bytes();
    assert_eq!(&durable[0..512], &small_data[..]);
    assert!(durable[8192..8208].iter().all(|b| *b == 0));
}

#[test]
fn test_time_based_flushing_policy() {
    let mut m = MemoryMappedFile::builder()
        .mode(MmapMode::ReadWrite)
        .size(4096)
        .flush_policy(FlushPolicy::EveryMillis(100))
        .create()
        .expect("create with time policy");

    m.update_region(0, b"time-based test").expect("write");
    // No inline flush under a time policy: the file image is untouched.
    assert!(m.durable_bytes().iter().all(|b| *b == 0));

    // The background worker's decision core: after 250 ms a flush is due;
    // it then invokes the mapping's flush.
    let mut timer = FlushTimer::new(100, 0).expect("timer");
    assert!(timer.should_flush(250));
    m.flush().expect("flush");
    timer.manual_flush(250);

    let ro = MemoryMappedFile::open_ro(m.durable_bytes());
    let mut buf = vec![0u8; 15];
    ro.read_into(0, &mut buf).expect("read");
    assert_eq!(&buf, b"time-based test");
}

#[test]
fn test_read_only_rejects_mutation() {
    let mut ro = MemoryMappedFile::open_ro(vec![7u8; 64]);
    assert_eq!(ro.update_region(0, b"x"), Err(MmapError::ReadOnly));
    assert_eq!(ro.flush(), Err(MmapError::ReadOnly));
    assert_eq!(ro.flush_range(0, 1), Err(MmapError::ReadOnly));
    assert_eq!(ro.resize(128), Err(MmapError::ReadOnly));

    // The file image is untouched and still readable.
    assert_eq!(ro.len(), 64);
    assert!(ro.durable_bytes().iter().all(|b| *b == 7));
    let mut buf = vec![0u8; 64];
    ro.read_into(0, &mut buf).expect("read");
    assert!(buf.iter().all(|b| *b == 7));

    // Touching and advice are reads, allowed in every mode.
    ro.touch_pages().expect("touch");
    ro.advise(0, 64, MmapAdvice::Sequential).expect("advise");
}

#[test]
fn test_copy_on_write_never_persists() {
    let mut cow = MemoryMappedFile::open_cow(vec![1u8; 32]);
    cow.update_region(0, b"zz").expect("write");

    // The write is visible through the mapping...
    let mut buf = vec![0u8; 2];
    cow.read_into(0, &mut buf).expect("read");
    assert_eq!(&buf, b"zz");

    // ...but no flush persists it.
    cow.flush().expect("flush succeeds");
    cow.flush_range(0, 2).expect("flush_range succeeds");
    assert!(cow.durable_bytes().iter().all(|b| *b == 1));

    // Resize is not permitted on a private mapping.
    assert_eq!(cow.resize(64), Err(MmapError::InvalidMode));
}

#[test]
fn test_out_of_range_is_rejected_and_harmless() {
    let mut m = MemoryMappedFile::create_rw(100).expect("create");
    let before = m.durable_bytes();

    let mut buf = vec![0u8; 1];
    assert_eq!(m.read_into(100, &mut buf), Err(MmapError::InvalidRange));
    let mut empty: Vec<u8> = Vec::new();
    assert_eq!(m.read_into(101, &mut empty), Err(MmapError::InvalidRange));
    assert_eq!(
        m.update_region(50, &vec![0u8; 51]),
        Err(MmapError::InvalidRange)
    );
    assert_eq!(m.as_slice(0, 101).unwrap_err(), MmapError::InvalidRange);
    assert_eq!(m.flush_range(100, 1), Err(MmapError::InvalidRange));
    assert_eq!(m.touch_pages_range(100, 1), Err(MmapError::InvalidRange));
    assert_eq!(
        m.advise(101, 0, MmapAdvice::Normal),
        Err(MmapError::InvalidRange)
    );

    // Nothing changed.
    assert_eq!(m.durable_bytes(), before);
    assert_eq!(m.bytes_since_flush(), 0);
    assert_eq!(m.writes_since_flush(), 0);
    assert_eq!(m.len(), 100);
}

#[test]
fn test_construction_errors() {
    assert!(matches!(
        MemoryMappedFile::create_rw(0),
        Err(MmapError::InvalidSize)
    ));
    assert!(matches!(
        MemoryMappedFile::builder()
            .mode(MmapMode::ReadOnly)
            .size(100)
            .create(),
        Err(MmapError::InvalidConfig)
    ));
    assert!(matches!(
        MemoryMappedFile::builder().create(),
        Err(MmapError::InvalidConfig)
    ));
    assert!(matches!(
        MemoryMappedFile::builder().size(0).create(),
        Err(MmapError::InvalidSize)
    ));
    let mut m = MemoryMappedFile::create_rw(16).expect("create");
    assert_eq!(m.resize(0), Err(MmapError::InvalidSize));
}

#[test]
fn test_every_bytes_policy_counts_and_resets() {
    let mut m = MemoryMappedFile::builder()
        .size(4096)
        .flush_policy(FlushPolicy::EveryBytes(100))
        .create()
        .expect("create");

    m.update_region(0, &vec![0x11u8; 60]).expect("write");
    assert_eq!(m.bytes_since_flush(), 60);
    assert_eq!(m.writes_since_flush(), 1);
    assert!(m.durable_bytes().iter().all(|b| *b == 0));

    // The write that brings the counter to 100 triggers exactly one flush.
    m.update_region(60, &vec![0x22u8; 40]).expect("write");
    assert_eq!(m.bytes_since_flush(), 0);
    assert_eq!(m.writes_since_flush(), 0);
    let durable = m.durable_bytes();
    assert!(durable[0..60].iter().all(|b| *b == 0x11));
    assert!(durable[60..100].iter().all(|b| *b == 0x22));
}

#[test]
fn test_every_writes_policy_counts_and_resets() {
    let mut m = MemoryMappedFile::builder()
        .size(4096)
        .flush_policy(FlushPolicy::EveryWrites(3))
        .create()
        .expect("create");

    m.update_region(0, b"a").expect("write");
    m.update_region(1, b"b").expect("write");
    assert_eq!(m.writes_since_flush(), 2);
    assert!(m.durable_bytes().iter().all(|b| *b == 0));

    // The third write triggers the flush and resets the counters.
    m.update_region(2, b"c").expect("write");
    assert_eq!(m.writes_since_flush(), 0);
    assert_eq!(m.bytes_since_flush(), 0);
    assert_eq!(&m.durable_bytes()[0..3], b"abc");
}

#[test]
fn test_explicit_flush_resets_counters() {
    let mut m = MemoryMappedFile::builder()
        .size(4096)
        .flush_policy(FlushPolicy::EveryBytes(1_000_000))
        .create()
        .expect("create");
    m.update_region(0, &vec![9u8; 10]).expect("write");
    assert_eq!(m.bytes_since_flush(), 10);
    m.flush().expect("flush");
    assert_eq!(m.bytes_since_flush(), 0);
    assert_eq!(m.writes_since_flush(), 0);

    m.update_region(16, &vec![9u8; 10]).expect("write");
    m.flush_range(16, 10).expect("flush_range");
    assert_eq!(m.bytes_since_flush(), 0);
    assert_eq!(m.writes_since_flush(), 0);
}

#[test]
fn test_touch_pages_basic() {
    let mut m = MemoryMappedFile::create_rw(1024 * 1024).expect("create");
    let data = vec![0xABu8; 4096];
    for i in 0..256 {
        m.update_region(i * 4096, &data).expect("write");
    }
    m.flush().expect("flush");

    m.touch_pages().expect("touch_pages");
    for pg in 0..m.page_count() {
        assert_eq!(m.is_page_resident(pg), Some(true));
    }

    let mut buf = vec![0u8; 4096];
    m.read_into(0, &mut buf).expect("read");
    assert_eq!(buf[0], 0xAB);
}

#[test]
fn test_touch_pages_range() {
    let mut m = MemoryMappedFile::create_rw(1024 * 1024).expect("create");

    m.touch_pages_range(0, 64 * 1024).expect("touch_pages_range");
    for pg in 0..16 {
        assert_eq!(m.is_page_resident(pg), Some(true));
    }
    assert_eq!(m.is_page_resident(16), Some(false));

    // An interior range touches exactly the pages of its enclosing window.
    m.touch_pages_range(100 * 4096 + 10, 4096).expect("touch interior");
    assert_eq!(m.is_page_resident(99), Some(false));
    assert_eq!(m.is_page_resident(100), Some(true));
    assert_eq!(m.is_page_resident(101), Some(true));
    assert_eq!(m.is_page_resident(102), Some(false));

    let result = m.touch_pages_range(1024 * 1024, 1);
    assert!(result.is_err());
}

#[test]
fn test_as_slice_views_bytes() {
    let mut m = MemoryMappedFile::create_rw(32).expect("create");
    m.update_region(2, b"xyz").expect("write");
    let s = m.as_slice(2, 3).expect("slice");
    assert_eq!(s, b"xyz");
    assert_eq!(m.as_slice(0, 32).expect("full").len(), 32);
}

#[test]
fn test_chunks_cover_contents() {
    let mut m = MemoryMappedFile::create_rw(10).expect("create");
    let data: Vec<u8> = (0u8..10).collect();
    m.update_region(0, &data).expect("write");

    let chunks = m.chunks(4);
    assert_eq!(chunks.len(), 3);
    assert_eq!(chunks[0], vec![0, 1, 2, 3]);
    assert_eq!(chunks[1], vec![4, 5, 6, 7]);
    assert_eq!(chunks[2], vec![8, 9]);

    let mut joined: Vec<u8> = Vec::new();
    for c in &chunks {
        joined.extend_from_slice(c);
    }
    assert_eq!(joined, data);
}

#[test]
fn test_chunks_exact_division() {
    let m = MemoryMappedFile::create_rw(64 * 1024).expect("create");
    let chunks = m.chunks(4096);
    assert_eq!(chunks.len(), 16);
    assert!(chunks.iter().all(|c| c.len() == 4096));
    let one = m.chunks(64 * 1024);
    assert_eq!(one.len(), 1);
    assert_eq!(one[0].len(), 64 * 1024);
}

#[test]
fn test_hugepages_fallback_behavior() {
    // The huge-page request is advisory: construction succeeds, the mapping
    // works, and the data round-trips.
    let mut m = MemoryMappedFile::builder()
        .mode(MmapMode::ReadWrite)
        .size(4 * 1024 * 1024)
        .huge_pages(true)
        .create()
        .expect("huge pages with fallback should succeed");

    m.update_region(0, b"huge page test").expect("write");
    m.flush().expect("flush");

    let mut buf = vec![0u8; 14];
    m.read_into(0, &mut buf).expect("read");
    assert_eq!(&buf, b"huge page test");
}

#[test]
fn test_builder_open_existing() {
    let file: Vec<u8> = (0u8..100).collect();
    let m = MemoryMappedFile::builder()
        .mode(MmapMode::ReadOnly)
        .flush_policy(FlushPolicy::Always)
        .open(file.clone())
        .expect("open");
    assert_eq!(m.mode(), MmapMode::ReadOnly);
    // A policy given on a read-only mapping has no effect.
    assert_eq!(m.policy(), FlushPolicy::Never);
    assert_eq!(m.len(), 100);
    let mut buf = vec![0u8; 100];
    m.read_into(0, &mut buf).expect("read");
    assert_eq!(buf, file);
}

#[test]
fn test_comprehensive_feature_combination() {
    let mut m = MemoryMappedFile::builder()
        .mode(MmapMode::ReadWrite)
        .size(2 * 1024 * 1024)
        .flush_policy(FlushPolicy::EveryBytes(64 * 1024))
        .touch_hint(TouchHint::Eager)
        .huge_pages(true)
        .create()
        .expect("create comprehensive mapping");

    let data = vec![0xCDu8; 8192];
    for i in 0..16 {
        m.update_region(i * 8192, &data).expect("write chunk");
    }

    m.touch_pages().expect("touch pages");
    m.flush_range(0, 64 * 1024).expect("flush range");
    m.flush().expect("full flush");

    let mut buf = vec![0u8; 8192];
    for i in 0..16 {
        m.read_into(i * 8192, &mut buf).expect("read chunk");
        assert_eq!(buf[0], 0xCD);
        assert_eq!(buf[8191], 0xCD);
    }

    // Everything written is on disk after the full flush.
    let durable = m.durable_bytes();
    assert!(durable[0..16 * 8192].iter().all(|b| *b == 0xCD));
}

#[test]
fn test_empty_mapping() {
    let m = MemoryMappedFile::open_ro(Vec::new());
    assert_eq!(m.len(), 0);
    assert_eq!(m.page_count(), 0);
    assert_eq!(m.chunks(4).len(), 0);
    let mut buf = vec![0u8; 1];
    assert_eq!(m.read_into(0, &mut buf), Err(MmapError::InvalidRange));
    let mut empty: Vec<u8> = Vec::new();
    m.read_into(0, &mut empty).expect("empty read of empty mapping");
}

#[test]
fn test_disjoint_writes_both_persist() {
    // Two writers of disjoint ranges, then a flush from each: all their
    // bytes are persisted, whichever order the lock serialized.
    let mut m = MemoryMappedFile::create_rw(8192).expect("create");
    m.update_region(0, &vec![0x01u8; 100]).expect("first writer");
    m.update_region(4096, &vec![0x02u8; 100]).expect("second writer");
    m.flush().expect("first flush");
    m.flush().expect("second flush");

    let durable = m.durable_bytes();
    assert!(durable[0..100].iter().all(|b| *b == 0x01));
    assert!(durable[4096..4196].iter().all(|b| *b == 0x02));
}
