use frame_ring::{drain_reader, AtomicBuffer};

/// S1: empty ring, one write, one read, empty again.
#[test]
fn empty_ring_single_write_read() {
    let mut split = AtomicBuffer::new(4, 1).split();
    assert!(split.try_read(0).is_none());
    assert!(split.try_write(b"a".to_vec()));
    let handle = split.try_read(0).expect("one frame pending");
    assert_eq!(split.value(&handle).as_slice(), b"a");
    split.release(handle);
    assert!(split.try_read(0).is_none());
}

/// S2: a ring of 4 slots with a stalled reader accepts exactly 3 writes.
#[test]
fn full_ring_semantics() {
    let mut split = AtomicBuffer::new(4, 1).split();
    let mut results = Vec::new();
    for i in 0..4u8 {
        results.push(split.try_write(vec![i]));
    }
    assert_eq!(results, vec![true, true, true, false]);
}

/// S3: fan-out of 1..=20 to three readers, writes retried on full,
/// reads interleaved; every reader sees all values in order.
#[test]
fn fan_out_all_readers_in_order() {
    let mut split = AtomicBuffer::new(8, 3).split();
    let mut got: Vec<Vec<u8>> = vec![Vec::new(), Vec::new(), Vec::new()];
    for v in 1..=20u8 {
        loop {
            if split.try_write(vec![v]) {
                break;
            }
            for r in 0..3usize {
                if let Some(handle) = split.try_read(r) {
                    got[r].push(split.value(&handle)[0]);
                    split.release(handle);
                }
            }
        }
    }
    for r in 0..3usize {
        while let Some(handle) = split.try_read(r) {
            got[r].push(split.value(&handle)[0]);
            split.release(handle);
        }
    }
    let expected: Vec<u8> = (1..=20u8).collect();
    for r in 0..3usize {
        assert_eq!(got[r], expected);
    }
}

/// A ring of 2 slots has capacity 1.
#[test]
fn two_slot_ring_capacity_one() {
    let mut split = AtomicBuffer::new(2, 1).split();
    assert!(split.try_write(vec![1]));
    assert!(!split.try_write(vec![2]));
    let handle = split.try_read(0).expect("one frame pending");
    split.release(handle);
    assert!(split.try_write(vec![2]));
}

/// P4: a handle that is dropped without release leaves the reader on
/// the same slot; the next acquisition returns the same contents.
#[test]
fn leaked_handle_rereads_same_slot() {
    let mut split = AtomicBuffer::new(4, 1).split();
    assert!(split.try_write(b"first".to_vec()));
    assert!(split.try_write(b"second".to_vec()));
    let leaked = split.try_read(0).expect("frame pending");
    let first = split.value(&leaked).clone();
    drop(leaked);
    let again = split.try_read(0).expect("same frame pending");
    assert_eq!(split.value(&again).clone(), first);
    assert_eq!(first.as_slice(), b"first");
    split.release(again);
    let next = split.try_read(0).expect("second frame pending");
    assert_eq!(split.value(&next).as_slice(), b"second");
    split.release(next);
}

/// P1: readers only ever observe completely written payloads. Each
/// payload carries a sentinel pattern with a trailing checksum, which
/// must hold for every byte sequence a reader is handed.
#[test]
fn sentinel_payloads_always_consistent() {
    let mut split = AtomicBuffer::new(4, 2).split();
    for round in 0..50u8 {
        let mut payload = vec![round; 16];
        let sum = payload.iter().fold(0u8, |a, b| a.wrapping_add(*b));
        payload.push(sum);
        if !split.try_write(payload) {
            for r in 0..2usize {
                while let Some(handle) = split.try_read(r) {
                    let bytes = split.value(&handle).clone();
                    let (body, tail) = bytes.split_at(bytes.len() - 1);
                    let sum = body.iter().fold(0u8, |a, b| a.wrapping_add(*b));
                    assert_eq!(tail[0], sum, "torn payload observed");
                    split.release(handle);
                }
            }
        }
    }
}

/// P5 (observable shadow): payloads tagged with a counter and a
/// trailing copy of it; readers always see the two copies equal.
#[test]
fn counter_and_trailing_copy_agree() {
    let mut split = AtomicBuffer::new(4, 1).split();
    for counter in 0..100u8 {
        if !split.try_write(vec![counter, counter]) {
            while let Some(handle) = split.try_read(0) {
                let bytes = split.value(&handle).clone();
                assert_eq!(bytes[0], bytes[1]);
                split.release(handle);
            }
            assert!(split.try_write(vec![counter, counter]));
        }
    }
}

/// P6: round trip — values of several producers, serialised through
/// the one writer, are each observed exactly once by every reader.
#[test]
fn round_trip_every_value_once_per_reader() {
    let producers = 3u8;
    let per_producer = 5u8;
    let mut split = AtomicBuffer::new(4, 2).split();
    let mut seen: Vec<Vec<(u8, u8)>> = vec![Vec::new(), Vec::new()];
    for k in 0..producers {
        for m in 0..per_producer {
            loop {
                if split.try_write(vec![k, m]) {
                    break;
                }
                for r in 0..2usize {
                    while let Some(handle) = split.try_read(r) {
                        let bytes = split.value(&handle).clone();
                        seen[r].push((bytes[0], bytes[1]));
                        split.release(handle);
                    }
                }
            }
        }
    }
    for r in 0..2usize {
        while let Some(handle) = split.try_read(r) {
            let bytes = split.value(&handle).clone();
            seen[r].push((bytes[0], bytes[1]));
            split.release(handle);
        }
    }
    for r in 0..2usize {
        assert_eq!(seen[r].len(), (producers * per_producer) as usize);
        for k in 0..producers {
            for m in 0..per_producer {
                let count = seen[r].iter().filter(|v| **v == (k, m)).count();
                assert_eq!(count, 1, "value observed other than exactly once");
            }
        }
    }
}

/// P3: for payloads 0, 1, 2, ... each reader receives a strictly
/// increasing contiguous sequence starting at 0, at whatever pace it
/// releases.
#[test]
fn fifo_per_reader_contiguous_from_zero() {
    let mut split = AtomicBuffer::new(8, 2).split();
    let mut got: Vec<Vec<u8>> = vec![Vec::new(), Vec::new()];
    for v in 0..30u8 {
        loop {
            if split.try_write(vec![v]) {
                break;
            }
            // reader 0 releases eagerly, reader 1 only under pressure
            while let Some(handle) = split.try_read(0) {
                got[0].push(split.value(&handle)[0]);
                split.release(handle);
            }
            if let Some(handle) = split.try_read(1) {
                got[1].push(split.value(&handle)[0]);
                split.release(handle);
            }
        }
    }
    for r in 0..2usize {
        while let Some(handle) = split.try_read(r) {
            got[r].push(split.value(&handle)[0]);
            split.release(handle);
        }
        let expected: Vec<u8> = (0..30u8).collect();
        assert_eq!(got[r], expected);
    }
}

/// write_spin publishes like try_write when capacity is free.
#[test]
fn write_spin_publishes() {
    let mut split = AtomicBuffer::new(4, 1).split();
    split.write_spin(b"spun".to_vec());
    let handle = split.read_spin(0);
    assert_eq!(split.value(&handle).as_slice(), b"spun");
    split.release(handle);
}

/// Draining a reader leaves it empty without touching the others.
#[test]
fn drain_leaves_other_readers_alone() {
    let mut split = AtomicBuffer::new(8, 2).split();
    for v in 0..5u8 {
        assert!(split.try_write(vec![v]));
    }
    drain_reader(&mut split, 0);
    assert!(split.try_read(0).is_none());
    let mut remaining = Vec::new();
    while let Some(handle) = split.try_read(1) {
        remaining.push(split.value(&handle)[0]);
        split.release(handle);
    }
    assert_eq!(remaining, vec![0, 1, 2, 3, 4]);
}

/// Handles report the reader they belong to.
#[test]
fn handle_reports_reader() {
    let mut split = AtomicBuffer::new(4, 3).split();
    assert!(split.try_write(vec![7]));
    let handle = split.try_read(2).expect("frame pending");
    assert_eq!(handle.reader(), 2);
    split.release(handle);
}
