use frame_ring::{
    detector_factors, detector_step, drain_reader, qr_events, AtomicBuffer, DownscaleFactor,
};

#[test]
fn qr_events_trim_and_filter() {
    let decoded = vec![
        "  X  ".to_string(),
        "".to_string(),
        "\t\r\n".to_string(),
        "code".to_string(),
        " spaced out ".to_string(),
    ];
    let events = qr_events(&decoded);
    assert_eq!(events, vec!["X", "code", "spaced out"]);
}

#[test]
fn qr_events_empty_input() {
    let decoded: Vec<String> = Vec::new();
    assert!(qr_events(&decoded).is_empty());
}

#[test]
fn detector_step_decisions() {
    let decoded = vec!["  badge-42 ".to_string(), "   ".to_string()];
    let step = detector_step(true, &decoded);
    assert!(step.drain_first);
    assert!(step.clear_flush);
    assert_eq!(step.events, vec!["badge-42"]);
    assert!(step.drain_after);

    let nothing = detector_step(false, &vec!["  ".to_string()]);
    assert!(!nothing.drain_first);
    assert!(!nothing.clear_flush);
    assert!(nothing.events.is_empty());
    assert!(!nothing.drain_after);
}

/// S4: flush on resolution change. Ten stale frames sit in the ring;
/// the flush flag is honoured, one new frame arrives, and the decoder
/// stub is called exactly once — on the new frame.
#[test]
fn flush_processes_only_the_new_frame() {
    let mut split = AtomicBuffer::new(16, 1).split();
    for i in 0..10u8 {
        assert!(split.try_write(vec![i]));
    }
    let mut flush_flag = true;
    let mut decode_calls = 0usize;

    // detector iteration: honour the flush before reading
    let step = detector_step(flush_flag, &Vec::new());
    if step.clear_flush {
        flush_flag = false;
    }
    if step.drain_first {
        drain_reader(&mut split, 0);
    }
    assert!(!flush_flag);
    assert!(split.try_read(0).is_none());

    // the camera delivers one frame at the new resolution
    assert!(split.try_write(vec![99]));

    let handle = split.read_spin(0);
    let frame = split.value(&handle).clone();
    decode_calls += 1;
    assert_eq!(frame, vec![99]);
    split.release(handle);

    assert_eq!(decode_calls, 1);
    assert!(split.try_read(0).is_none());
}

/// S6: duplicate suppression. Five identical frames decode to the same
/// code; it is emitted once and the queued duplicates are drained.
#[test]
fn duplicate_frames_emit_once() {
    let mut split = AtomicBuffer::new(8, 1).split();
    for _ in 0..5 {
        assert!(split.try_write(b"frame-with-X".to_vec()));
    }
    let mut emitted: Vec<String> = Vec::new();
    let mut iterations = 0usize;
    while split.try_read(0).is_some() {
        let handle = split.read_spin(0);
        let frame = split.value(&handle).clone();
        // decoder stub: every copy of this frame decodes to "X"
        let decoded = vec![String::from_utf8(frame[11..12].to_vec()).unwrap()];
        let step = detector_step(false, &decoded);
        split.release(handle);
        emitted.extend(step.events);
        if step.drain_after {
            drain_reader(&mut split, 0);
        }
        iterations += 1;
    }
    assert_eq!(emitted, vec!["X"]);
    assert_eq!(iterations, 1);
}

#[test]
fn downscale_factors_in_order() {
    let factors = detector_factors();
    assert_eq!(
        factors,
        vec![
            DownscaleFactor::Full,
            DownscaleFactor::Half,
            DownscaleFactor::Quarter,
            DownscaleFactor::Eighth,
        ]
    );
    let divisors: Vec<usize> = factors.iter().map(|f| f.divisor()).collect();
    assert_eq!(divisors, vec![1, 2, 4, 8]);
}
