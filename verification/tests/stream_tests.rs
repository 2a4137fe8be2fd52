use frame_ring::{dec_string, frame_header, stream_preamble, StreamPacketizer};

#[test]
fn decimal_rendering_exact() {
    assert_eq!(dec_string(0), "0");
    assert_eq!(dec_string(7), "7");
    assert_eq!(dec_string(10), "10");
    assert_eq!(dec_string(2343), "2343");
    assert_eq!(dec_string(123456789), "123456789");
    assert_eq!(dec_string(usize::MAX), format!("{}", usize::MAX));
}

#[test]
fn preamble_exact_text() {
    assert_eq!(
        stream_preamble(),
        "HTTP/1.1 200 OK\r\nContent-Type: multipart/x-mixed-replace; boundary=--frame\r\n\r\n"
    );
}

#[test]
fn frame_header_exact_text() {
    assert_eq!(
        frame_header(17),
        "--frame\r\nContent-Type: image/jpeg\r\nContent-Length: 17\r\n\r\n"
    );
    assert_eq!(
        frame_header(0),
        "--frame\r\nContent-Type: image/jpeg\r\nContent-Length: 0\r\n\r\n"
    );
}

/// S5: two successive clients each get a valid preamble and a frame
/// header whose Content-Length matches the frame.
#[test]
fn streaming_reconnect_serves_both_clients() {
    for _client in 0..2 {
        let preamble = stream_preamble();
        assert!(preamble.starts_with("HTTP/1.1 200 OK\r\n"));
        assert!(preamble.ends_with("\r\n\r\n"));
        assert!(preamble.contains("multipart/x-mixed-replace; boundary=--frame"));

        let mut packetizer = StreamPacketizer::new();
        let frame = vec![0xABu8; 1234];
        let header = packetizer.next_header(frame.len());
        assert_eq!(
            header,
            format!(
                "--frame\r\nContent-Type: image/jpeg\r\nContent-Length: {}\r\n\r\n",
                frame.len()
            )
        );
    }
}

/// The cached header stays correct across same-length frames and is
/// re-rendered when the frame length changes.
#[test]
fn packetizer_tracks_length_changes() {
    let mut packetizer = StreamPacketizer::new();
    let h1 = packetizer.next_header(100);
    let h2 = packetizer.next_header(100);
    assert_eq!(h1, h2);
    let h3 = packetizer.next_header(99);
    assert!(h3.contains("Content-Length: 99\r\n"));
    let h4 = packetizer.next_header(100);
    assert_eq!(h4, h1);
}

/// A zero-length first frame still gets a rendered header.
#[test]
fn packetizer_zero_length_first_frame() {
    let mut packetizer = StreamPacketizer::new();
    let header = packetizer.next_header(0);
    assert_eq!(
        header,
        "--frame\r\nContent-Type: image/jpeg\r\nContent-Length: 0\r\n\r\n"
    );
}
