//! Core of an attendance-kiosk video pipeline: a single-producer /
//! multiple-consumer ring of frame buffers, the multipart-stream packet
//! layer served over it, the QR detection fan-out decisions, and the
//! camera resolution selection policy.
//!
//! The ring hands out one frame at a time to each of a fixed set of
//! readers; the writer never overwrites a frame that a reader has not
//! released, so one slot always separates the writer from the slowest
//! reader and the effective capacity of an `N`-slot ring is `N - 1`.

mod camera;
mod detect;
mod pipeline;
mod ring;
mod stream;

pub use camera::{
    choose_resolution, eligible_at, eligible_resolutions, is_max_rate, lists_rate, res_le, res_lt,
    Resolution,
};
pub use detect::{
    detector_factors, detector_step, drain_reader, events_of, qr_events, trimmed_of, DetectorStep,
    DownscaleFactor,
};
pub use pipeline::{
    detector_reader, pipeline_ring, streaming_reader, DETECTOR_COUNT, FRAME_BUFFER_SIZE,
    RING_READERS,
};
pub use ring::{
    lemma_capacity, lemma_leaked_handle_rereads, lemma_reader_observes_published, lemma_round_trip,
    AtomicBuffer, AtomicBufferReadHandle, AtomicBufferSplit,
};
pub use stream::{
    dec_rep, dec_string, digit_char, frame_header, frame_header_seq, stream_preamble,
    stream_preamble_seq, StreamPacketizer,
};
