//! Wiring of the pipeline: ring dimensions and reader assignment.
//!
//! One ring serves the whole pipeline. The camera thread is its only
//! writer; reader `0` feeds the HTTP streamer and readers `1` onward
//! feed the detection workers, one per downscale factor.

use vstd::prelude::*;

use crate::ring::{AtomicBuffer, AtomicBufferSplit};

verus! {

/// Slot count of the frame ring: streaming and analysis may lag the
/// camera by up to this many frames before old ones are dropped.
pub const FRAME_BUFFER_SIZE: usize = 128;

/// Number of detection workers, one per downscale factor.
pub const DETECTOR_COUNT: usize = 4;

/// Ring readers: the streamer plus one per detection worker.
pub const RING_READERS: usize = 5;

/// The ring reader dedicated to the HTTP streamer.
pub fn streaming_reader() -> (r: usize)
    ensures
        r == 0,
{
    0
}

/// The ring reader bound to detection worker `worker`.
pub fn detector_reader(worker: usize) -> (r: usize)
    requires
        worker < DETECTOR_COUNT,
    ensures
        r == worker + 1,
        1 <= r < RING_READERS,
{
    worker + 1
}

/// Builds and splits the pipeline's ring: `FRAME_BUFFER_SIZE` slots
/// shared by the camera writer and the `RING_READERS` readers, with
/// nothing written yet.
pub fn pipeline_ring() -> (split: AtomicBufferSplit)
    ensures
        split.wf(),
        split.slot_count() == FRAME_BUFFER_SIZE,
        split.reader_count() == RING_READERS,
        split.history() == Seq::<Seq<u8>>::empty(),
        forall|r: int| 0 <= r < split.reader_count() ==> split.taken(r) == 0,
{
    AtomicBuffer::new(FRAME_BUFFER_SIZE, RING_READERS).split()
}

} // verus!
