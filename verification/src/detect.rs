//! Decisions of one QR detection worker.
//!
//! Each worker owns one ring reader and a fixed downscale factor. Per
//! iteration it honours a pending flush (draining its reader before
//! reading, so stale frames from before a resolution change are
//! dropped), decodes the frame it was handed, turns the decode result
//! into QR events — the trimmed, non-empty decoded strings — and, when
//! any event was produced, drains its reader afterwards to suppress the
//! near-duplicate frames that follow a detection.
//!
//! Decoding itself is a collaborator's operation; the decisions here
//! take its result as a value.

use vstd::prelude::*;

use crate::ring::AtomicBufferSplit;

verus! {

/// What `str::trim` leaves of a string: its characters without leading
/// and trailing whitespace.
pub uninterp spec fn trimmed_of(s: Seq<char>) -> Seq<char>;

/// Relies on `str::trim`: returns the input without leading and
/// trailing whitespace — a substring, so never longer than the input —
/// determined by the characters alone.
#[verifier::external_body]
fn trim_str<'a>(s: &'a str) -> (r: &'a str)
    ensures
        r@ == trimmed_of(s@),
        r@.len() <= s@.len(),
        s@.len() == 0 ==> r@.len() == 0,
{
    s.trim()
}

/// The QR events of one decode result: the trimmed forms of the
/// decoded strings that are non-empty once trimmed, in decode order.
pub open spec fn events_of(decoded: Seq<Seq<char>>) -> Seq<Seq<char>>
    decreases decoded.len(),
{
    if decoded.len() == 0 {
        Seq::empty()
    } else {
        let rest = events_of(decoded.drop_last());
        let t = trimmed_of(decoded.last());
        if t.len() == 0 {
            rest
        } else {
            rest.push(t)
        }
    }
}

/// Turns a decode result into the QR events to emit: trims every
/// decoded string and keeps the non-empty ones, in order.
pub fn qr_events(decoded: &Vec<String>) -> (events: Vec<String>)
    ensures
        events.deep_view() == events_of(decoded.deep_view()),
{
    let mut events: Vec<String> = Vec::new();
    let mut i: usize = 0;
    while i < decoded.len()
        invariant
            i <= decoded@.len(),
            events.deep_view() == events_of(decoded.deep_view().take(i as int)),
        decreases decoded@.len() - i,
    {
        let ghost prefix = decoded.deep_view().take(i as int);
        let ghost next_prefix = decoded.deep_view().take(i + 1);
        let ghost before = events.deep_view();
        let t = trim_str(decoded[i].as_str());
        if !t.is_empty() {
            events.push(t.to_owned());
            proof {
                assert(events.deep_view() =~= before.push(trimmed_of(decoded.deep_view()[i as int])));
            }
        }
        proof {
            assert(next_prefix.drop_last() =~= prefix);
            assert(next_prefix.last() == decoded.deep_view()[i as int]);
        }
        i = i + 1;
    }
    proof {
        assert(decoded.deep_view().take(decoded@.len() as int) =~= decoded.deep_view());
    }
    events
}

/// The decisions of one detector iteration.
pub struct DetectorStep {
    /// Drain the reader before anything else: a flush was requested.
    pub drain_first: bool,
    /// Clear the shared flush flag, having honoured it.
    pub clear_flush: bool,
    /// The QR events to emit for this frame, in decode order.
    pub events: Vec<String>,
    /// Drain the reader after releasing the frame: something was
    /// decoded, and the frames behind it are likely duplicates.
    pub drain_after: bool,
}

/// Decides one detector iteration from the flush flag as read and the
/// decode result of the frame at hand.
pub fn detector_step(flush_requested: bool, decoded: &Vec<String>) -> (step: DetectorStep)
    ensures
        step.drain_first == flush_requested,
        step.clear_flush == flush_requested,
        step.events.deep_view() == events_of(decoded.deep_view()),
        step.drain_after == (events_of(decoded.deep_view()).len() > 0),
{
    let events = qr_events(decoded);
    let drain_after = events.len() > 0;
    proof {
        assert(events.deep_view().len() == events@.len());
    }
    DetectorStep { drain_first: flush_requested, clear_flush: flush_requested, events, drain_after }
}

/// Releases every pending frame of reader `r`, leaving it with nothing
/// to read; the writer's history and every other reader are untouched.
pub fn drain_reader(ring: &mut AtomicBufferSplit, r: usize)
    requires
        old(ring).wf(),
        (r as int) < old(ring).reader_count(),
    ensures
        final(ring).wf(),
        final(ring).slot_count() == old(ring).slot_count(),
        final(ring).reader_count() == old(ring).reader_count(),
        final(ring).history() == old(ring).history(),
        !final(ring).has_data(r as int),
        final(ring).taken(r as int) == final(ring).history().len(),
        forall|k: int|
            0 <= k < old(ring).reader_count() && k != r as int ==> final(ring).taken(k) == old(
                ring,
            ).taken(k) && final(ring).read_cursor(k) == old(ring).read_cursor(k),
{
    loop
        invariant
            ring.wf(),
            (r as int) < ring.reader_count(),
            ring.slot_count() == old(ring).slot_count(),
            ring.reader_count() == old(ring).reader_count(),
            ring.history() == old(ring).history(),
            forall|k: int|
                0 <= k < old(ring).reader_count() && k != r as int ==> ring.taken(k) == old(
                    ring,
                ).taken(k) && ring.read_cursor(k) == old(ring).read_cursor(k),
        ensures
            !ring.has_data(r as int),
        decreases ring.avail(r as int),
    {
        match ring.try_read(r) {
            Some(handle) => {
                ring.release(handle);
            },
            None => {
                break;
            },
        }
    }
    proof {
        crate::ring::lemma_round_trip(*ring, r as int);
    }
}

/// A detector's downscale factor: the image is decoded at full
/// resolution or at one half, quarter or eighth of it.
#[derive(Clone, Copy, PartialEq, Eq, Structural, Debug)]
pub enum DownscaleFactor {
    Full,
    Half,
    Quarter,
    Eighth,
}

impl DownscaleFactor {
    /// What each side of the image is divided by.
    pub open spec fn spec_divisor(self) -> int {
        match self {
            DownscaleFactor::Full => 1,
            DownscaleFactor::Half => 2,
            DownscaleFactor::Quarter => 4,
            DownscaleFactor::Eighth => 8,
        }
    }

    /// What each side of the image is divided by.
    pub fn divisor(self) -> (d: usize)
        ensures
            d as int == self.spec_divisor(),
    {
        match self {
            DownscaleFactor::Full => 1,
            DownscaleFactor::Half => 2,
            DownscaleFactor::Quarter => 4,
            DownscaleFactor::Eighth => 8,
        }
    }
}

/// The downscale factors of the detection fan-out, one per worker, in
/// the order the workers are spawned: full resolution first, then ever
/// coarser halvings.
pub fn detector_factors() -> (factors: Vec<DownscaleFactor>)
    ensures
        factors@.len() == 4,
        factors@[0] == DownscaleFactor::Full,
        factors@[1] == DownscaleFactor::Half,
        factors@[2] == DownscaleFactor::Quarter,
        factors@[3] == DownscaleFactor::Eighth,
{
    let mut factors: Vec<DownscaleFactor> = Vec::new();
    factors.push(DownscaleFactor::Full);
    factors.push(DownscaleFactor::Half);
    factors.push(DownscaleFactor::Quarter);
    factors.push(DownscaleFactor::Eighth);
    factors
}

} // verus!
