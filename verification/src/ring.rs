//! A single-producer / multiple-consumer ring of frame slots.
//!
//! The ring owns `n` byte-buffer slots, one write cursor and one read
//! cursor per reader. The writer refuses to advance into the slot one
//! ahead of any reader, so a permanent empty slot separates the writer
//! from the slowest reader and the capacity is `n - 1`.
//!
//! The model carries the full history of accepted payloads as ghost
//! state: every reader's pending frames are exactly a suffix of that
//! history, which is what makes the per-reader FIFO and exactly-once
//! delivery laws provable.

use vstd::prelude::*;
use vstd::arithmetic::div_mod::{
    lemma_add_mod_noop, lemma_mod_bound, lemma_mod_equivalence, lemma_mod_self_0,
    lemma_small_mod,
};

verus! {

/// Congruence modulo `n` on a window narrower than `n` is equality.
proof fn lemma_mod_window(a: int, b: int, n: int)
    requires
        0 < n,
        a <= b,
        b - a < n,
    ensures
        (a % n == b % n) <==> (a == b),
{
    lemma_mod_equivalence(b, a, n);
    lemma_small_mod((b - a) as nat, n as nat);
    assert((b - a) % n == b - a);
}

/// On a half-open window of width `n`, congruence modulo `n` means the
/// difference is exactly `n`.
proof fn lemma_mod_window_shift(a: int, b: int, n: int)
    requires
        0 < n,
        a < b,
        b - a <= n,
    ensures
        (a % n == b % n) <==> (b - a == n),
{
    lemma_mod_equivalence(b, a, n);
    if b - a == n {
        lemma_mod_self_0(n);
        assert((b - a) % n == 0);
    } else {
        lemma_small_mod((b - a) as nat, n as nat);
        assert((b - a) % n == b - a);
    }
}

/// Declares `linux_futex::Futex`, the wake word readers can queue on:
/// an `AtomicU32` plus the futex system calls. Opaque here; the ring
/// only stores to it and wakes through the wrappers below.
#[verifier::external_type_specification]
#[verifier::external_body]
#[verifier::reject_recursive_types(S)]
pub struct ExFutex<S>(linux_futex::Futex<S>);

/// Declares `linux_futex::Private`, the scope marker of a futex used
/// within one process only.
#[verifier::external_type_specification]
#[verifier::external_body]
pub struct ExPrivate(linux_futex::Private);

/// Relies on `linux_futex::Futex::new`: builds a process-private wake
/// word holding the given initial value.
#[verifier::external_body]
fn futex_new(v: u32) -> linux_futex::Futex<linux_futex::Private> {
    linux_futex::Futex::new(v)
}

/// Relies on std's `AtomicU32::store`: publishes the latest write index
/// in the wake word, so readers that queue on it wait on a fresh value.
#[verifier::external_body]
fn wake_word_store(futex: &linux_futex::Futex<linux_futex::Private>, v: u32) {
    futex.value.store(v, core::sync::atomic::Ordering::Relaxed);
}

/// Relies on `linux_futex::Futex::wake`: wakes every thread queued on
/// the wake word. `FUTEX_WAKE` on a live private futex cannot fail; the
/// count of woken threads is discarded, as a wake with no waiters is a
/// no-op.
#[verifier::external_body]
fn futex_wake_all(futex: &linux_futex::Futex<linux_futex::Private>) {
    futex.wake(i32::MAX);
}

/// An unsplit ring: `n` empty slots, all cursors zero. [`AtomicBuffer::split`]
/// turns it into the operating form, after which no other path to the
/// ring's internals exists.
pub struct AtomicBuffer {
    slots: Vec<Vec<u8>>,
    write_idx: usize,
    read_idxs: Vec<usize>,
    wake: linux_futex::Futex<linux_futex::Private>,
}

/// A split ring: the writer end and all reader ends of one ring.
///
/// In the threaded setting the writer and each reader run on threads
/// of their own; the operations below are the single-step transitions
/// each of them performs, so any interleaving of those steps is an
/// interleaving of these calls.
pub struct AtomicBufferSplit {
    slots: Vec<Vec<u8>>,
    write_idx: usize,
    read_idxs: Vec<usize>,
    wake: linux_futex::Futex<linux_futex::Private>,
    history: Ghost<Seq<Seq<u8>>>,
    taken: Ghost<Seq<int>>,
}

/// A handle on the next unread slot of one reader.
///
/// Releasing the handle advances that reader's cursor by one; a handle
/// that is dropped without being released leaves the cursor where it
/// was, and the next acquisition returns the same slot.
pub struct AtomicBufferReadHandle {
    reader: usize,
    slot: usize,
}

impl AtomicBufferReadHandle {
    /// The reader this handle belongs to.
    pub closed spec fn spec_reader(self) -> int {
        self.reader as int
    }

    /// The slot this handle pins.
    pub closed spec fn spec_slot(self) -> int {
        self.slot as int
    }

    /// The reader this handle belongs to.
    pub fn reader(&self) -> (r: usize)
        ensures
            r as int == self.spec_reader(),
    {
        self.reader
    }
}

impl AtomicBuffer {
    /// Number of slots.
    pub closed spec fn slot_count(self) -> int {
        self.slots@.len() as int
    }

    /// Number of readers.
    pub closed spec fn reader_count(self) -> int {
        self.read_idxs@.len() as int
    }

    /// A freshly built ring: cursors zeroed, nothing written yet.
    pub closed spec fn fresh(self) -> bool {
        &&& self.slots@.len() >= 2
        &&& self.read_idxs@.len() >= 1
        &&& self.write_idx == 0
        &&& forall|r: int| 0 <= r < self.read_idxs@.len() ==> self.read_idxs@[r] == 0
    }

    /// Builds a ring of `n` empty slots shared by one writer and
    /// `readers` readers. All cursors start at zero.
    pub fn new(n: usize, readers: usize) -> (ring: AtomicBuffer)
        requires
            n >= 2,
            readers >= 1,
        ensures
            ring.fresh(),
            ring.slot_count() == n,
            ring.reader_count() == readers,
    {
        let mut slots: Vec<Vec<u8>> = Vec::new();
        let mut i: usize = 0;
        while i < n
            invariant
                i <= n,
                slots@.len() == i,
            decreases n - i,
        {
            slots.push(Vec::new());
            i = i + 1;
        }
        let mut read_idxs: Vec<usize> = Vec::new();
        let mut r: usize = 0;
        while r < readers
            invariant
                r <= readers,
                read_idxs@.len() == r,
                forall|k: int| 0 <= k < r ==> read_idxs@[k] == 0,
            decreases readers - r,
        {
            read_idxs.push(0);
            r = r + 1;
        }
        AtomicBuffer { slots, write_idx: 0, read_idxs, wake: futex_new(0) }
    }

    /// Consumes the ring and yields its operating form, the only path
    /// to the writer and reader operations.
    pub fn split(self) -> (split: AtomicBufferSplit)
        requires
            self.fresh(),
        ensures
            split.wf(),
            split.slot_count() == self.slot_count(),
            split.reader_count() == self.reader_count(),
            split.history() == Seq::<Seq<u8>>::empty(),
            forall|r: int| 0 <= r < split.reader_count() ==> split.taken(r) == 0,
    {
        let ghost readers = self.read_idxs@.len() as int;
        let split = AtomicBufferSplit {
            slots: self.slots,
            write_idx: self.write_idx,
            read_idxs: self.read_idxs,
            wake: self.wake,
            history: Ghost(Seq::empty()),
            taken: Ghost(Seq::new(readers as nat, |r: int| 0int)),
        };
        proof {
            let n = split.slots@.len() as int;
            lemma_small_mod(0nat, n as nat);
        }
        split
    }
}

impl AtomicBufferSplit {
    /// Number of slots.
    pub closed spec fn slot_count(self) -> int {
        self.slots@.len() as int
    }

    /// Number of readers.
    pub closed spec fn reader_count(self) -> int {
        self.read_idxs@.len() as int
    }

    /// Every payload the writer has published, oldest first.
    pub closed spec fn history(self) -> Seq<Seq<u8>> {
        self.history@
    }

    /// How many payloads reader `r` has released.
    pub closed spec fn taken(self, r: int) -> int {
        self.taken@[r]
    }

    /// The payloads written but not yet released by reader `r`, oldest
    /// first: always a suffix of the history.
    pub open spec fn pending(self, r: int) -> Seq<Seq<u8>> {
        self.history().skip(self.taken(r))
    }

    /// How many payloads reader `r` still has to release.
    pub open spec fn avail(self, r: int) -> int {
        self.history().len() - self.taken(r)
    }

    /// Reader `r` has an unread payload.
    pub open spec fn has_data(self, r: int) -> bool {
        self.avail(r) > 0
    }

    /// The ring is full: some reader's cursor sits one ahead of the
    /// write cursor, so a write would invade an unreleased slot.
    pub open spec fn is_full(self) -> bool {
        exists|r: int| 0 <= r < self.reader_count() && self.avail(r) == self.slot_count() - 1
    }

    /// The slot index reader `r`'s cursor points at.
    pub closed spec fn read_cursor(self, r: int) -> int {
        self.read_idxs@[r] as int
    }

    /// The slot index the writer will fill next.
    pub closed spec fn write_cursor(self) -> int {
        self.write_idx as int
    }

    /// `h` designates the next unread slot of its reader: the reader
    /// has unreleased data and `h` pins the slot under its cursor.
    pub open spec fn valid_handle(self, h: AtomicBufferReadHandle) -> bool {
        &&& 0 <= h.spec_reader() < self.reader_count()
        &&& self.has_data(h.spec_reader())
        &&& h.spec_slot() == self.read_cursor(h.spec_reader())
    }

    /// Structural invariant: cursors mirror the ghost counters modulo
    /// the slot count, no reader is more than `n - 1` behind, and every
    /// unreleased history entry still sits unchanged in its slot.
    pub closed spec fn wf(self) -> bool {
        &&& self.slots@.len() >= 2
        &&& self.read_idxs@.len() >= 1
        &&& self.taken@.len() == self.read_idxs@.len()
        &&& self.write_idx as int == self.history@.len() as int % (self.slots@.len() as int)
        &&& forall|r: int|
            0 <= r < self.taken@.len() ==> 0 <= #[trigger] self.taken@[r] <= self.history@.len()
        &&& forall|r: int|
            0 <= r < self.taken@.len()
                ==> self.history@.len() - #[trigger] self.taken@[r] < self.slots@.len()
        &&& forall|r: int|
            0 <= r < self.read_idxs@.len()
                ==> #[trigger] self.read_idxs@[r] as int == self.taken@[r] % (
                self.slots@.len() as int)
        &&& forall|r: int, j: int|
            #![trigger self.taken@[r], self.history@[j]]
            0 <= r < self.taken@.len() && self.taken@[r] <= j < self.history@.len()
                ==> self.slots@[j % (self.slots@.len() as int)]@ == self.history@[j]
    }

    /// Writes `value` into the slot under the write cursor if the ring
    /// is not full, then advances the cursor and publishes the new
    /// index in the wake word. Returns `false`, leaving the ring
    /// unchanged, exactly when some reader's cursor sits one ahead of
    /// the write cursor.
    #[verifier::loop_isolation(false)]
    pub fn try_write(&mut self, value: Vec<u8>) -> (ok: bool)
        requires
            old(self).wf(),
        ensures
            final(self).wf(),
            final(self).slot_count() == old(self).slot_count(),
            final(self).reader_count() == old(self).reader_count(),
            ok == !old(self).is_full(),
            ok ==> final(self).history() == old(self).history().push(value@),
            !ok ==> final(self).history() == old(self).history(),
            forall|r: int|
                0 <= r < old(self).reader_count() ==> final(self).taken(r) == old(self).taken(r),
            forall|r: int|
                0 <= r < old(self).reader_count() ==> final(self).read_cursor(r) == old(
                self,
            ).read_cursor(r),
    {
        let n = self.slots.len();
        proof {
            lemma_mod_bound(self.history@.len() as int, n as int);
        }
        let next = (self.write_idx + 1) % n;
        proof {
            let len = self.history@.len() as int;
            lemma_small_mod(1nat, n as nat);
            lemma_add_mod_noop(len, 1, n as int);
            lemma_mod_bound(len + 1, n as int);
            assert(next as int == (len + 1) % (n as int));
        }
        let mut r: usize = 0;
        while r < self.read_idxs.len()
            invariant
                r <= self.read_idxs@.len(),
                forall|k: int| 0 <= k < r ==> self.read_idxs@[k] != next,
            decreases self.read_idxs@.len() - r,
        {
            if self.read_idxs[r] == next {
                proof {
                    let len = self.history@.len() as int;
                    lemma_mod_window_shift(self.taken@[r as int], len + 1, n as int);
                    assert(self.avail(r as int) == n - 1);
                }
                return false;
            }
            r = r + 1;
        }
        proof {
            let len = self.history@.len() as int;
            assert forall|rr: int| 0 <= rr < self.reader_count() implies self.avail(rr) != n
                - 1 by {
                assert(self.read_idxs@[rr] != next);
                assert(self.read_idxs@[rr] as int == self.taken@[rr] % (n as int));
                lemma_mod_window_shift(self.taken@[rr], len + 1, n as int);
            }
            assert(!self.is_full());
        }
        let w = self.write_idx;
        self.slots.set(w, value);
        self.write_idx = next;
        proof {
            self.history@ = self.history@.push(value@);
        }
        wake_word_store(&self.wake, #[verifier::truncate] (next as u32));
        futex_wake_all(&self.wake);
        proof {
            let n = n as int;
            let len = old(self).history@.len() as int;
            assert(self.write_idx as int == (len + 1) % n);
            assert forall|rr: int| 0 <= rr < self.taken@.len() implies self.history@.len()
                - self.taken@[rr] < n by {
                lemma_mod_window_shift(old(self).taken@[rr], len + 1, n);
                assert(old(self).avail(rr) != n - 1);
            }
            assert forall|rr: int, j: int|
                #![trigger self.taken@[rr], self.history@[j]]
                0 <= rr < self.taken@.len() && self.taken@[rr] <= j < self.history@.len() implies
                self.slots@[j % n]@ == self.history@[j] by {
                if j < len {
                    lemma_mod_window(j, len, n);
                    assert(old(self).slots@[j % n]@ == old(self).history@[j]);
                } else {
                    lemma_mod_bound(len, n);
                }
            }
        }
        true
    }

    /// Writes `value`, which in the threaded setting would mean
    /// spinning until a reader frees a slot. A lone writer can make no
    /// such progress itself, so the ring must not be full on entry, and
    /// the write succeeds at once.
    pub fn write_spin(&mut self, value: Vec<u8>)
        requires
            old(self).wf(),
            !old(self).is_full(),
        ensures
            final(self).wf(),
            final(self).slot_count() == old(self).slot_count(),
            final(self).reader_count() == old(self).reader_count(),
            final(self).history() == old(self).history().push(value@),
            forall|r: int|
                0 <= r < old(self).reader_count() ==> final(self).taken(r) == old(self).taken(r),
    {
        let ok = self.try_write(value);
        assert(ok);
    }

    /// Returns a handle on reader `r`'s next unread slot, or nothing
    /// exactly when that reader has released everything written so
    /// far. Acquiring a handle does not move the cursor, so a handle
    /// that is never released leaves the reader on the same slot.
    pub fn try_read(&self, r: usize) -> (h: Option<AtomicBufferReadHandle>)
        requires
            self.wf(),
            (r as int) < self.reader_count(),
        ensures
            match h {
                Some(handle) => handle.spec_reader() == r as int && self.valid_handle(handle),
                None => !self.has_data(r as int),
            },
    {
        let pos = self.read_idxs[r];
        proof {
            let n = self.slots@.len() as int;
            let len = self.history@.len() as int;
            lemma_mod_window(self.taken@[r as int], len, n);
        }
        if pos != self.write_idx {
            Some(AtomicBufferReadHandle { reader: r, slot: pos })
        } else {
            None
        }
    }

    /// Returns a handle on reader `r`'s next unread slot. In the
    /// threaded setting this waits on the wake word until the writer
    /// publishes; a lone reader can make no such progress itself, so
    /// the reader must have data on entry and the handle comes back at
    /// once.
    pub fn read_spin(&self, r: usize) -> (h: AtomicBufferReadHandle)
        requires
            self.wf(),
            (r as int) < self.reader_count(),
            self.has_data(r as int),
        ensures
            h.spec_reader() == r as int,
            self.valid_handle(h),
    {
        match self.try_read(r) {
            Some(handle) => handle,
            None => {
                proof {
                    assert(false);
                }
                AtomicBufferReadHandle { reader: r, slot: 0 }
            },
        }
    }

    /// The bytes under `h`: the oldest payload its reader has not yet
    /// released.
    pub fn value<'a>(&'a self, h: &AtomicBufferReadHandle) -> (bytes: &'a Vec<u8>)
        requires
            self.wf(),
            self.valid_handle(*h),
        ensures
            bytes@ == self.pending(h.spec_reader())[0],
            bytes@ == self.history()[self.taken(h.spec_reader())],
    {
        proof {
            let n = self.slots@.len() as int;
            let rd = h.spec_reader();
            lemma_mod_bound(self.taken@[rd], n);
            assert(self.slots@[self.taken@[rd] % n]@ == self.history@[self.taken@[rd]]);
            assert(self.pending(rd)[0] == self.history@[self.taken@[rd]]);
        }
        &self.slots[h.slot]
    }

    /// Releases `h`: advances its reader's cursor one slot past the
    /// payload the handle pinned, which the reader will never be handed
    /// again.
    pub fn release(&mut self, h: AtomicBufferReadHandle)
        requires
            old(self).wf(),
            old(self).valid_handle(h),
        ensures
            final(self).wf(),
            final(self).slot_count() == old(self).slot_count(),
            final(self).reader_count() == old(self).reader_count(),
            final(self).history() == old(self).history(),
            final(self).taken(h.spec_reader()) == old(self).taken(h.spec_reader()) + 1,
            final(self).pending(h.spec_reader()) == old(self).pending(h.spec_reader()).skip(1),
            forall|r: int|
                0 <= r < old(self).reader_count() && r != h.spec_reader() ==> final(self).taken(r)
                    == old(self).taken(r) && final(self).read_cursor(r) == old(self).read_cursor(
                    r,
                ),
    {
        let n = self.slots.len();
        let pos = self.read_idxs[h.reader];
        proof {
            lemma_mod_bound(self.taken@[h.reader as int], n as int);
        }
        let newpos = (pos + 1) % n;
        self.read_idxs.set(h.reader, newpos);
        proof {
            let rd = h.spec_reader();
            let t = old(self).taken@[rd];
            self.taken@ = self.taken@.update(rd, t + 1);
            lemma_small_mod(1nat, n as nat);
            lemma_add_mod_noop(t, 1, n as int);
            assert(newpos as int == (t + 1) % (n as int));
            assert(final(self).pending(rd) =~= old(self).pending(rd).skip(1));
        }
    }
}

/// Law: a reader only ever observes fully published payloads — the
/// bytes a valid handle exposes are an entry of the write history — and
/// the slot it pins is never the slot the writer fills next, so no read
/// overlaps a write in progress.
pub proof fn lemma_reader_observes_published(ring: AtomicBufferSplit, r: int)
    requires
        ring.wf(),
        0 <= r < ring.reader_count(),
        ring.has_data(r),
    ensures
        0 <= ring.taken(r) < ring.history().len(),
        ring.pending(r)[0] == ring.history()[ring.taken(r)],
        ring.read_cursor(r) != ring.write_cursor(),
{
    lemma_mod_window(ring.taken(r), ring.history().len() as int, ring.slot_count());
}

/// Law: capacity is one less than the slot count. While every reader
/// is stalled at the start, the writer can have published at most
/// `n - 1` payloads, and the ring is full exactly when it has published
/// that many.
pub proof fn lemma_capacity(ring: AtomicBufferSplit)
    requires
        ring.wf(),
        forall|r: int| 0 <= r < ring.reader_count() ==> ring.taken(r) == 0,
    ensures
        ring.history().len() <= ring.slot_count() - 1,
        ring.is_full() <==> ring.history().len() == ring.slot_count() - 1,
{
    assert(ring.taken(0) == 0);
    if ring.history().len() == ring.slot_count() - 1 {
        assert(ring.avail(0) == ring.slot_count() - 1);
    }
}

/// Law: per-reader FIFO with exactly-once delivery. The payloads a
/// reader has released — the first `taken` entries of the history — and
/// those still pending for it compose to the whole write history: each
/// reader receives the published payloads in write order, each one
/// once, skipping none.
pub proof fn lemma_round_trip(ring: AtomicBufferSplit, r: int)
    requires
        ring.wf(),
        0 <= r < ring.reader_count(),
    ensures
        0 <= ring.taken(r) <= ring.history().len(),
        ring.history().take(ring.taken(r)) + ring.pending(r) == ring.history(),
{
    assert(ring.history().take(ring.taken(r)) + ring.pending(r) =~= ring.history());
}

/// Law: a leaked handle strands its reader on the same slot. Any two
/// valid handles of one reader are the same handle, so a reader whose
/// handle was dropped without release is handed the identical slot
/// again on its next acquisition.
pub proof fn lemma_leaked_handle_rereads(
    ring: AtomicBufferSplit,
    h1: AtomicBufferReadHandle,
    h2: AtomicBufferReadHandle,
)
    requires
        ring.wf(),
        ring.valid_handle(h1),
        ring.valid_handle(h2),
        h1.spec_reader() == h2.spec_reader(),
    ensures
        h1 == h2,
{
}

} // verus!
