//! A deterministic in-memory radio channel for one sender and one
//! receiver: it can drop the first frame, swap neighbouring frames and
//! delay delivery by a fixed jitter on a virtual clock.

use vstd::prelude::*;

use crate::wire::bytes_option_view;

verus! {

/// What the channel does to frames; fixed when the channel is made.
#[derive(Debug, Clone, Copy)]
pub struct MockRfConfig {
    pub drop_first: bool,
    pub reorder: bool,
    pub jitter_ms: u64,
}

/// Remembers whether a frame has ever been pushed, and counts the one
/// frame that may be dropped: the first.
struct DropLatch {
    first_frame_seen: bool,
    dropped: usize,
}

impl DropLatch {
    #[verifier::type_invariant]
    spec fn inv(self) -> bool {
        &&& self.dropped <= 1
        &&& !self.first_frame_seen ==> self.dropped == 0
    }
}

struct MockRfRuntime {
    now_ms: u64,
    queue: Vec<(u64, Vec<u8>)>,
    delivered: usize,
    latch: DropLatch,
}

/// The channel: its configuration, a virtual clock, the frames in flight,
/// each with the time from which it can be delivered, and counters.
pub struct MockRf {
    config: MockRfConfig,
    runtime: MockRfRuntime,
}

/// Counters of a channel and its clock.
#[derive(Debug, Clone, Copy)]
pub struct MockRfStats {
    pub delivered: usize,
    pub dropped: usize,
    pub last_time_ms: u64,
}

/// A channel as a mathematical value.
pub struct MockRfView {
    pub config: MockRfConfig,
    pub now_ms: u64,
    /// Frames in flight, in the order in which `pop` looks at them, each
    /// with the time from which it is due.
    pub queue: Seq<(u64, Seq<u8>)>,
    pub delivered: nat,
    pub dropped: nat,
    /// Whether a frame has ever been pushed.
    pub first_frame_seen: bool,
}

/// The queue with its last two entries in each other's place.
pub open spec fn swap_last_two(q: Seq<(u64, Seq<u8>)>) -> Seq<(u64, Seq<u8>)>
    recommends
        q.len() >= 2,
{
    q.update(q.len() - 2, q[q.len() - 1]).update(q.len() - 1, q[q.len() - 2])
}

/// Index of the first entry that is due at `now`; the length of the queue
/// if none is.
pub open spec fn first_due(q: Seq<(u64, Seq<u8>)>, now: u64) -> int
    decreases q.len(),
{
    if q.len() == 0 {
        0
    } else if q[0].0 <= now {
        0
    } else {
        1 + first_due(q.drop_first(), now)
    }
}

impl MockRfView {
    /// A new channel: clock at 0, nothing in flight, nothing counted.
    pub open spec fn initial(drop_first: bool, reorder: bool, jitter_ms: u64) -> MockRfView {
        MockRfView {
            config: MockRfConfig { drop_first, reorder, jitter_ms },
            now_ms: 0,
            queue: Seq::empty(),
            delivered: 0,
            dropped: 0,
            first_frame_seen: false,
        }
    }

    /// The channel after the clock has moved on by `delta_ms`; the clock
    /// stops at `u64::MAX`.
    pub open spec fn advanced(self, delta_ms: u64) -> MockRfView {
        MockRfView {
            now_ms: if self.now_ms + delta_ms > u64::MAX {
                u64::MAX
            } else {
                (self.now_ms + delta_ms) as u64
            },
            ..self
        }
    }

    /// Whether the next frame pushed is dropped: it is the first ever, and
    /// `drop_first` is set.
    pub open spec fn drops_next(self) -> bool {
        self.config.drop_first && !self.first_frame_seen
    }

    /// The channel after `frame` has been pushed. The first frame ever is
    /// discarded and counted if `drop_first` is set. Any other goes to the
    /// end of the queue, due after the jitter; if `reorder` is set and
    /// the queue then holds two frames or more, the last two change places.
    pub open spec fn pushed(self, frame: Seq<u8>) -> MockRfView {
        if self.drops_next() {
            MockRfView { first_frame_seen: true, dropped: self.dropped + 1, ..self }
        } else {
            let q = self.queue.push(((self.now_ms + self.config.jitter_ms) as u64, frame));
            MockRfView {
                first_frame_seen: true,
                queue: if self.config.reorder && q.len() >= 2 {
                    swap_last_two(q)
                } else {
                    q
                },
                ..self
            }
        }
    }

    /// The frame that `pop` delivers: the first in the queue that is due.
    pub open spec fn due_frame(self) -> Option<Seq<u8>> {
        let i = first_due(self.queue, self.now_ms);
        if i < self.queue.len() {
            Some(self.queue[i].1)
        } else {
            None
        }
    }

    /// The channel after `pop`: without the frame delivered, which is
    /// counted; unchanged if none is due.
    pub open spec fn popped(self) -> MockRfView {
        let i = first_due(self.queue, self.now_ms);
        if i < self.queue.len() {
            MockRfView { queue: self.queue.remove(i), delivered: self.delivered + 1, ..self }
        } else {
            self
        }
    }
}

/// The first due entry is the one before which none is due.
proof fn lemma_first_due(q: Seq<(u64, Seq<u8>)>, now: u64, i: int)
    requires
        0 <= i <= q.len(),
        forall|j: int| 0 <= j < i ==> q[j].0 > now,
        i < q.len() ==> q[i].0 <= now,
    ensures
        first_due(q, now) == i,
    decreases q.len(),
{
    if q.len() > 0 && i > 0 {
        let t = q.drop_first();
        assert forall|j: int| 0 <= j < i - 1 implies t[j].0 > now by {
            assert(t[j] == q[j + 1]);
        }
        lemma_first_due(t, now, i - 1);
    }
}

/// The frames in flight as mathematical values.
pub open spec fn queue_view(q: Seq<(u64, Vec<u8>)>) -> Seq<(u64, Seq<u8>)> {
    q.map_values(|e: (u64, Vec<u8>)| (e.0, e.1@))
}

impl View for MockRf {
    type V = MockRfView;

    closed spec fn view(&self) -> MockRfView {
        MockRfView {
            config: self.config,
            now_ms: self.runtime.now_ms,
            queue: queue_view(self.runtime.queue@),
            delivered: self.runtime.delivered as nat,
            dropped: self.runtime.latch.dropped as nat,
            first_frame_seen: self.runtime.latch.first_frame_seen,
        }
    }
}

impl MockRf {
    /// A channel with its clock at 0 and nothing in flight.
    pub fn new(drop_first: bool, reorder: bool, jitter_ms: u64) -> (rf: Self)
        ensures
            rf@ == MockRfView::initial(drop_first, reorder, jitter_ms),
    {
        let rf = Self {
            config: MockRfConfig { drop_first, reorder, jitter_ms },
            runtime: MockRfRuntime {
                now_ms: 0,
                queue: Vec::new(),
                delivered: 0,
                latch: DropLatch { first_frame_seen: false, dropped: 0 },
            },
        };
        assert(queue_view(rf.runtime.queue@) =~= Seq::empty());
        rf
    }

    /// Moves the virtual clock on by `delta_ms`, stopping at `u64::MAX`.
    pub fn advance(&mut self, delta_ms: u64)
        ensures
            final(self)@ == old(self)@.advanced(delta_ms),
    {
        self.runtime.now_ms = self.runtime.now_ms.saturating_add(delta_ms);
    }

    /// Hands a frame to the channel. Where the frame is not dropped, the
    /// time from which it is due has to fit the clock.
    pub fn push(&mut self, frame: Vec<u8>)
        requires
            !old(self)@.drops_next() ==> old(self)@.now_ms + old(self)@.config.jitter_ms
                <= u64::MAX,
        ensures
            final(self)@ == old(self)@.pushed(frame@),
    {
        proof {
            use_type_invariant(&self.runtime.latch);
        }
        if self.config.drop_first && !self.runtime.latch.first_frame_seen {
            self.runtime.latch.first_frame_seen = true;
            self.runtime.latch.dropped += 1;
            return ;
        }
        self.runtime.latch.first_frame_seen = true;
        let deliver_at = self.runtime.now_ms + self.config.jitter_ms;
        let ghost before = self.runtime.queue@;
        self.runtime.queue.push((deliver_at, frame));
        assert(queue_view(self.runtime.queue@) =~= queue_view(before).push((deliver_at, frame@)));
        if self.config.reorder && self.runtime.queue.len() >= 2 {
            let len = self.runtime.queue.len();
            let ghost q = self.runtime.queue@;
            let last = self.runtime.queue.pop().unwrap();
            self.runtime.queue.insert(len - 2, last);
            assert(queue_view(self.runtime.queue@) =~= swap_last_two(queue_view(q)));
        }
    }

    /// Whether the next frame pushed is dropped.
    pub fn drops_next(&self) -> (r: bool)
        ensures
            r == self@.drops_next(),
    {
        self.config.drop_first && !self.runtime.latch.first_frame_seen
    }

    /// Whether a frame in the queue is due.
    pub fn has_due(&self) -> (r: bool)
        ensures
            r == (self@.due_frame() is Some),
    {
        let pos = self.first_due_index();
        pos < self.runtime.queue.len()
    }

    /// Index of the first frame in the queue that is due; the length of the
    /// queue if none is.
    fn first_due_index(&self) -> (pos: usize)
        ensures
            pos == first_due(self@.queue, self@.now_ms),
            pos <= self.runtime.queue@.len(),
    {
        let mut pos: usize = 0;
        while pos < self.runtime.queue.len() && self.runtime.queue[pos].0 > self.runtime.now_ms
            invariant
                pos <= self.runtime.queue@.len(),
                forall|j: int| 0 <= j < pos ==> self.runtime.queue@[j].0 > self.runtime.now_ms,
            decreases self.runtime.queue@.len() - pos,
        {
            pos += 1;
        }
        proof {
            lemma_first_due(queue_view(self.runtime.queue@), self.runtime.now_ms, pos as int);
        }
        pos
    }

    /// Delivers the first frame in the queue that is due, if there is one.
    /// Where one is due, the counter of deliveries has to have room for it.
    pub fn pop(&mut self) -> (r: Option<Vec<u8>>)
        requires
            old(self)@.due_frame() is Some ==> old(self)@.delivered < usize::MAX,
        ensures
            bytes_option_view(r) == old(self)@.due_frame(),
            final(self)@ == old(self)@.popped(),
    {
        let pos = self.first_due_index();
        if pos < self.runtime.queue.len() {
            let ghost q = self.runtime.queue@;
            self.runtime.delivered += 1;
            let entry = self.runtime.queue.remove(pos);
            assert(queue_view(self.runtime.queue@) =~= queue_view(q).remove(pos as int));
            Some(entry.1)
        } else {
            None
        }
    }

    /// The counters and the clock.
    pub fn stats(&self) -> (s: MockRfStats)
        ensures
            s.delivered == self@.delivered,
            s.dropped == self@.dropped,
            s.last_time_ms == self@.now_ms,
    {
        MockRfStats {
            delivered: self.runtime.delivered,
            dropped: self.runtime.latch.dropped,
            last_time_ms: self.runtime.now_ms,
        }
    }
}

} // verus!
