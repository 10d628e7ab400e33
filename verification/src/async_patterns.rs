//! The decisions inside common async patterns, separated from the tasks,
//! channels and timers that drive them: a counter actor, a worker that
//! stops on a shutdown signal, a receiver that collects messages until a
//! deadline, a tracker of concurrent permits, and a countdown future.

use vstd::prelude::*;
use crate::countdown_future::{lemma_log_suffix_same, Pollable, Step};

verus! {

// ------------------------------------------------------------------
// Counter actor
// ------------------------------------------------------------------

/// A message to the counter actor; a `Get` is answered with the count.
pub enum CounterMsg {
    Increment,
    Get,
}

/// The state of a counter actor.
pub struct CounterActor {
    count: u32,
}

impl CounterActor {
    pub closed spec fn count_view(&self) -> u32 {
        self.count
    }

    /// A counter at zero.
    pub fn new() -> (a: Self)
        ensures
            a.count_view() == 0,
    {
        CounterActor { count: 0 }
    }

    /// The current count.
    pub fn count(&self) -> (n: u32)
        ensures
            n == self.count_view(),
    {
        self.count
    }

    /// Handles one message: `Increment` adds one and answers nothing, `Get`
    /// answers the count.
    pub fn handle(&mut self, msg: CounterMsg) -> (reply: Option<u32>)
        requires
            msg is Increment ==> old(self).count_view() < u32::MAX,
        ensures
            msg is Increment ==> final(self).count_view() == old(self).count_view() + 1 && reply is None,
            msg is Get ==> final(self).count_view() == old(self).count_view() && reply == Some(old(self).count_view()),
    {
        match msg {
            CounterMsg::Increment => {
                self.count = self.count + 1;
                None
            },
            CounterMsg::Get => Some(self.count),
        }
    }
}

/// The count that an actor reports after a run of messages: the number of
/// increments before it.
pub open spec fn increments(msgs: Seq<CounterMsg>) -> nat
    decreases msgs.len(),
{
    if msgs.len() == 0 {
        0
    } else {
        increments(msgs.drop_last()) + if msgs.last() is Increment { 1nat } else { 0nat }
    }
}

/// The answers that a run of messages gets: for each `Get`, in order, the
/// number of increments before it.
pub open spec fn get_replies(msgs: Seq<CounterMsg>) -> Seq<u32>
    decreases msgs.len(),
{
    if msgs.len() == 0 {
        seq![]
    } else if msgs.last() is Get {
        get_replies(msgs.drop_last()).push(increments(msgs.drop_last()) as u32)
    } else {
        get_replies(msgs.drop_last())
    }
}

/// Handles `msgs` in order and returns the answers to the `Get`s.
pub fn run_counter(msgs: Vec<CounterMsg>) -> (replies: Vec<u32>)
    requires
        increments(msgs@) <= u32::MAX,
    ensures
        replies@ == get_replies(msgs@),
{
    let ghost ms = msgs@;
    let mut actor = CounterActor::new();
    let mut replies: Vec<u32> = Vec::new();
    let mut msgs = msgs;
    let ghost mut k: int = 0;
    assert(ms.take(0) =~= Seq::<CounterMsg>::empty());
    assert(msgs@ =~= ms.skip(0));
    while msgs.len() > 0
        invariant
            0 <= k <= ms.len(),
            k + msgs@.len() == ms.len(),
            msgs@ == ms.skip(k),
            actor.count_view() == increments(ms.take(k)),
            increments(ms) <= u32::MAX,
            replies@ == get_replies(ms.take(k)),
        decreases msgs@.len(),
    {
        let m = msgs.remove(0);
        assert(m == ms[k]);
        assert(ms.take(k + 1).drop_last() =~= ms.take(k));
        assert(ms.take(k + 1).last() == ms[k]);
        proof { lemma_increments_prefix(ms, k + 1); }
        match actor.handle(m) {
            Some(v) => replies.push(v),
            None => {},
        }
        proof {
            k = k + 1;
        }
        assert(msgs@ =~= ms.skip(k));
    }
    assert(ms.take(k) =~= ms);
    replies
}

proof fn lemma_increments_prefix(s: Seq<CounterMsg>, k: int)
    requires
        0 <= k <= s.len(),
    ensures
        increments(s.take(k)) <= increments(s),
    decreases s.len(),
{
    if k < s.len() {
        assert(s.drop_last().take(k) =~= s.take(k));
        lemma_increments_prefix(s.drop_last(), k);
    } else {
        assert(s.take(k) =~= s);
    }
}

// ------------------------------------------------------------------
// A worker that stops on a shutdown signal
// ------------------------------------------------------------------

/// What a worker waits for: a change of the shutdown flag, or its tick.
pub enum WorkerEvent {
    ShutdownChanged(bool),
    Tick,
}

/// A worker counting ticks until it is told to shut down.
pub struct ShutdownWorker {
    ticks: u32,
    stopped: bool,
}

impl ShutdownWorker {
    pub closed spec fn ticks_view(&self) -> u32 {
        self.ticks
    }

    pub closed spec fn stopped_view(&self) -> bool {
        self.stopped
    }

    pub fn new() -> (w: Self)
        ensures
            w.ticks_view() == 0,
            !w.stopped_view(),
    {
        ShutdownWorker { ticks: 0, stopped: false }
    }

    /// A tick counts one; the flag turning true stops the worker; the flag
    /// turning false changes nothing. Returns whether the worker stopped.
    pub fn step(&mut self, event: WorkerEvent) -> (stop: bool)
        requires
            !old(self).stopped_view(),
            event is Tick ==> old(self).ticks_view() < u32::MAX,
        ensures
            stop == final(self).stopped_view(),
            match event {
                WorkerEvent::Tick => !stop && final(self).ticks_view() == old(self).ticks_view() + 1,
                WorkerEvent::ShutdownChanged(flag) => stop == flag && final(self).ticks_view() == old(self).ticks_view(),
            },
    {
        match event {
            WorkerEvent::Tick => {
                self.ticks = self.ticks + 1;
                false
            },
            WorkerEvent::ShutdownChanged(flag) => {
                self.stopped = flag;
                flag
            },
        }
    }

    /// The ticks counted.
    pub fn ticks(&self) -> (n: u32)
        ensures
            n == self.ticks_view(),
    {
        self.ticks
    }
}

// ------------------------------------------------------------------
// Receiving until a deadline
// ------------------------------------------------------------------

/// What the receiver waits for: the deadline, or the channel's next item
/// (`None` once every sender is gone).
pub enum RecvEvent {
    Deadline,
    Message(Option<String>),
}

/// Collects messages until the deadline passes or the channel closes.
pub struct DeadlineCollector {
    received: Vec<String>,
    done: bool,
}

impl DeadlineCollector {
    pub closed spec fn received_view(&self) -> Seq<Seq<char>> {
        self.received@.map_values(|s: String| s@)
    }

    pub closed spec fn done_view(&self) -> bool {
        self.done
    }

    pub fn new() -> (c: Self)
        ensures
            c.received_view() == Seq::<Seq<char>>::empty(),
            !c.done_view(),
    {
        let c = DeadlineCollector { received: Vec::new(), done: false };
        assert(c.received_view() =~= Seq::<Seq<char>>::empty());
        c
    }

    /// Keeps a message; stops at the deadline or when the channel closes.
    /// Returns whether collecting is over.
    pub fn step(&mut self, event: RecvEvent) -> (stop: bool)
        requires
            !old(self).done_view(),
        ensures
            stop == final(self).done_view(),
            match event {
                RecvEvent::Message(Some(m)) => !stop && final(self).received_view() == old(self).received_view().push(m@),
                _ => stop && final(self).received_view() == old(self).received_view(),
            },
    {
        match event {
            RecvEvent::Message(Some(m)) => {
                let ghost mv = m@;
                let ghost before = self.received@;
                self.received.push(m);
                assert(self.received_view() =~= before.map_values(|s: String| s@).push(mv));
                false
            },
            _ => {
                self.done = true;
                true
            },
        }
    }

    /// The messages received, in order.
    pub fn into_received(self) -> (r: Vec<String>)
        ensures
            r@.map_values(|s: String| s@) == self.received_view(),
    {
        self.received
    }
}

// ------------------------------------------------------------------
// Tracking concurrent permits
// ------------------------------------------------------------------

/// How many tasks hold a permit now, and the most that ever did.
pub struct PeakTracker {
    active: usize,
    peak: usize,
}

impl PeakTracker {
    pub closed spec fn active_view(&self) -> usize {
        self.active
    }

    pub closed spec fn peak_view(&self) -> usize {
        self.peak
    }

    pub fn new() -> (t: Self)
        ensures
            t.active_view() == 0,
            t.peak_view() == 0,
    {
        PeakTracker { active: 0, peak: 0 }
    }

    /// A task got a permit; returns how many hold one now.
    pub fn enter(&mut self) -> (current: usize)
        requires
            old(self).active_view() < usize::MAX,
        ensures
            current == old(self).active_view() + 1,
            final(self).active_view() == current,
            final(self).peak_view() == if current > old(self).peak_view() {
                current
            } else {
                old(self).peak_view()
            },
    {
        self.active = self.active + 1;
        if self.active > self.peak {
            self.peak = self.active;
        }
        self.active
    }

    /// A task gave its permit back.
    pub fn leave(&mut self)
        requires
            old(self).active_view() > 0,
        ensures
            final(self).active_view() == old(self).active_view() - 1,
            final(self).peak_view() == old(self).peak_view(),
    {
        self.active = self.active - 1;
    }

    pub fn active(&self) -> (n: usize)
        ensures
            n == self.active_view(),
    {
        self.active
    }

    pub fn peak(&self) -> (n: usize)
        ensures
            n == self.peak_view(),
    {
        self.peak
    }
}

// ------------------------------------------------------------------
// A countdown future
// ------------------------------------------------------------------

/// Pending for a number of polls, then done with `countdown complete!`.
pub struct TickCountdown {
    remaining: u32,
}

impl TickCountdown {
    pub closed spec fn remaining_view(&self) -> u32 {
        self.remaining
    }

    pub fn new(remaining: u32) -> (c: Self)
        ensures
            c.remaining_view() == remaining,
    {
        TickCountdown { remaining }
    }
}

impl Pollable for TickCountdown {
    type Output = String;

    open spec fn remaining(&self) -> nat {
        self.remaining_view() as nat
    }

    open spec fn completes_with(&self, v: String) -> bool {
        v@ == "countdown complete!"@
    }

    /// Ready with `countdown complete!` at zero; otherwise decrements and
    /// is pending. Logs nothing.
    open spec fn polls_to(&self, next: Self, lines: Seq<Seq<char>>, r: Step<String>) -> bool {
        &&& lines == Seq::<Seq<char>>::empty()
        &&& if self.remaining_view() == 0 {
            next.remaining_view() == 0 && (r matches Step::Ready(v) && v@ == "countdown complete!"@)
        } else {
            next.remaining_view() == self.remaining_view() - 1 && r is Pending
        }
    }

    fn poll_step(&mut self, log: &mut Vec<String>) -> (r: Step<String>) {
        assert(log@.subrange(0, log@.len() as int) =~= log@);
        proof {
            lemma_log_suffix_same(log@);
        }
        if self.remaining == 0 {
            Step::Ready("countdown complete!".to_owned())
        } else {
            self.remaining = self.remaining - 1;
            Step::Pending
        }
    }
}

} // verus!
