//! The core of a small single-threaded async runtime: a timer queue that
//! orders sleeping tasks by deadline, a sleep future over it, the shared
//! state behind join handles and simulated I/O, and a combinator that runs
//! any number of computations side by side. Times are ticks (nanoseconds)
//! since the runtime started; the caller reads the clock and hands the
//! time in.

use vstd::prelude::*;
use crate::countdown_future::{
    lemma_log_suffix_concat, lemma_log_suffix_push, lemma_log_suffix_same, log_lines, Pollable, Step,
};
use crate::text::{decimal, push_decimal, push_str};

verus! {

broadcast use vstd::seq_lib::group_seq_properties;

// ------------------------------------------------------------------
// Timer queue
// ------------------------------------------------------------------

/// Deadlines strictly increasing, each with at least one waker.
pub open spec fn timers_wf<W>(s: Seq<(u64, Seq<W>)>) -> bool {
    &&& forall|i: int, j: int| 0 <= i < j < s.len() ==> s[i].0 < s[j].0
    &&& forall|i: int| 0 <= i < s.len() ==> (#[trigger] s[i]).1.len() > 0
}

/// How many leading entries have a deadline below `d`: where `d` belongs.
pub open spec fn count_below<W>(s: Seq<(u64, Seq<W>)>, d: u64) -> nat
    decreases s.len(),
{
    if s.len() == 0 {
        0
    } else if s[0].0 < d {
        1 + count_below(s.drop_first(), d)
    } else {
        0
    }
}

/// How many leading entries have a deadline at or before `now`: the
/// entries that have expired.
pub open spec fn count_expired<W>(s: Seq<(u64, Seq<W>)>, now: u64) -> nat
    decreases s.len(),
{
    if s.len() == 0 {
        0
    } else if s[0].0 <= now {
        1 + count_expired(s.drop_first(), now)
    } else {
        0
    }
}

/// The wakers of the entries, in deadline order and, for one deadline, in
/// the order they were registered.
pub open spec fn all_wakers<W>(s: Seq<(u64, Seq<W>)>) -> Seq<W> {
    s.map_values(|e: (u64, Seq<W>)| e.1).flatten()
}

proof fn lemma_count_below<W>(s: Seq<(u64, Seq<W>)>, d: u64)
    requires
        timers_wf(s),
    ensures
        count_below(s, d) <= s.len(),
        forall|i: int| 0 <= i < count_below(s, d) ==> #[trigger] s[i].0 < d,
        forall|i: int| count_below(s, d) <= i < s.len() ==> #[trigger] s[i].0 >= d,
    decreases s.len(),
{
    if s.len() > 0 {
        lemma_count_below(s.drop_first(), d);
        assert forall|i: int| count_below(s, d) <= i < s.len() implies #[trigger] s[i].0 >= d by {
            if s[0].0 < d {
                assert(s[i] == s.drop_first()[i - 1]);
            } else if i > 0 {
                assert(s[0].0 < s[i].0);
            }
        }
        assert forall|i: int| 0 <= i < count_below(s, d) implies #[trigger] s[i].0 < d by {
            if i > 0 {
                assert(s[i] == s.drop_first()[i - 1]);
            }
        }
    }
}

proof fn lemma_count_expired<W>(s: Seq<(u64, Seq<W>)>, now: u64)
    requires
        timers_wf(s),
    ensures
        count_expired(s, now) <= s.len(),
        forall|i: int| 0 <= i < count_expired(s, now) ==> #[trigger] s[i].0 <= now,
        forall|i: int| count_expired(s, now) <= i < s.len() ==> #[trigger] s[i].0 > now,
    decreases s.len(),
{
    if s.len() > 0 {
        lemma_count_expired(s.drop_first(), now);
        assert forall|i: int| count_expired(s, now) <= i < s.len() implies #[trigger] s[i].0 > now by {
            if s[0].0 <= now {
                assert(s[i] == s.drop_first()[i - 1]);
            } else if i > 0 {
                assert(s[0].0 < s[i].0);
            }
        }
        assert forall|i: int| 0 <= i < count_expired(s, now) implies #[trigger] s[i].0 <= now by {
            if i > 0 {
                assert(s[i] == s.drop_first()[i - 1]);
            }
        }
    }
}

/// The entry count below which every deadline is below `d` and from which
/// none is, is `count_below`.
proof fn lemma_count_below_unique<W>(s: Seq<(u64, Seq<W>)>, d: u64, k: int)
    requires
        0 <= k <= s.len(),
        forall|i: int| 0 <= i < k ==> #[trigger] s[i].0 < d,
        forall|i: int| k <= i < s.len() ==> #[trigger] s[i].0 >= d,
    ensures
        count_below(s, d) == k,
    decreases s.len(),
{
    if s.len() > 0 {
        if k > 0 {
            assert forall|i: int| 0 <= i < k - 1 implies #[trigger] s.drop_first()[i].0 < d by {
                assert(s.drop_first()[i] == s[i + 1]);
            }
            assert forall|i: int| k - 1 <= i < s.drop_first().len() implies #[trigger] s.drop_first()[i].0 >= d by {
                assert(s.drop_first()[i] == s[i + 1]);
            }
            lemma_count_below_unique(s.drop_first(), d, k - 1);
        } else {
            assert(s[0].0 >= d);
        }
    }
}

proof fn lemma_count_expired_unique<W>(s: Seq<(u64, Seq<W>)>, now: u64, k: int)
    requires
        0 <= k <= s.len(),
        forall|i: int| 0 <= i < k ==> #[trigger] s[i].0 <= now,
        forall|i: int| k <= i < s.len() ==> #[trigger] s[i].0 > now,
    ensures
        count_expired(s, now) == k,
    decreases s.len(),
{
    if s.len() > 0 {
        if k > 0 {
            assert forall|i: int| 0 <= i < k - 1 implies #[trigger] s.drop_first()[i].0 <= now by {
                assert(s.drop_first()[i] == s[i + 1]);
            }
            assert forall|i: int| k - 1 <= i < s.drop_first().len() implies #[trigger] s.drop_first()[i].0 > now by {
                assert(s.drop_first()[i] == s[i + 1]);
            }
            lemma_count_expired_unique(s.drop_first(), now, k - 1);
        } else {
            assert(s[0].0 > now);
        }
    }
}

/// The queue after registering `waker` for `deadline`: appended to that
/// deadline's wakers, or a new entry where the deadline belongs.
pub open spec fn registered<W>(s: Seq<(u64, Seq<W>)>, deadline: u64, waker: W) -> Seq<(u64, Seq<W>)> {
    let p = count_below(s, deadline) as int;
    if p < s.len() && s[p].0 == deadline {
        s.update(p, (deadline, s[p].1.push(waker)))
    } else {
        s.insert(p, (deadline, seq![waker]))
    }
}

/// Registering keeps the queue ordered, and the new waker is the last one
/// of the entry for its deadline, which sits at `count_below`.
#[verifier::spinoff_prover]
proof fn lemma_registered<W>(s: Seq<(u64, Seq<W>)>, d: u64, w: W)
    requires
        timers_wf(s),
    ensures
        timers_wf(registered(s, d, w)),
        count_below(s, d) < registered(s, d, w).len(),
        registered(s, d, w)[count_below(s, d) as int].0 == d,
        registered(s, d, w)[count_below(s, d) as int].1.last() == w,
        forall|i: int| 0 <= i < count_below(s, d) ==> #[trigger] registered(s, d, w)[i] == s[i],
        forall|i: int| count_below(s, d) < i < registered(s, d, w).len() ==> #[trigger] registered(s, d, w)[i].0 > d,
{
    lemma_count_below(s, d);
    let p = count_below(s, d) as int;
    let t = registered(s, d, w);
    if p < s.len() && s[p].0 == d {
        assert forall|i: int| p < i < t.len() implies #[trigger] t[i].0 > d by {
            assert(s[p].0 < s[i].0);
        }
    } else {
        assert forall|i: int, j: int| 0 <= i < j < t.len() implies t[i].0 < t[j].0 by {
            if j < p {
            } else if i < p && j == p {
            } else if i < p {
                assert(t[j] == s[j - 1]);
            } else if i == p {
                assert(t[j] == s[j - 1]);
                assert(s[j - 1].0 >= d);
                if p < s.len() {
                    assert(s[p].0 != d);
                    if j - 1 > p {
                        assert(s[p].0 < s[j - 1].0);
                    }
                }
            } else {
                assert(t[i] == s[i - 1]);
                assert(t[j] == s[j - 1]);
            }
        }
        assert forall|i: int| p < i < t.len() implies #[trigger] t[i].0 > d by {
            assert(t[i] == s[i - 1]);
            assert(t[p].0 < t[i].0);
        }
        assert forall|i: int| 0 <= i < t.len() implies (#[trigger] t[i]).1.len() > 0 by {
            if i > p {
                assert(t[i] == s[i - 1]);
            }
        }
    }
}

/// A sleeping task is woken by the first collection of expired timers at
/// or after its deadline, and not by one before it: after registering
/// `waker` for `deadline`, its entry is among those that `take_expired(now)`
/// removes exactly when `deadline <= now`.
pub proof fn law_timer_wakes_at_deadline<W>(s: Seq<(u64, Seq<W>)>, deadline: u64, waker: W, now: u64)
    requires
        timers_wf(s),
    ensures
        ({
            let t = registered(s, deadline, waker);
            let p = count_below(s, deadline) as int;
            &&& timers_wf(t)
            &&& 0 <= p < t.len()
            &&& t[p].0 == deadline
            &&& t[p].1.last() == waker
            &&& (p < count_expired(t, now)) == (deadline <= now)
        }),
{
    lemma_registered(s, deadline, waker);
    let t = registered(s, deadline, waker);
    lemma_count_expired(t, now);
}

/// Sleeping tasks' wakers, grouped and ordered by deadline.
pub struct TimerQueue<W> {
    entries: Vec<(u64, Vec<W>)>,
}

impl<W> View for TimerQueue<W> {
    type V = Seq<(u64, Seq<W>)>;

    closed spec fn view(&self) -> Seq<(u64, Seq<W>)> {
        self.entries@.map_values(|e: (u64, Vec<W>)| (e.0, e.1@))
    }
}

impl<W> TimerQueue<W> {
    pub open spec fn wf(&self) -> bool {
        timers_wf(self@)
    }

    /// An empty queue.
    pub fn new() -> (q: Self)
        ensures
            q@ == Seq::<(u64, Seq<W>)>::empty(),
            q.wf(),
    {
        let q = TimerQueue { entries: Vec::new() };
        assert(q@ =~= Seq::<(u64, Seq<W>)>::empty());
        q
    }

    /// Registers `waker` to be woken at `deadline`, after any waker already
    /// registered for it.
    #[verifier::rlimit(40)]
    pub fn register(&mut self, deadline: u64, waker: W)
        requires
            old(self).wf(),
        ensures
            final(self).wf(),
            final(self)@ == registered(old(self)@, deadline, waker),
    {
        let ghost s = self@;
        proof { lemma_count_below(s, deadline); }
        let mut p: usize = 0;
        while p < self.entries.len() && self.entries[p].0 < deadline
            invariant
                s == self@,
                s == old(self)@,
                timers_wf(s),
                p <= self.entries.len(),
                forall|i: int| 0 <= i < p ==> #[trigger] s[i].0 < deadline,
            decreases self.entries.len() - p,
        {
            assert(s[p as int].0 == self.entries@[p as int].0);
            p = p + 1;
        }
        proof {
            if p < s.len() {
                assert(s[p as int].0 == self.entries@[p as int].0);
                assert forall|i: int| p <= i < s.len() implies #[trigger] s[i].0 >= deadline by {
                    if i > p {
                        assert(s[p as int].0 < s[i].0);
                    }
                }
            }
            lemma_count_below_unique(s, deadline, p as int);
        }
        if p < self.entries.len() && self.entries[p].0 == deadline {
            let (k, mut ws) = self.entries.remove(p);
            ws.push(waker);
            self.entries.insert(p, (k, ws));
            proof {
                assert(self@ =~= s.update(p as int, (deadline, s[p as int].1.push(waker))));
                lemma_registered(s, deadline, waker);
            }
        } else {
            let mut ws: Vec<W> = Vec::new();
            ws.push(waker);
            self.entries.insert(p, (deadline, ws));
            proof {
                assert(self@ =~= s.insert(p as int, (deadline, seq![waker])));
                lemma_registered(s, deadline, waker);
            }
        }
    }

    /// The earliest deadline, if any task sleeps.
    pub fn next_deadline(&self) -> (r: Option<u64>)
        requires
            self.wf(),
        ensures
            self@.len() == 0 ==> r is None,
            self@.len() > 0 ==> r == Some(self@[0].0),
            r matches Some(d) ==> forall|i: int| 0 <= i < self@.len() ==> d <= #[trigger] self@[i].0,
    {
        if self.entries.len() == 0 {
            None
        } else {
            proof {
                assert forall|i: int| 0 <= i < self@.len() implies self@[0].0 <= #[trigger] self@[i].0 by {
                    if i > 0 {
                        assert(self@[0].0 < self@[i].0);
                    }
                }
            }
            Some(self.entries[0].0)
        }
    }

    /// Removes every entry whose deadline is at or before `now` and returns
    /// their wakers, earliest deadline first.
    pub fn take_expired(&mut self, now: u64) -> (r: Vec<W>)
        requires
            old(self).wf(),
        ensures
            final(self).wf(),
            final(self)@ == old(self)@.skip(count_expired(old(self)@, now) as int),
            r@ == all_wakers(old(self)@.take(count_expired(old(self)@, now) as int)),
    {
        let ghost s = self@;
        let mut out: Vec<W> = Vec::new();
        let ghost mut taken: int = 0;
        proof {
            assert(s.take(0).map_values(|e: (u64, Seq<W>)| e.1) =~= Seq::<Seq<W>>::empty());
            assert(self@ =~= s.skip(0));
        }
        while self.entries.len() > 0 && self.entries[0].0 <= now
            invariant
                timers_wf(s),
                s == old(self)@,
                0 <= taken <= s.len(),
                self@ == s.skip(taken),
                forall|i: int| 0 <= i < taken ==> #[trigger] s[i].0 <= now,
                out@ == all_wakers(s.take(taken)),
            decreases self.entries.len(),
        {
            let ghost before = self@;
            assert(before.len() == self.entries@.len());
            assert(taken < s.len());
            assert(before[0] == s[taken]);
            let (_k, mut ws) = self.entries.remove(0);
            proof {
                assert(ws@ == s[taken].1);
                let pre = s.take(taken).map_values(|e: (u64, Seq<W>)| e.1);
                assert(s.take(taken + 1).map_values(|e: (u64, Seq<W>)| e.1) =~= pre.push(s[taken].1));
                pre.lemma_flatten_push(s[taken].1);
            }
            out.append(&mut ws);
            proof {
                taken = taken + 1;
                assert(self@ =~= s.skip(taken));
            }
        }
        proof {
            if taken < s.len() {
                assert(self@[0] == s[taken]);
                assert forall|i: int| taken <= i < s.len() implies #[trigger] s[i].0 > now by {
                    if i > taken {
                        assert(s[taken].0 < s[i].0);
                    }
                }
            }
            lemma_count_expired_unique(s, now, taken);
            assert forall|i: int, j: int| 0 <= i < j < self@.len() implies self@[i].0 < self@[j].0 by {
                assert(self@[i] == s[i + taken]);
                assert(self@[j] == s[j + taken]);
            }
            assert forall|i: int| 0 <= i < self@.len() implies (#[trigger] self@[i]).1.len() > 0 by {
                assert(self@[i] == s[i + taken]);
            }
        }
        out
    }
}

// ------------------------------------------------------------------
// Sleep
// ------------------------------------------------------------------

/// A future that completes once the clock reaches its deadline. The first
/// poll before the deadline registers the task's waker with the timers.
pub struct Sleep {
    deadline: u64,
    registered: bool,
}

impl Sleep {
    pub closed spec fn deadline_view(&self) -> u64 {
        self.deadline
    }

    pub closed spec fn registered_view(&self) -> bool {
        self.registered
    }

    /// A sleep of `duration` ticks from `now`.
    pub fn new(now: u64, duration: u64) -> (s: Self)
        requires
            now + duration <= u64::MAX,
        ensures
            s.deadline_view() == now + duration,
            !s.registered_view(),
    {
        Sleep { deadline: now + duration, registered: false }
    }

    /// Ready once `now` has reached the deadline. Before that, the first
    /// poll registers `waker` for the deadline; later polls only wait.
    pub fn poll<W>(&mut self, now: u64, timers: &mut TimerQueue<W>, waker: W) -> (ready: bool)
        requires
            old(timers).wf(),
        ensures
            final(timers).wf(),
            final(self).deadline_view() == old(self).deadline_view(),
            ready == (now >= old(self).deadline_view()),
            ready ==> final(timers)@ == old(timers)@ && final(self).registered_view() == old(self).registered_view(),
            !ready && !old(self).registered_view() ==> final(self).registered_view()
                && final(timers)@ == registered(old(timers)@, old(self).deadline_view(), waker),
            !ready && old(self).registered_view() ==> final(self).registered_view() && final(timers)@ == old(timers)@,
    {
        if now >= self.deadline {
            true
        } else {
            if !self.registered {
                timers.register(self.deadline, waker);
                self.registered = true;
            }
            false
        }
    }
}

// ------------------------------------------------------------------
// Join handles
// ------------------------------------------------------------------

/// What a spawned task shares with the handle that awaits it.
pub enum JoinState<T, W> {
    /// Nobody has polled the handle yet.
    Unawaited,
    /// The handle was polled; wake this waker when the result arrives.
    Waiting(W),
    /// The task finished with this value.
    Ready(T),
    /// The handle took the value.
    Taken,
}

/// The state after polling the handle with `waker`, and what the poll
/// returns.
pub open spec fn join_polled<T, W>(s: JoinState<T, W>, waker: W) -> (JoinState<T, W>, Option<T>) {
    match s {
        JoinState::Ready(v) => (JoinState::Taken, Some(v)),
        _ => (JoinState::Waiting(waker), None),
    }
}

/// The state after the task finishes with `value`, and the waker to wake.
pub open spec fn join_completed<T, W>(s: JoinState<T, W>, value: T) -> (JoinState<T, W>, Option<W>) {
    (JoinState::Ready(value), match s {
        JoinState::Waiting(w) => Some(w),
        _ => None,
    })
}

impl<T, W> JoinState<T, W> {
    /// Polling the handle: takes the value when ready, otherwise records
    /// `waker` to be woken on completion. A handle is not polled again
    /// after it took the value.
    pub fn poll(&mut self, waker: W) -> (r: Option<T>)
        requires
            !(*old(self) is Taken),
        ensures
            (*final(self), r) == join_polled(*old(self), waker),
    {
        let mut old_state = JoinState::Taken;
        std::mem::swap(&mut old_state, self);
        match old_state {
            JoinState::Ready(v) => Some(v),
            _ => {
                *self = JoinState::Waiting(waker);
                None
            },
        }
    }

    /// The task finishing with `value`: stores it and hands back the waker
    /// to wake, if the handle was waiting.
    pub fn complete(&mut self, value: T) -> (wake: Option<W>)
        ensures
            (*final(self), wake) == join_completed(*old(self), value),
    {
        let mut old_state = JoinState::Ready(value);
        std::mem::swap(&mut old_state, self);
        match old_state {
            JoinState::Waiting(w) => Some(w),
            _ => None,
        }
    }
}

/// Once the task has finished, the next poll of its handle returns the
/// value it finished with, whatever the handle's state was before.
pub proof fn law_join_poll_after_complete<T, W>(s: JoinState<T, W>, value: T, waker: W)
    ensures
        join_polled(join_completed(s, value).0, waker) == (JoinState::<T, W>::Taken, Some(value)),
{
}

/// A handle that was polled before the task finished is woken with the
/// waker of that poll when the task finishes.
pub proof fn law_join_waiting_handle_is_woken<T, W>(s: JoinState<T, W>, waker: W, value: T)
    requires
        !(s is Ready),
    ensures
        join_polled(s, waker).1 is None,
        join_completed(join_polled(s, waker).0, value).1 == Some(waker),
{
}

// ------------------------------------------------------------------
// Simulated I/O
// ------------------------------------------------------------------

/// What an I/O operation shares with the future that awaits it.
pub enum IoState<T, W> {
    /// Not finished; the waker of the last poll, if any.
    Pending(Option<W>),
    /// Finished with this value.
    Ready(T),
}

/// The state after polling with `waker`, and what the poll returns.
pub open spec fn io_polled<T, W>(s: IoState<T, W>, waker: W) -> (IoState<T, W>, Option<T>) {
    match s {
        IoState::Ready(v) => (IoState::Pending(None), Some(v)),
        IoState::Pending(_) => (IoState::Pending(Some(waker)), None),
    }
}

/// The state after the operation finishes with `value`, and the waker to
/// wake.
pub open spec fn io_completed<T, W>(s: IoState<T, W>, value: T) -> (IoState<T, W>, Option<W>) {
    (IoState::Ready(value), match s {
        IoState::Pending(w) => w,
        IoState::Ready(_) => None,
    })
}

impl<T, W> IoState<T, W> {
    /// Polling the future: takes the value when ready (leaving the state
    /// pending with no waker), otherwise records `waker`.
    pub fn poll(&mut self, waker: W) -> (r: Option<T>)
        ensures
            (*final(self), r) == io_polled(*old(self), waker),
    {
        let mut old_state = IoState::Pending(None);
        std::mem::swap(&mut old_state, self);
        match old_state {
            IoState::Ready(v) => Some(v),
            IoState::Pending(_) => {
                *self = IoState::Pending(Some(waker));
                None
            },
        }
    }

    /// The operation finishing with `value`: stores it and hands back the
    /// waker to wake, if a poll left one.
    pub fn complete(&mut self, value: T) -> (wake: Option<W>)
        ensures
            (*final(self), wake) == io_completed(*old(self), value),
    {
        let mut old_state = IoState::Ready(value);
        std::mem::swap(&mut old_state, self);
        match old_state {
            IoState::Pending(w) => w,
            IoState::Ready(_) => None,
        }
    }
}

/// After the operation finishes, the next poll returns its value.
pub proof fn law_io_poll_after_complete<T, W>(s: IoState<T, W>, value: T, waker: W)
    ensures
        io_polled(io_completed(s, value).0, waker).1 == Some(value),
{
}

/// A future polled before the operation finishes is woken with the waker
/// of its latest poll.
pub proof fn law_io_pending_poll_is_woken<T, W>(s: IoState<T, W>, waker: W, value: T)
    requires
        s is Pending,
    ensures
        io_polled(s, waker).1 is None,
        io_completed(io_polled(s, waker).0, value).1 == Some(waker),
{
}

// ------------------------------------------------------------------
// Joining many computations
// ------------------------------------------------------------------

/// One computation of a `JoinAll`: still running, or finished with a value.
pub enum Slot<F: Pollable> {
    Running(F),
    Done(F::Output),
}

/// The polls a slot may still return `Pending` for, plus one for the poll
/// that finishes it.
pub open spec fn slot_remaining<F: Pollable>(s: Slot<F>) -> nat {
    match s {
        Slot::Running(f) => f.remaining() + 1,
        Slot::Done(_) => 0,
    }
}

/// `v` is a value that the slot may end with.
pub open spec fn slot_accepts<F: Pollable>(s: Slot<F>, v: F::Output) -> bool {
    match s {
        Slot::Running(f) => f.completes_with(v),
        Slot::Done(x) => x == v,
    }
}

pub open spec fn slots_remaining<F: Pollable>(s: Seq<Slot<F>>) -> nat
    decreases s.len(),
{
    if s.len() == 0 {
        0
    } else {
        slots_remaining(s.drop_last()) + slot_remaining(s.last())
    }
}

proof fn lemma_slots_remaining_le<F: Pollable>(a: Seq<Slot<F>>, b: Seq<Slot<F>>)
    requires
        a.len() == b.len(),
        forall|i: int| 0 <= i < a.len() ==> slot_remaining(#[trigger] b[i]) <= slot_remaining(a[i]),
    ensures
        slots_remaining(b) <= slots_remaining(a),
        (exists|i: int| 0 <= i < a.len() && slot_remaining(#[trigger] b[i]) < slot_remaining(a[i]))
            ==> slots_remaining(b) < slots_remaining(a),
    decreases a.len(),
{
    if a.len() > 0 {
        let n = a.len() - 1;
        assert forall|i: int| 0 <= i < a.drop_last().len() implies slot_remaining(#[trigger] b.drop_last()[i])
            <= slot_remaining(a.drop_last()[i]) by {
            assert(b.drop_last()[i] == b[i] && a.drop_last()[i] == a[i]);
        }
        lemma_slots_remaining_le(a.drop_last(), b.drop_last());
        if exists|i: int| 0 <= i < a.len() && slot_remaining(#[trigger] b[i]) < slot_remaining(a[i]) {
            let i = choose|i: int| 0 <= i < a.len() && slot_remaining(#[trigger] b[i]) < slot_remaining(a[i]);
            if i < n {
                assert(b.drop_last()[i] == b[i] && a.drop_last()[i] == a[i]);
            }
        }
    }
}

/// One slot in one poll: a finished slot is left as it is, not polled,
/// and writes nothing; a running one is polled once and holds its value
/// afterwards if that poll was ready.
pub open spec fn slot_polls_to<F: Pollable>(s: Slot<F>, after: Slot<F>, lines: Seq<Seq<char>>) -> bool {
    match s {
        Slot::Done(x) => after == Slot::<F>::Done(x) && lines == Seq::<Seq<char>>::empty(),
        Slot::Running(f) => exists|f2: F, r: Step<F::Output>|
            #[trigger] f.polls_to(f2, lines, r) && after == match r {
                Step::Ready(v) => Slot::<F>::Done(v),
                Step::Pending => Slot::<F>::Running(f2),
            },
    }
}

/// The lines of each slot, in slot order.
pub open spec fn joined_lines(ls: Seq<Seq<Seq<char>>>) -> Seq<Seq<char>>
    decreases ls.len(),
{
    if ls.len() == 0 {
        Seq::empty()
    } else {
        joined_lines(ls.drop_last()) + ls.last()
    }
}

/// Every slot takes its step (to `after`, writing `ls`), in slot order.
pub open spec fn slots_poll_to<F: Pollable>(
    before: Seq<Slot<F>>,
    after: Seq<Slot<F>>,
    ls: Seq<Seq<Seq<char>>>,
) -> bool {
    &&& after.len() == before.len()
    &&& ls.len() == before.len()
    &&& forall|i: int| 0 <= i < before.len() ==> #[trigger] slot_polls_to(before[i], after[i], ls[i])
}

/// Runs computations side by side, polling each unfinished one per poll,
/// and finishes with all their values, in order, once all have finished.
pub struct JoinAll<F: Pollable> {
    slots: Vec<Slot<F>>,
}

impl<F: Pollable> JoinAll<F> {
    pub closed spec fn slots_view(&self) -> Seq<Slot<F>> {
        self.slots@
    }

    pub fn new(futures: Vec<F>) -> (j: Self)
        ensures
            j.slots_view().len() == futures@.len(),
            forall|i: int| 0 <= i < futures@.len() ==> #[trigger] j.slots_view()[i] == Slot::<F>::Running(futures@[i]),
    {
        let ghost fs = futures@;
        let mut futures = futures;
        let mut slots: Vec<Slot<F>> = Vec::new();
        let mut k: usize = 0;
        let n = futures.len();
        while futures.len() > 0
            invariant
                n == fs.len(),
                k + futures@.len() == n,
                futures@ == fs.skip(k as int),
                slots@.len() == k,
                forall|i: int| 0 <= i < k ==> #[trigger] slots@[i] == Slot::<F>::Running(fs[i]),
            decreases futures@.len(),
        {
            let f = futures.remove(0);
            assert(f == fs[k as int]);
            slots.push(Slot::Running(f));
            k = k + 1;
            assert(futures@ =~= fs.skip(k as int));
        }
        JoinAll { slots }
    }
}

/// Once the slots have taken their steps (to `after`): ready with every
/// value, in slot order, if every slot has finished, and then holding no
/// slot; otherwise pending with the slots as they are.
pub open spec fn join_all_step<F: Pollable>(after: Seq<Slot<F>>, next: JoinAll<F>, r: Step<Vec<F::Output>>) -> bool {
    if forall|i: int| 0 <= i < after.len() ==> #[trigger] after[i] is Done {
        &&& r matches Step::Ready(v) && v@.len() == after.len() && forall|i: int|
            0 <= i < after.len() ==> #[trigger] after[i] == Slot::<F>::Done(v@[i])
        &&& next.slots_view().len() == 0
    } else {
        &&& r is Pending
        &&& next.slots_view() == after
    }
}

impl<F: Pollable> Pollable for JoinAll<F> {
    type Output = Vec<F::Output>;

    closed spec fn remaining(&self) -> nat {
        slots_remaining(self.slots@)
    }

    closed spec fn completes_with(&self, v: Vec<F::Output>) -> bool {
        &&& v@.len() == self.slots@.len()
        &&& forall|i: int| 0 <= i < v@.len() ==> #[trigger] slot_accepts(self.slots@[i], v@[i])
    }

    /// Every running slot is polled once, in slot order, and the lines are
    /// theirs in that order; a finished slot is not polled again. Ready
    /// with all values, in slot order, once every slot has finished.
    open spec fn polls_to(&self, next: Self, lines: Seq<Seq<char>>, r: Step<Vec<F::Output>>) -> bool {
        exists|after: Seq<Slot<F>>, ls: Seq<Seq<Seq<char>>>|
            #[trigger] slots_poll_to(self.slots_view(), after, ls) && lines == joined_lines(ls)
                && join_all_step(after, next, r)
    }

    fn poll_step(&mut self, log: &mut Vec<String>) -> (r: Step<Vec<F::Output>>) {
        let ghost s0 = self.slots@;
        let ghost log0 = log@;
        let ghost mut ls: Seq<Seq<Seq<char>>> = Seq::empty();
        let n = self.slots.len();
        let mut i: usize = 0;
        let mut all_done = true;
        assert(log@.subrange(0, log0.len() as int) =~= log0);
        assert(log_lines(log@.skip(log0.len() as int)) =~= joined_lines(ls));
        while i < n
            invariant
                n == s0.len(),
                self.slots@.len() == n,
                i <= n,
                forall|k: int| i <= k < n ==> #[trigger] self.slots@[k] == s0[k],
                forall|k: int| 0 <= k < i ==> slot_remaining(#[trigger] self.slots@[k]) <= slot_remaining(s0[k]),
                forall|k: int| 0 <= k < i ==> (s0[k] is Running ==> slot_remaining(#[trigger] self.slots@[k])
                    < slot_remaining(s0[k])),
                forall|k: int, v: F::Output| 0 <= k < i ==> (#[trigger] slot_accepts(self.slots@[k], v)
                    ==> slot_accepts(s0[k], v)),
                all_done == forall|k: int| 0 <= k < i ==> #[trigger] self.slots@[k] is Done,
                log@.len() >= log0.len(),
                log@.subrange(0, log0.len() as int) == log0,
                ls.len() == i,
                forall|k: int| 0 <= k < i ==> #[trigger] slot_polls_to(s0[k], self.slots@[k], ls[k]),
                log_lines(log@.skip(log0.len() as int)) == joined_lines(ls),
            decreases n - i,
        {
            let ghost prev = self.slots@;
            let ghost ad0 = all_done;
            let slot = self.slots.remove(i);
            let ghost slot0 = slot;
            let ghost before = log@;
            let next = match slot {
                Slot::Running(mut f) => {
                    let ghost f0 = f;
                    let st = f.poll_step(log);
                    let ghost gst = st;
                    let ghost f1 = f;
                    proof {
                        assert(f0.polls_to(f1, log_lines(log@.skip(before.len() as int)), gst));
                    }
                    match st {
                        Step::Ready(v) => Slot::Done(v),
                        Step::Pending => {
                            all_done = false;
                            Slot::Running(f)
                        },
                    }
                },
                Slot::Done(v) => {
                    proof {
                        lemma_log_suffix_same(log@);
                        assert(log@.subrange(0, log@.len() as int) =~= log@);
                    }
                    Slot::Done(v)
                },
            };
            proof {
                assert(before.subrange(0, before.len() as int) =~= before);
                lemma_log_suffix_concat(log0, before, log@);
                let l = log_lines(log@.skip(before.len() as int));
                assert(slot_polls_to(slot0, next, l));
                let ls2 = ls.push(l);
                assert(ls2.drop_last() =~= ls);
                assert(joined_lines(ls2) == joined_lines(ls) + l);
                ls = ls2;
            }
            self.slots.insert(i, next);
            proof {
                assert(self.slots@ =~= prev.update(i as int, next));
                assert forall|k: int| i + 1 <= k < n implies #[trigger] self.slots@[k] == s0[k] by {
                }
                assert(all_done == (ad0 && next is Done));
                assert forall|k: int| 0 <= k < i implies #[trigger] self.slots@[k] == prev[k] by {}
                assert forall|k: int| 0 <= k < i + 1 implies #[trigger] slot_polls_to(s0[k], self.slots@[k], ls[k]) by {
                    if k < i {
                        assert(self.slots@[k] == prev[k]);
                    }
                }
                if all_done {
                    assert forall|k: int| 0 <= k < i + 1 implies #[trigger] self.slots@[k] is Done by {
                        if k < i {
                            assert(prev[k] is Done);
                        }
                    }
                } else if !(next is Done) {
                    assert(!(self.slots@[i as int] is Done));
                } else {
                    let k = choose|k: int| 0 <= k < i && !(#[trigger] prev[k] is Done);
                    assert(!(self.slots@[k] is Done));
                }
            }
            i = i + 1;
        }
        proof {
            lemma_slots_remaining_le(s0, self.slots@);
            assert(slots_poll_to(s0, self.slots@, ls));
        }
        if all_done {
            let mut out: Vec<F::Output> = Vec::new();
            let ghost done = self.slots@;
            let mut k: usize = 0;
            while self.slots.len() > 0
                invariant
                    n == s0.len(),
                    done.len() == n,
                    forall|j: int| 0 <= j < n ==> #[trigger] done[j] is Done,
                    k + self.slots@.len() == n,
                    self.slots@ == done.skip(k as int),
                    out@.len() == k,
                    forall|j: int| 0 <= j < k ==> #[trigger] done[j] == Slot::<F>::Done(out@[j]),
                decreases self.slots@.len(),
            {
                let slot = self.slots.remove(0);
                assert(slot == done[k as int]);
                match slot {
                    Slot::Done(v) => out.push(v),
                    Slot::Running(_) => {},
                }
                k = k + 1;
                assert(self.slots@ =~= done.skip(k as int));
            }
            proof {
                assert forall|j: int| 0 <= j < out@.len() implies #[trigger] slot_accepts(s0[j], out@[j]) by {
                    assert(slot_accepts(done[j], out@[j]));
                }
                assert(join_all_step(done, *self, Step::Ready(out)));
                assert(slots_poll_to(old(self).slots_view(), done, ls));
                assert(old(self).polls_to(*self, log_lines(log@.skip(log0.len() as int)), Step::Ready(out)));
            }
            Step::Ready(out)
        } else {
            proof {
                let k = choose|k: int| 0 <= k < n && !(#[trigger] self.slots@[k] is Done);
                assert(s0[k] is Running);
                assert(slot_remaining(self.slots@[k]) < slot_remaining(s0[k]));
                assert forall|v: Vec<F::Output>| #[trigger] self.completes_with(v) implies old(self).completes_with(v) by {
                    assert forall|j: int| 0 <= j < v@.len() implies #[trigger] slot_accepts(s0[j], v@[j]) by {
                        assert(slot_accepts(self.slots@[j], v@[j]));
                    }
                }
                assert(join_all_step(self.slots@, *self, Step::Pending));
                assert(slots_poll_to(old(self).slots_view(), self.slots@, ls));
                assert(old(self).polls_to(*self, log_lines(log@.skip(log0.len() as int)), Step::Pending));
            }
            Step::Pending
        }
    }
}

// ------------------------------------------------------------------
// Small futures
// ------------------------------------------------------------------

/// Pending for a number of polls, logging each, then done.
pub struct Countdown {
    remaining: u32,
}

/// `  CountdownFuture: N remaining`, the line of one pending poll.
pub open spec fn remaining_line(n: u32) -> Seq<char> {
    "  CountdownFuture: "@ + decimal(n as nat) + " remaining"@
}

impl Countdown {
    pub closed spec fn remaining_view(&self) -> u32 {
        self.remaining
    }

    pub fn new(remaining: u32) -> (c: Self)
        ensures
            c.remaining_view() == remaining,
    {
        Countdown { remaining }
    }
}

impl Pollable for Countdown {
    type Output = String;

    open spec fn remaining(&self) -> nat {
        self.remaining_view() as nat
    }

    open spec fn completes_with(&self, v: String) -> bool {
        v@ == "done after countdown!"@
    }

    /// At zero: ready, nothing logged. Otherwise logs the count,
    /// decrements it and is pending.
    open spec fn polls_to(&self, next: Self, lines: Seq<Seq<char>>, r: Step<String>) -> bool {
        if self.remaining_view() == 0 {
            &&& next.remaining_view() == 0
            &&& lines == Seq::<Seq<char>>::empty()
            &&& r matches Step::Ready(v) && v@ == "done after countdown!"@
        } else {
            &&& next.remaining_view() == self.remaining_view() - 1
            &&& lines == seq![remaining_line(self.remaining_view())]
            &&& r is Pending
        }
    }

    fn poll_step(&mut self, log: &mut Vec<String>) -> (r: Step<String>) {
        if self.remaining == 0 {
            assert(log@.subrange(0, log@.len() as int) =~= log@);
            proof {
                lemma_log_suffix_same(log@);
            }
            Step::Ready("done after countdown!".to_owned())
        } else {
            let mut line = String::new();
            push_str(&mut line, "  CountdownFuture: ");
            push_decimal(&mut line, self.remaining as u64);
            push_str(&mut line, " remaining");
            let ghost l = line;
            log.push(line);
            assert(log@.subrange(0, old(log)@.len() as int) =~= old(log)@);
            proof {
                lemma_log_suffix_push(old(log)@, l);
            }
            self.remaining = self.remaining - 1;
            Step::Pending
        }
    }
}

/// Pending for a number of polls, then done with `future ID done`.
pub struct TaskCountdown {
    id: u32,
    remaining: u32,
}

/// `future ID done`.
pub open spec fn task_done(id: u32) -> Seq<char> {
    "future "@ + decimal(id as nat) + " done"@
}

impl TaskCountdown {
    pub closed spec fn id_view(&self) -> u32 {
        self.id
    }

    pub closed spec fn remaining_view(&self) -> u32 {
        self.remaining
    }

    pub fn new(id: u32, remaining: u32) -> (c: Self)
        ensures
            c.id_view() == id,
            c.remaining_view() == remaining,
    {
        TaskCountdown { id, remaining }
    }
}

impl Pollable for TaskCountdown {
    type Output = String;

    open spec fn remaining(&self) -> nat {
        self.remaining_view() as nat
    }

    open spec fn completes_with(&self, v: String) -> bool {
        v@ == task_done(self.id_view())
    }

    /// At zero: ready with `future ID done`. Otherwise decrements the count
    /// and is pending. Logs nothing.
    open spec fn polls_to(&self, next: Self, lines: Seq<Seq<char>>, r: Step<String>) -> bool {
        &&& next.id_view() == self.id_view()
        &&& lines == Seq::<Seq<char>>::empty()
        &&& if self.remaining_view() == 0 {
            next.remaining_view() == 0 && (r matches Step::Ready(v) && v@ == task_done(self.id_view()))
        } else {
            next.remaining_view() == self.remaining_view() - 1 && r is Pending
        }
    }

    fn poll_step(&mut self, log: &mut Vec<String>) -> (r: Step<String>) {
        assert(log@.subrange(0, log@.len() as int) =~= log@);
        proof {
            lemma_log_suffix_same(log@);
        }
        if self.remaining == 0 {
            let mut s = String::new();
            push_str(&mut s, "future ");
            push_decimal(&mut s, self.id as u64);
            push_str(&mut s, " done");
            Step::Ready(s)
        } else {
            self.remaining = self.remaining - 1;
            Step::Pending
        }
    }
}

} // verus!
