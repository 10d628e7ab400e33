//! Hand-written futures: a countdown that needs several polls, a combinator
//! that joins two futures, and an executor that polls until completion.
//! Polling reports progress by appending lines to a log, which the caller
//! prints.

use vstd::prelude::*;
use crate::text::{decimal, push_decimal, push_str};

verus! {

/// The outcome of one poll.
pub enum Step<T> {
    Ready(T),
    Pending,
}

/// The text of each line of a log.
pub open spec fn log_lines(log: Seq<String>) -> Seq<Seq<char>> {
    log.map_values(|s: String| s@)
}

/// A computation that makes progress each time it is polled and finishes
/// after finitely many polls.
pub trait Pollable: Sized {
    type Output;

    /// An upper bound on the number of further polls that return `Pending`.
    spec fn remaining(&self) -> nat;

    /// `v` is a value that this computation may finish with.
    spec fn completes_with(&self, v: Self::Output) -> bool;

    /// One poll may take the computation to `next`, write `lines` to the
    /// log and answer `r`.
    spec fn polls_to(&self, next: Self, lines: Seq<Seq<char>>, r: Step<Self::Output>) -> bool;

    fn poll_step(&mut self, log: &mut Vec<String>) -> (r: Step<Self::Output>)
        ensures
            final(log)@.len() >= old(log)@.len(),
            final(log)@.subrange(0, old(log)@.len() as int) == old(log)@,
            old(self).polls_to(*final(self), log_lines(final(log)@.skip(old(log)@.len() as int)), r),
            match r {
                Step::Ready(v) => old(self).completes_with(v),
                Step::Pending => final(self).remaining() < old(self).remaining()
                    && forall|v: Self::Output| #[trigger] final(self).completes_with(v) ==> old(self).completes_with(v),
            },
    ;
}

/// Polling `f` again and again may write `lines`, in this order, and
/// finish with `v` at the `polls`-th poll, every earlier one pending.
pub open spec fn runs_to<F: Pollable>(f: F, lines: Seq<Seq<char>>, v: F::Output, polls: nat) -> bool
    decreases polls,
{
    if polls == 0 {
        false
    } else {
        exists|next: F, first: Seq<Seq<char>>, r: Step<F::Output>|
            #[trigger] f.polls_to(next, first, r) && match r {
                Step::Ready(w) => polls == 1 && w == v && lines == first,
                Step::Pending => first.len() <= lines.len() && lines.take(first.len() as int) == first
                    && runs_to(next, lines.skip(first.len() as int), v, (polls - 1) as nat),
            }
    }
}

/// A poll that adds no line leaves an empty suffix.
pub proof fn lemma_log_suffix_same(log: Seq<String>)
    ensures
        log_lines(log.skip(log.len() as int)) == Seq::<Seq<char>>::empty(),
{
    assert(log_lines(log.skip(log.len() as int)) =~= Seq::<Seq<char>>::empty());
}

/// A poll that pushes one line leaves that line as the suffix.
pub proof fn lemma_log_suffix_push(log: Seq<String>, line: String)
    ensures
        log_lines(log.push(line).skip(log.len() as int)) == seq![line@],
{
    assert(log_lines(log.push(line).skip(log.len() as int)) =~= seq![line@]);
}

/// The lines added over two stretches are those of the first, then those
/// of the second.
pub proof fn lemma_log_suffix_concat(l0: Seq<String>, l1: Seq<String>, l2: Seq<String>)
    requires
        l0.len() <= l1.len() <= l2.len(),
        l1.subrange(0, l0.len() as int) == l0,
        l2.subrange(0, l1.len() as int) == l1,
    ensures
        l2.subrange(0, l0.len() as int) == l0,
        log_lines(l2.skip(l0.len() as int)) == log_lines(l1.skip(l0.len() as int)) + log_lines(
            l2.skip(l1.len() as int),
        ),
{
    assert(l2.subrange(0, l0.len() as int) =~= l1.subrange(0, l0.len() as int));
    assert(log_lines(l2.skip(l0.len() as int)) =~= log_lines(l1.skip(l0.len() as int)) + log_lines(
        l2.skip(l1.len() as int),
    )) by {
        assert forall|i: int| 0 <= i < l1.len() - l0.len() implies l2.skip(l0.len() as int)[i] == l1.skip(
            l0.len() as int,
        )[i] by {
            assert(l2[l0.len() + i] == l2.subrange(0, l1.len() as int)[l0.len() + i]);
        }
    }
}

/// Counts down from a start value, one step per poll, then lifts off.
pub struct CountdownFuture {
    name: String,
    count: u32,
}

/// `  [NAME] countdown: N...`, the progress line of one poll.
pub open spec fn countdown_line(name: Seq<char>, n: u32) -> Seq<char> {
    "  ["@ + name + "] countdown: "@ + decimal(n as nat) + "..."@
}

/// `NAME: liftoff!`, the result of a countdown.
pub open spec fn liftoff(name: Seq<char>) -> Seq<char> {
    name + ": liftoff!"@
}

impl CountdownFuture {
    pub closed spec fn name_view(&self) -> Seq<char> {
        self.name@
    }

    pub closed spec fn count_view(&self) -> u32 {
        self.count
    }

    pub fn new(name: &str, from: u32) -> (f: Self)
        ensures
            f.name_view() == name@,
            f.count_view() == from,
    {
        CountdownFuture { name: name.to_owned(), count: from }
    }
}

impl Pollable for CountdownFuture {
    type Output = String;

    open spec fn remaining(&self) -> nat {
        self.count_view() as nat
    }

    open spec fn completes_with(&self, v: String) -> bool {
        v@ == liftoff(self.name_view())
    }

    /// At zero: ready with `NAME: liftoff!`, nothing logged. Otherwise
    /// logs the current count, decrements it and is pending.
    open spec fn polls_to(&self, next: Self, lines: Seq<Seq<char>>, r: Step<String>) -> bool {
        &&& next.name_view() == self.name_view()
        &&& if self.count_view() == 0 {
            &&& next.count_view() == 0
            &&& lines == Seq::<Seq<char>>::empty()
            &&& r matches Step::Ready(v) && v@ == liftoff(self.name_view())
        } else {
            &&& next.count_view() == self.count_view() - 1
            &&& lines == seq![countdown_line(self.name_view(), self.count_view())]
            &&& r is Pending
        }
    }

    fn poll_step(&mut self, log: &mut Vec<String>) -> (r: Step<String>) {
        if self.count == 0 {
            let mut s = String::new();
            push_str(&mut s, self.name.as_str());
            push_str(&mut s, ": liftoff!");
            assert(log@.subrange(0, log@.len() as int) =~= log@);
            proof {
                lemma_log_suffix_same(log@);
            }
            Step::Ready(s)
        } else {
            let mut line = String::new();
            push_str(&mut line, "  [");
            push_str(&mut line, self.name.as_str());
            push_str(&mut line, "] countdown: ");
            push_decimal(&mut line, self.count as u64);
            push_str(&mut line, "...");
            assert(line@ == countdown_line(self.name@, self.count));
            let ghost l = line;
            log.push(line);
            assert(log@.subrange(0, old(log)@.len() as int) =~= old(log)@);
            proof {
                lemma_log_suffix_push(old(log)@, l);
            }
            self.count = self.count - 1;
            Step::Pending
        }
    }
}

/// The lines of a countdown of `name` from `c`: one per count, from `c`
/// down to 1.
pub open spec fn countdown_lines(name: Seq<char>, c: nat) -> Seq<Seq<char>>
    decreases c,
{
    if c == 0 {
        Seq::empty()
    } else {
        seq![countdown_line(name, c as u32)] + countdown_lines(name, (c - 1) as nat)
    }
}

/// A countdown started at `c` is pending exactly `c` times, logging one
/// line per count from `c` down to 1, and then finishes with its liftoff
/// text; and it does run so.
pub proof fn law_countdown_run(f: CountdownFuture, lines: Seq<Seq<char>>, v: String, polls: nat)
    ensures
        runs_to(f, lines, v, polls) ==> polls == f.count_view() + 1 && lines == countdown_lines(
            f.name_view(),
            f.count_view() as nat,
        ) && v@ == liftoff(f.name_view()),
        v@ == liftoff(f.name_view()) ==> runs_to(
            f,
            countdown_lines(f.name_view(), f.count_view() as nat),
            v,
            (f.count_view() + 1) as nat,
        ),
    decreases f.count_view(),
{
    let name = f.name_view();
    let c = f.count_view();
    let next = CountdownFuture { name: f.name, count: if c == 0 { 0 } else { (c - 1) as u32 } };
    if runs_to(f, lines, v, polls) {
        let (n2, first, r) = choose|n2: CountdownFuture, first: Seq<Seq<char>>, r: Step<String>|
            #[trigger] f.polls_to(n2, first, r) && match r {
                Step::Ready(w) => polls == 1 && w == v && lines == first,
                Step::Pending => first.len() <= lines.len() && lines.take(first.len() as int) == first
                    && runs_to(n2, lines.skip(first.len() as int), v, (polls - 1) as nat),
            };
        if c > 0 {
            law_countdown_run(n2, lines.skip(1), v, (polls - 1) as nat);
            assert(lines =~= lines.take(1) + lines.skip(1));
        }
    }
    if v@ == liftoff(name) {
        if c == 0 {
            let r = Step::Ready(v);
            assert(f.polls_to(next, Seq::empty(), r));
        } else {
            law_countdown_run(next, countdown_lines(name, (c - 1) as nat), v, c as nat);
            let l = countdown_lines(name, c as nat);
            let first = seq![countdown_line(name, c)];
            assert(f.polls_to(next, first, Step::Pending));
            assert(l.take(1) =~= first);
            assert(l.skip(1) =~= countdown_lines(name, (c - 1) as nat));
        }
    }
}

/// Runs two computations side by side until both are done.
pub struct JoinTwo<A: Pollable, B: Pollable> {
    a: A,
    b: B,
    result_a: Option<A::Output>,
    result_b: Option<B::Output>,
}

/// One side of a join in one poll: a side that has finished (`done` holds
/// its value) is left as it is, not polled, and writes nothing; a side that
/// has not is polled once, and holds its value afterwards if that poll was
/// ready.
pub open spec fn side_polls_to<F: Pollable>(
    done: Option<F::Output>,
    f: F,
    done_after: Option<F::Output>,
    f_after: F,
    lines: Seq<Seq<char>>,
) -> bool {
    match done {
        Some(x) => done_after == Some(x) && f_after == f && lines == Seq::<Seq<char>>::empty(),
        None => exists|r: Step<F::Output>|
            #[trigger] f.polls_to(f_after, lines, r) && done_after == match r {
                Step::Ready(v) => Some(v),
                Step::Pending => None,
            },
    }
}

impl<A: Pollable, B: Pollable> JoinTwo<A, B> {
    /// The first computation.
    pub closed spec fn a_view(&self) -> A {
        self.a
    }

    /// The second computation.
    pub closed spec fn b_view(&self) -> B {
        self.b
    }

    /// The value of the first computation, once it has finished.
    pub closed spec fn result_a_view(&self) -> Option<A::Output> {
        self.result_a
    }

    /// The value of the second computation, once it has finished.
    pub closed spec fn result_b_view(&self) -> Option<B::Output> {
        self.result_b
    }

    /// Whether the first computation has finished.
    pub open spec fn a_finished(&self) -> bool {
        self.result_a_view() is Some
    }

    /// Whether the second computation has finished.
    pub open spec fn b_finished(&self) -> bool {
        self.result_b_view() is Some
    }

    pub fn new(a: A, b: B) -> (j: Self)
        ensures
            j.a_view() == a,
            j.b_view() == b,
            !j.a_finished(),
            !j.b_finished(),
            j.remaining() == a.remaining() + 1 + b.remaining() + 1,
            forall|x: A::Output, y: B::Output| #[trigger] j.completes_with((x, y)) == (a.completes_with(x)
                && b.completes_with(y)),
    {
        JoinTwo { a, b, result_a: None, result_b: None }
    }
}

/// The step of a join in one poll, given what each side holds after its
/// own step (`done_a`, `done_b`): ready with both values, in argument
/// order, when both have finished, and then holding neither; otherwise
/// pending and holding what has finished.
pub open spec fn join_two_step<A: Pollable, B: Pollable>(
    next: JoinTwo<A, B>,
    done_a: Option<A::Output>,
    done_b: Option<B::Output>,
    r: Step<(A::Output, B::Output)>,
) -> bool {
    if done_a is Some && done_b is Some {
        &&& r == Step::Ready((done_a->Some_0, done_b->Some_0))
        &&& !next.a_finished()
        &&& !next.b_finished()
    } else {
        &&& r is Pending
        &&& next.result_a_view() == done_a
        &&& next.result_b_view() == done_b
    }
}

impl<A: Pollable, B: Pollable> Pollable for JoinTwo<A, B> {
    type Output = (A::Output, B::Output);

    closed spec fn remaining(&self) -> nat {
        (if self.result_a is Some { 0 } else { self.a.remaining() + 1 }) + (if self.result_b is Some {
            0
        } else {
            self.b.remaining() + 1
        })
    }

    closed spec fn completes_with(&self, v: (A::Output, B::Output)) -> bool {
        &&& match self.result_a {
            Some(x) => x == v.0,
            None => self.a.completes_with(v.0),
        }
        &&& match self.result_b {
            Some(y) => y == v.1,
            None => self.b.completes_with(v.1),
        }
    }

    /// Each side that has not finished is polled once, the first before
    /// the second, and the lines are theirs in that order; a finished side
    /// is not polled again. Ready with both values as soon as both have
    /// finished.
    open spec fn polls_to(&self, next: Self, lines: Seq<Seq<char>>, r: Step<(A::Output, B::Output)>) -> bool {
        exists|done_a: Option<A::Output>, done_b: Option<B::Output>, la: Seq<Seq<char>>, lb: Seq<Seq<char>>|
            #![trigger side_polls_to(self.result_a_view(), self.a_view(), done_a, next.a_view(), la), side_polls_to(self.result_b_view(), self.b_view(), done_b, next.b_view(), lb)]
            side_polls_to(self.result_a_view(), self.a_view(), done_a, next.a_view(), la)
                && side_polls_to(self.result_b_view(), self.b_view(), done_b, next.b_view(), lb)
                && lines == la + lb && join_two_step(next, done_a, done_b, r)
    }

    fn poll_step(&mut self, log: &mut Vec<String>) -> (r: Step<(A::Output, B::Output)>) {
        let ghost s0 = *self;
        let ghost log0 = log@;
        if self.result_a.is_none() {
            match self.a.poll_step(log) {
                Step::Ready(v) => {
                    self.result_a = Some(v);
                },
                Step::Pending => {},
            }
        } else {
            proof {
                lemma_log_suffix_same(log@);
            }
        }
        let ghost log1 = log@;
        let ghost done_a = self.result_a;
        if self.result_b.is_none() {
            match self.b.poll_step(log) {
                Step::Ready(v) => {
                    self.result_b = Some(v);
                },
                Step::Pending => {},
            }
        } else {
            proof {
                lemma_log_suffix_same(log@);
                assert(log@.subrange(0, log@.len() as int) =~= log@);
            }
        }
        let ghost done_b = self.result_b;
        let ghost s1 = *self;
        proof {
            assert(log1.subrange(0, log0.len() as int) =~= log0) by {
                if s0.result_a is Some {
                    assert(log1 == log0);
                }
            }
            lemma_log_suffix_concat(log0, log1, log@);
            let la = log_lines(log1.skip(log0.len() as int));
            let lb = log_lines(log@.skip(log1.len() as int));
            assert(side_polls_to(s0.result_a, s0.a, done_a, s1.a, la));
            assert(side_polls_to(s0.result_b, s0.b, done_b, s1.b, lb));
        }
        if self.result_a.is_some() && self.result_b.is_some() {
            let x = self.result_a.take().unwrap();
            let y = self.result_b.take().unwrap();
            proof {
                let la = log_lines(log1.skip(log0.len() as int));
                let lb = log_lines(log@.skip(log1.len() as int));
                assert(join_two_step(*self, done_a, done_b, Step::Ready((x, y))));
                assert(side_polls_to(s0.result_a_view(), s0.a_view(), done_a, self.a_view(), la));
                assert(side_polls_to(s0.result_b_view(), s0.b_view(), done_b, self.b_view(), lb));
            }
            Step::Ready((x, y))
        } else {
            proof {
                let la = log_lines(log1.skip(log0.len() as int));
                let lb = log_lines(log@.skip(log1.len() as int));
                assert(join_two_step(*self, done_a, done_b, Step::Pending));
                assert(side_polls_to(s0.result_a_view(), s0.a_view(), done_a, self.a_view(), la));
                assert(side_polls_to(s0.result_b_view(), s0.b_view(), done_b, self.b_view(), lb));
            }
            Step::Pending
        }
    }
}

/// Polls `future` until it is ready and returns its result. The lines of
/// every poll are appended to `log`, in the order of the polls: the
/// computation runs to its result in some number of polls, writing exactly
/// the lines added.
pub fn block_on<F: Pollable>(future: F, log: &mut Vec<String>) -> (r: F::Output)
    ensures
        future.completes_with(r),
        final(log)@.len() >= old(log)@.len(),
        final(log)@.subrange(0, old(log)@.len() as int) == old(log)@,
        exists|polls: nat| runs_to(future, log_lines(final(log)@.skip(old(log)@.len() as int)), r, polls),
{
    let ghost orig = future;
    let ghost start = log@;
    let ghost mut made: nat = 0;
    let mut fut = future;
    assert(log@.subrange(0, log@.len() as int) =~= log@);
    proof {
        assert forall|l: Seq<Seq<char>>, v: F::Output, n: nat| #[trigger] runs_to(fut, l, v, n) implies runs_to(
            orig,
            log_lines(log@.skip(start.len() as int)) + l,
            v,
            n + made,
        ) by {
            assert(log_lines(log@.skip(start.len() as int)) + l =~= l);
        }
    }
    loop
        invariant
            orig == future,
            start == old(log)@,
            forall|v: F::Output| #[trigger] fut.completes_with(v) ==> orig.completes_with(v),
            log@.len() >= start.len(),
            log@.subrange(0, start.len() as int) == start,
            forall|l: Seq<Seq<char>>, v: F::Output, n: nat| #[trigger] runs_to(fut, l, v, n) ==> runs_to(
                orig,
                log_lines(log@.skip(start.len() as int)) + l,
                v,
                n + made,
            ),
        decreases fut.remaining(),
    {
        let ghost before = log@;
        let ghost f0 = fut;
        let step = fut.poll_step(log);
        let ghost gstep = step;
        proof {
            assert(before.subrange(0, before.len() as int) =~= before);
            lemma_log_suffix_concat(start, before, log@);
        }
        let ghost first = log_lines(log@.skip(before.len() as int));
        let ghost acc0 = log_lines(before.skip(start.len() as int));
        match step {
            Step::Ready(v) => {
                proof {
                    assert(f0.polls_to(fut, first, gstep));
                    assert(runs_to(f0, first, v, 1));
                    assert(runs_to(orig, acc0 + first, v, 1 + made));
                }
                return v;
            },
            Step::Pending => {
                proof {
                    assert forall|l: Seq<Seq<char>>, v: F::Output, n: nat| #[trigger] runs_to(fut, l, v, n) implies runs_to(
                        orig,
                        log_lines(log@.skip(start.len() as int)) + l,
                        v,
                        n + made + 1,
                    ) by {
                        assert(f0.polls_to(fut, first, gstep));
                        assert((first + l).take(first.len() as int) =~= first);
                        assert((first + l).skip(first.len() as int) =~= l);
                        assert(runs_to(f0, first + l, v, n + 1));
                        assert(acc0 + (first + l) =~= log_lines(log@.skip(start.len() as int)) + l);
                    }
                    made = made + 1;
                }
            },
        }
    }
}

} // verus!
