//! Results of named test cases: pass/fail tallies and the report lines of
//! a suite and of a group of suites.

use vstd::prelude::*;
use crate::text::{decimal, push_decimal, push_str};

verus! {

/// How many of the outcomes are passes.
pub open spec fn passes(outcomes: Seq<(&'static str, bool)>) -> nat
    decreases outcomes.len(),
{
    if outcomes.len() == 0 {
        0
    } else {
        passes(outcomes.drop_last()) + if outcomes.last().1 { 1nat } else { 0nat }
    }
}

proof fn lemma_passes_bound(outcomes: Seq<(&'static str, bool)>)
    ensures
        passes(outcomes) <= outcomes.len(),
        passes(outcomes) == outcomes.len() <==> forall|i: int| 0 <= i < outcomes.len() ==> #[trigger] outcomes[i].1,
    decreases outcomes.len(),
{
    if outcomes.len() > 0 {
        let t = outcomes.drop_last();
        lemma_passes_bound(t);
        if forall|i: int| 0 <= i < outcomes.len() ==> #[trigger] outcomes[i].1 {
            assert forall|i: int| 0 <= i < t.len() implies #[trigger] t[i].1 by {
                assert(t[i] == outcomes[i]);
            }
        }
        if passes(outcomes) == outcomes.len() {
            assert forall|i: int| 0 <= i < outcomes.len() implies #[trigger] outcomes[i].1 by {
                if i < t.len() {
                    assert(t[i] == outcomes[i]);
                }
            }
        }
    }
}

/// The passes, the total and the failures of a list of outcomes.
pub fn tally(outcomes: &Vec<(&'static str, bool)>) -> (r: (usize, usize, usize))
    ensures
        r.0 == passes(outcomes@),
        r.1 == outcomes@.len(),
        r.2 == outcomes@.len() - passes(outcomes@),
{
    let mut passed: usize = 0;
    let mut i: usize = 0;
    while i < outcomes.len()
        invariant
            i <= outcomes.len(),
            passed == passes(outcomes@.take(i as int)),
            passed <= i,
        decreases outcomes.len() - i,
    {
        assert(outcomes@.take(i + 1).drop_last() =~= outcomes@.take(i as int));
        if outcomes[i].1 {
            passed = passed + 1;
        }
        i = i + 1;
    }
    assert(outcomes@.take(outcomes.len() as int) =~= outcomes@);
    (passed, outcomes.len(), outcomes.len() - passed)
}

/// `P/T passed, F failed`.
pub open spec fn totals_text(passed: nat, total: nat) -> Seq<char> {
    decimal(passed) + "/"@ + decimal(total) + " passed, "@ + decimal((total - passed) as nat) + " failed"@
}

fn push_totals(out: &mut String, passed: usize, total: usize)
    requires
        passed <= total,
    ensures
        final(out)@ == old(out)@ + totals_text(passed as nat, total as nat),
{
    push_decimal(out, passed as u64);
    push_str(out, "/");
    push_decimal(out, total as u64);
    push_str(out, " passed, ");
    push_decimal(out, (total - passed) as u64);
    push_str(out, " failed");
}

/// The outcomes of one suite of named tests.
pub struct TestSuite {
    name: &'static str,
    results: Vec<(&'static str, bool)>,
}

/// The report line of one outcome.
pub open spec fn outcome_line(o: (&'static str, bool)) -> Seq<char> {
    (if o.1 { "    [PASS] "@ } else { "    [FAIL] "@ }) + o.0@
}

impl TestSuite {
    pub closed spec fn name_view(&self) -> Seq<char> {
        self.name@
    }

    pub closed spec fn results_view(&self) -> Seq<(&'static str, bool)> {
        self.results@
    }

    /// A suite called `name` with the given outcomes, in the order run.
    pub fn new(name: &'static str, results: Vec<(&'static str, bool)>) -> (s: Self)
        ensures
            s.name_view() == name@,
            s.results_view() == results@,
    {
        TestSuite { name, results }
    }

    pub fn all_passed(&self) -> (b: bool)
        ensures
            b == forall|i: int| 0 <= i < self.results_view().len() ==> #[trigger] self.results_view()[i].1,
    {
        let mut i: usize = 0;
        while i < self.results.len()
            invariant
                i <= self.results.len(),
                forall|k: int| 0 <= k < i ==> #[trigger] self.results@[k].1,
            decreases self.results.len() - i,
        {
            if !self.results[i].1 {
                assert(!self.results_view()[i as int].1);
                return false;
            }
            i = i + 1;
        }
        true
    }

    pub fn results(&self) -> (r: &[(&'static str, bool)])
        ensures
            r@ == self.results_view(),
    {
        self.results.as_slice()
    }

    /// `  Suite: NAME`, one `[PASS]`/`[FAIL]` line per test, then
    /// `  Result: P/T passed, F failed`.
    pub fn summary(&self) -> (lines: Vec<String>)
        ensures
            lines@.len() == self.results_view().len() + 2,
            lines@[0]@ == "  Suite: "@ + self.name_view(),
            forall|i: int| 0 <= i < self.results_view().len() ==> #[trigger] lines@[i + 1]@ == outcome_line(
                self.results_view()[i],
            ),
            lines@.last()@ == "  Result: "@ + totals_text(passes(self.results_view()), self.results_view().len()),
    {
        let mut lines: Vec<String> = Vec::new();
        let mut head = String::new();
        push_str(&mut head, "  Suite: ");
        push_str(&mut head, self.name);
        lines.push(head);
        let mut i: usize = 0;
        while i < self.results.len()
            invariant
                i <= self.results.len(),
                lines@.len() == i + 1,
                lines@[0]@ == "  Suite: "@ + self.name@,
                forall|k: int| 0 <= k < i ==> #[trigger] lines@[k + 1]@ == outcome_line(self.results@[k]),
            decreases self.results.len() - i,
        {
            let mut line = String::new();
            if self.results[i].1 {
                push_str(&mut line, "    [PASS] ");
            } else {
                push_str(&mut line, "    [FAIL] ");
            }
            push_str(&mut line, self.results[i].0);
            lines.push(line);
            i = i + 1;
        }
        let (passed, total, _failed) = tally(&self.results);
        proof { lemma_passes_bound(self.results@); }
        let mut last = String::new();
        push_str(&mut last, "  Result: ");
        push_totals(&mut last, passed, total);
        lines.push(last);
        lines
    }
}

/// The closing line of a group run and whether every test passed.
pub fn group_total(all: &Vec<(&'static str, bool)>) -> (r: (String, bool))
    ensures
        r.0@ == "  === Group Total: "@ + totals_text(passes(all@), all@.len()) + " ==="@,
        r.1 == forall|i: int| 0 <= i < all@.len() ==> #[trigger] all@[i].1,
{
    let (passed, total, _failed) = tally(all);
    proof { lemma_passes_bound(all@); }
    let mut line = String::new();
    push_str(&mut line, "  === Group Total: ");
    push_totals(&mut line, passed, total);
    push_str(&mut line, " ===");
    (line, passed == total)
}

} // verus!
