//! Word frequency counting: whitespace splitting, punctuation trimming,
//! lower-casing, and merging of per-chunk counts.

use vstd::prelude::*;
use crate::text::{chars_of, string_of};

verus! {

/// Unicode `White_Space`, the property that `char::is_whitespace` tests.
pub open spec fn is_whitespace_spec(c: char) -> bool {
    let u = c as u32;
    ||| 0x09 <= u <= 0x0d
    ||| u == 0x20
    ||| u == 0x85
    ||| u == 0xa0
    ||| u == 0x1680
    ||| 0x2000 <= u <= 0x200a
    ||| u == 0x2028
    ||| u == 0x2029
    ||| u == 0x202f
    ||| u == 0x205f
    ||| u == 0x3000
}

/// What `char::is_alphanumeric` answers for a character.
pub uninterp spec fn char_is_alphanumeric_result(c: char) -> bool;

/// What `str::to_lowercase` returns for a string.
pub uninterp spec fn str_to_lowercase_result(s: Seq<char>) -> Seq<char>;

/// Whether `c` is Unicode `White_Space`, as `char::is_whitespace` answers.
pub(crate) fn char_is_whitespace(c: char) -> (b: bool)
    ensures
        b == is_whitespace_spec(c),
{
    let u = c as u32;
    (0x09 <= u && u <= 0x0d) || u == 0x20 || u == 0x85 || u == 0xa0 || u == 0x1680 || (0x2000 <= u && u
        <= 0x200a) || u == 0x2028 || u == 0x2029 || u == 0x202f || u == 0x205f || u == 0x3000
}

/// `char::is_alphanumeric`: the answer depends on the character alone and is
/// named `char_is_alphanumeric_result`; the Unicode tables behind it are not
/// restated.
#[verifier::external_body]
fn char_is_alphanumeric(c: char) -> (b: bool)
    ensures
        b == char_is_alphanumeric_result(c),
{
    c.is_alphanumeric()
}

/// `str::to_lowercase`: the result depends on the string alone and is named
/// `str_to_lowercase_result`; the Unicode case mapping is not restated.
#[verifier::external_body]
fn str_to_lowercase(s: &str) -> (r: String)
    ensures
        r@ == str_to_lowercase_result(s@),
{
    s.to_lowercase()
}

/// Length of the leading run of non-whitespace characters.
pub open spec fn run_len(s: Seq<char>) -> nat
    decreases s.len(),
{
    if s.len() == 0 || is_whitespace_spec(s[0]) {
        0
    } else {
        1 + run_len(s.drop_first())
    }
}

/// The maximal runs of non-whitespace characters of `s`, in order
/// (what `str::split_whitespace` yields).
pub open spec fn split_ws(s: Seq<char>) -> Seq<Seq<char>>
    decreases s.len(),
{
    if s.len() == 0 {
        seq![]
    } else if is_whitespace_spec(s[0]) {
        split_ws(s.drop_first())
    } else {
        let k = run_len(s);
        proof { lemma_run_len_bound(s); }
        seq![s.take(k as int)] + split_ws(s.skip(k as int))
    }
}

/// Number of leading characters of `s` that are not alphanumeric.
pub open spec fn lead_junk(s: Seq<char>) -> nat
    decreases s.len(),
{
    if s.len() == 0 || char_is_alphanumeric_result(s[0]) {
        0
    } else {
        1 + lead_junk(s.drop_first())
    }
}

/// Number of trailing characters of `s` that are not alphanumeric.
pub open spec fn trail_junk(s: Seq<char>) -> nat
    decreases s.len(),
{
    if s.len() == 0 || char_is_alphanumeric_result(s.last()) {
        0
    } else {
        1 + trail_junk(s.drop_last())
    }
}

/// `s` with non-alphanumeric characters removed from both ends.
pub open spec fn trim_junk(s: Seq<char>) -> Seq<char> {
    let t = s.skip(lead_junk(s) as int);
    t.take(t.len() - trail_junk(t))
}

/// The word that a whitespace-separated token counts as.
pub open spec fn normalize(token: Seq<char>) -> Seq<char> {
    str_to_lowercase_result(trim_junk(token))
}

/// How many of `tokens` normalise to the non-empty word `w`.
pub open spec fn tally(tokens: Seq<Seq<char>>, w: Seq<char>) -> nat
    decreases tokens.len(),
{
    if tokens.len() == 0 {
        0
    } else {
        tally(tokens.drop_last(), w) + if w.len() > 0 && normalize(tokens.last()) == w {
            1nat
        } else {
            0nat
        }
    }
}

/// How often the word `w` occurs in `text`.
pub open spec fn word_count_spec(text: Seq<char>, w: Seq<char>) -> nat {
    tally(split_ws(text), w)
}

pub proof fn lemma_run_len_bound(s: Seq<char>)
    ensures
        run_len(s) <= s.len(),
        forall|i: int| 0 <= i < run_len(s) ==> !is_whitespace_spec(#[trigger] s[i]),
        run_len(s) < s.len() ==> is_whitespace_spec(s[run_len(s) as int]),
        s.len() > 0 && !is_whitespace_spec(s[0]) ==> run_len(s) > 0,
    decreases s.len(),
{
    if s.len() > 0 && !is_whitespace_spec(s[0]) {
        lemma_run_len_bound(s.drop_first());
        assert forall|i: int| 0 <= i < run_len(s) implies !is_whitespace_spec(#[trigger] s[i]) by {
            if i > 0 {
                assert(s[i] == s.drop_first()[i - 1]);
            }
        }
    }
}

proof fn lemma_lead_junk_bound(s: Seq<char>)
    ensures
        lead_junk(s) <= s.len(),
        forall|i: int| 0 <= i < lead_junk(s) ==> !char_is_alphanumeric_result(#[trigger] s[i]),
        lead_junk(s) < s.len() ==> char_is_alphanumeric_result(s[lead_junk(s) as int]),
    decreases s.len(),
{
    if s.len() > 0 && !char_is_alphanumeric_result(s[0]) {
        lemma_lead_junk_bound(s.drop_first());
        assert forall|i: int| 0 <= i < lead_junk(s) implies !char_is_alphanumeric_result(#[trigger] s[i]) by {
            if i > 0 {
                assert(s[i] == s.drop_first()[i - 1]);
            }
        }
    }
}

proof fn lemma_trail_junk_bound(s: Seq<char>)
    ensures
        trail_junk(s) <= s.len(),
        forall|i: int| s.len() - trail_junk(s) <= i < s.len() ==> !char_is_alphanumeric_result(#[trigger] s[i]),
        trail_junk(s) < s.len() ==> char_is_alphanumeric_result(s[s.len() - trail_junk(s) - 1]),
    decreases s.len(),
{
    if s.len() > 0 && !char_is_alphanumeric_result(s.last()) {
        lemma_trail_junk_bound(s.drop_last());
        assert forall|i: int| s.len() - trail_junk(s) <= i < s.len() implies !char_is_alphanumeric_result(#[trigger] s[i]) by {
            if i < s.len() - 1 {
                assert(s[i] == s.drop_last()[i]);
            }
        }
    }
}

/// Characters `lo..hi` of `s` hold the run of non-whitespace starting at `lo`.
proof fn lemma_lead_junk_unique(s: Seq<char>, k: nat)
    requires
        k <= s.len(),
        forall|i: int| 0 <= i < k ==> !char_is_alphanumeric_result(#[trigger] s[i]),
        k < s.len() ==> char_is_alphanumeric_result(s[k as int]),
    ensures
        lead_junk(s) == k,
    decreases s.len(),
{
    if k > 0 {
        assert(!char_is_alphanumeric_result(s[0]));
        assert forall|i: int| 0 <= i < k - 1 implies !char_is_alphanumeric_result(#[trigger] s.drop_first()[i]) by {
            assert(s.drop_first()[i] == s[i + 1]);
        }
        if k - 1 < s.len() - 1 {
            assert(s.drop_first()[k - 1] == s[k as int]);
        }
        lemma_lead_junk_unique(s.drop_first(), (k - 1) as nat);
    }
}

proof fn lemma_trail_junk_unique(s: Seq<char>, k: nat)
    requires
        k <= s.len(),
        forall|i: int| s.len() - k <= i < s.len() ==> !char_is_alphanumeric_result(#[trigger] s[i]),
        k < s.len() ==> char_is_alphanumeric_result(s[s.len() - k - 1]),
    ensures
        trail_junk(s) == k,
    decreases s.len(),
{
    if k > 0 {
        assert(!char_is_alphanumeric_result(s.last()));
        assert forall|i: int| s.drop_last().len() - (k - 1) <= i < s.drop_last().len() implies !char_is_alphanumeric_result(#[trigger] s.drop_last()[i]) by {
            assert(s.drop_last()[i] == s[i]);
        }
        if k - 1 < s.len() - 1 {
            assert(s.drop_last()[s.drop_last().len() - (k - 1) - 1] == s[s.len() - k - 1]);
        }
        lemma_trail_junk_unique(s.drop_last(), (k - 1) as nat);
    }
}

pub proof fn lemma_run_len_unique(s: Seq<char>, k: nat)
    requires
        k <= s.len(),
        forall|i: int| 0 <= i < k ==> !is_whitespace_spec(#[trigger] s[i]),
        k < s.len() ==> is_whitespace_spec(s[k as int]),
    ensures
        run_len(s) == k,
    decreases s.len(),
{
    if k > 0 {
        assert(!is_whitespace_spec(s[0]));
        assert forall|i: int| 0 <= i < k - 1 implies !is_whitespace_spec(#[trigger] s.drop_first()[i]) by {
            assert(s.drop_first()[i] == s[i + 1]);
        }
        if k - 1 < s.len() - 1 {
            assert(s.drop_first()[k - 1] == s[k as int]);
        }
        lemma_run_len_unique(s.drop_first(), (k - 1) as nat);
    }
}

proof fn lemma_tally_append(a: Seq<Seq<char>>, b: Seq<Seq<char>>, w: Seq<char>)
    ensures
        tally(a + b, w) == tally(a, w) + tally(b, w),
    decreases b.len(),
{
    if b.len() == 0 {
        assert(a + b =~= a);
    } else {
        assert((a + b).drop_last() =~= a + b.drop_last());
        assert((a + b).last() == b.last());
        lemma_tally_append(a, b.drop_last(), w);
    }
}

proof fn lemma_tally_bound(tokens: Seq<Seq<char>>, w: Seq<char>)
    ensures
        tally(tokens, w) <= tokens.len(),
    decreases tokens.len(),
{
    if tokens.len() > 0 {
        lemma_tally_bound(tokens.drop_last(), w);
    }
}

proof fn lemma_split_ws_count(s: Seq<char>)
    ensures
        split_ws(s).len() <= s.len(),
    decreases s.len(),
{
    if s.len() > 0 {
        if is_whitespace_spec(s[0]) {
            lemma_split_ws_count(s.drop_first());
        } else {
            lemma_run_len_bound(s);
            lemma_split_ws_count(s.skip(run_len(s) as int));
        }
    }
}

/// Splitting a text that joins `a` and `b` with a whitespace character
/// yields the tokens of `a` followed by those of `b`.
pub proof fn lemma_split_ws_join(a: Seq<char>, sep: char, b: Seq<char>)
    requires
        is_whitespace_spec(sep),
    ensures
        split_ws(a + seq![sep] + b) == split_ws(a) + split_ws(b),
    decreases a.len(),
{
    let s = a + seq![sep] + b;
    if a.len() == 0 {
        assert(s =~= seq![sep] + b);
        assert(s.drop_first() =~= b);
        assert(split_ws(a) =~= Seq::<Seq<char>>::empty());
        assert(split_ws(a) + split_ws(b) =~= split_ws(b));
    } else if is_whitespace_spec(a[0]) {
        assert(s.drop_first() =~= a.drop_first() + seq![sep] + b);
        lemma_split_ws_join(a.drop_first(), sep, b);
    } else {
        let k = run_len(a);
        lemma_run_len_bound(a);
        assert forall|i: int| 0 <= i < k implies !is_whitespace_spec(#[trigger] s[i]) by {
            assert(s[i] == a[i]);
        }
        if k < a.len() {
            assert(s[k as int] == a[k as int]);
        } else {
            assert(s[k as int] == sep);
        }
        lemma_run_len_unique(s, k);
        assert(s.take(k as int) =~= a.take(k as int));
        assert(s.skip(k as int) =~= a.skip(k as int) + seq![sep] + b);
        lemma_split_ws_join(a.skip(k as int), sep, b);
        assert(split_ws(a) == seq![a.take(k as int)] + split_ws(a.skip(k as int)));
        assert(split_ws(s) == seq![s.take(k as int)] + split_ws(s.skip(k as int)));
        assert(split_ws(s) =~= split_ws(a) + split_ws(b));
    }
}

/// Counting two chunks separately and adding the counts gives the count of
/// the text that joins them with whitespace.
pub proof fn law_count_join(a: Seq<char>, sep: char, b: Seq<char>, w: Seq<char>)
    requires
        is_whitespace_spec(sep),
    ensures
        word_count_spec(a + seq![sep] + b, w) == word_count_spec(a, w) + word_count_spec(b, w),
{
    lemma_split_ws_join(a, sep, b);
    lemma_tally_append(split_ws(a), split_ws(b), w);
}

/// Distinct keys: no word occurs twice among `pairs`.
pub open spec fn distinct_keys(pairs: Seq<(Seq<char>, usize)>) -> bool {
    forall|i: int, j: int| 0 <= i < j < pairs.len() ==> pairs[i].0 != pairs[j].0
}

/// The count stored for `w` among `pairs`, or 0 when `w` is absent.
pub open spec fn count_in(pairs: Seq<(Seq<char>, usize)>, w: Seq<char>) -> nat {
    if exists|k: int| 0 <= k < pairs.len() && pairs[k].0 == w {
        pairs[choose|k: int| 0 <= k < pairs.len() && pairs[k].0 == w].1 as nat
    } else {
        0
    }
}

proof fn lemma_count_in_at(pairs: Seq<(Seq<char>, usize)>, k: int)
    requires
        distinct_keys(pairs),
        0 <= k < pairs.len(),
    ensures
        count_in(pairs, pairs[k].0) == pairs[k].1,
{
    let w = pairs[k].0;
    let j = choose|j: int| 0 <= j < pairs.len() && pairs[j].0 == w;
    if j != k {
        if j < k {
            assert(pairs[j].0 != pairs[k].0);
        } else {
            assert(pairs[k].0 != pairs[j].0);
        }
    }
}

proof fn lemma_count_in_push(pairs: Seq<(Seq<char>, usize)>, p: (Seq<char>, usize), w: Seq<char>)
    requires
        distinct_keys(pairs.push(p)),
    ensures
        distinct_keys(pairs),
        count_in(pairs.push(p), w) == count_in(pairs, w) + if p.0 == w { p.1 as nat } else { 0nat },
{
    let q = pairs.push(p);
    assert forall|i: int, j: int| 0 <= i < j < pairs.len() implies pairs[i].0 != pairs[j].0 by {
        assert(q[i] == pairs[i] && q[j] == pairs[j]);
    }
    if p.0 == w {
        lemma_count_in_at(q, pairs.len() as int);
        assert forall|k: int| 0 <= k < pairs.len() implies pairs[k].0 != w by {
            assert(q[k] == pairs[k]);
        }
    } else if exists|k: int| 0 <= k < pairs.len() && pairs[k].0 == w {
        let k = choose|k: int| 0 <= k < pairs.len() && pairs[k].0 == w;
        lemma_count_in_at(pairs, k);
        assert(q[k] == pairs[k]);
        lemma_count_in_at(q, k);
    } else {
        assert forall|k: int| 0 <= k < q.len() implies q[k].0 != w by {
            if k < pairs.len() {
                assert(q[k] == pairs[k]);
            }
        }
    }
}

proof fn lemma_count_in_update(pairs: Seq<(Seq<char>, usize)>, k: int, c: usize, w: Seq<char>)
    requires
        distinct_keys(pairs),
        0 <= k < pairs.len(),
    ensures
        distinct_keys(pairs.update(k, (pairs[k].0, c))),
        count_in(pairs.update(k, (pairs[k].0, c)), w) == if pairs[k].0 == w {
            c as nat
        } else {
            count_in(pairs, w)
        },
{
    let q = pairs.update(k, (pairs[k].0, c));
    assert forall|i: int, j: int| 0 <= i < j < q.len() implies q[i].0 != q[j].0 by {
        assert(q[i].0 == pairs[i].0 && q[j].0 == pairs[j].0);
    }
    if pairs[k].0 == w {
        lemma_count_in_at(q, k);
    } else if exists|j: int| 0 <= j < pairs.len() && pairs[j].0 == w {
        let j = choose|j: int| 0 <= j < pairs.len() && pairs[j].0 == w;
        lemma_count_in_at(pairs, j);
        lemma_count_in_at(q, j);
    } else {
        assert forall|j: int| 0 <= j < q.len() implies q[j].0 != w by {
            assert(q[j].0 == pairs[j].0);
        }
    }
}

/// Word counts: each word at most once, each with a positive count.
pub struct WordCounts {
    entries: Vec<(String, usize)>,
}

impl WordCounts {
    /// The (word, count) pairs, in the order the words were first added.
    pub closed spec fn pairs(&self) -> Seq<(Seq<char>, usize)> {
        self.entries@.map_values(|e: (String, usize)| (e.0@, e.1))
    }

    pub open spec fn wf(&self) -> bool {
        &&& distinct_keys(self.pairs())
        &&& forall|k: int| 0 <= k < self.pairs().len() ==> #[trigger] self.pairs()[k].1 > 0
    }

    /// How often `w` was counted (0 when absent).
    pub open spec fn count(&self, w: Seq<char>) -> nat {
        count_in(self.pairs(), w)
    }

    /// No words counted yet.
    pub fn new() -> (r: WordCounts)
        ensures
            r.wf(),
            r.pairs().len() == 0,
            forall|w: Seq<char>| r.count(w) == 0,
    {
        WordCounts { entries: Vec::new() }
    }

    /// Number of distinct words.
    pub fn len(&self) -> (n: usize)
        ensures
            n == self.pairs().len(),
    {
        self.entries.len()
    }

    /// The count of `word`, 0 when it was never counted.
    pub fn get(&self, word: &str) -> (n: usize)
        requires
            self.wf(),
        ensures
            n == self.count(word@),
    {
        let key: String = word.to_owned();
        let mut i: usize = 0;
        while i < self.entries.len()
            invariant
                self.wf(),
                key@ == word@,
                i <= self.entries.len(),
                forall|k: int| 0 <= k < i ==> self.pairs()[k].0 != word@,
            decreases self.entries.len() - i,
        {
            assert(self.pairs()[i as int] == (self.entries@[i as int].0@, self.entries@[i as int].1));
            if self.entries[i].0 == key {
                proof { lemma_count_in_at(self.pairs(), i as int); }
                return self.entries[i].1;
            }
            i = i + 1;
        }
        0
    }

    /// The (word, count) pairs as owned values.
    pub fn entries(&self) -> (r: Vec<(String, usize)>)
        ensures
            r@.map_values(|e: (String, usize)| (e.0@, e.1)) == self.pairs(),
    {
        let mut r: Vec<(String, usize)> = Vec::new();
        let mut i: usize = 0;
        while i < self.entries.len()
            invariant
                i <= self.entries.len(),
                r@.map_values(|e: (String, usize)| (e.0@, e.1)) == self.pairs().take(i as int),
            decreases self.entries.len() - i,
        {
            let w = self.entries[i].0.clone();
            let ghost prev = r@;
            r.push((w, self.entries[i].1));
            assert(self.pairs()[i as int] == (self.entries@[i as int].0@, self.entries@[i as int].1));
            assert(r@ == prev.push((w, self.entries@[i as int].1)));
            assert(r@.map_values(|e: (String, usize)| (e.0@, e.1)) =~= prev.map_values(|e: (String, usize)| (e.0@, e.1)).push((w@, self.entries@[i as int].1)));
            assert(r@.map_values(|e: (String, usize)| (e.0@, e.1)) =~= self.pairs().take(i + 1));
            i = i + 1;
        }
        assert(self.pairs().take(self.entries.len() as int) =~= self.pairs());
        r
    }

    /// Adds `n` occurrences of `word`.
    pub fn add(&mut self, word: String, n: usize)
        requires
            old(self).wf(),
            n > 0,
            old(self).count(word@) + n <= usize::MAX,
        ensures
            final(self).wf(),
            forall|w: Seq<char>| #[trigger] final(self).count(w) == old(self).count(w) + if w == word@ {
                n as nat
            } else {
                0nat
            },
    {
        let mut i: usize = 0;
        while i < self.entries.len()
            invariant
                self.wf(),
                *self == *old(self),
                n > 0,
                old(self).count(word@) + n <= usize::MAX,
                i <= self.entries.len(),
                forall|k: int| 0 <= k < i ==> self.pairs()[k].0 != word@,
            decreases self.entries.len() - i,
        {
            assert(self.pairs()[i as int] == (self.entries@[i as int].0@, self.entries@[i as int].1));
            if self.entries[i].0 == word {
                proof { lemma_count_in_at(self.pairs(), i as int); }
                assert(self.entries[i as int].1 == self.pairs()[i as int].1);
                assert(self.count(word@) == self.entries[i as int].1);
                let c = self.entries[i].1 + n;
                let ghost before = self.pairs();
                self.entries.set(i, (word, c));
                proof {
                    assert(self.pairs() =~= before.update(i as int, (before[i as int].0, c)));
                    assert forall|w: Seq<char>| #[trigger] self.count(w) == old(self).count(w) + if w == word@ {
                        n as nat
                    } else {
                        0nat
                    } by {
                        lemma_count_in_update(before, i as int, c, w);
                    }
                }
                return;
            }
            i = i + 1;
        }
        let ghost before = self.pairs();
        let ghost wv = word@;
        self.entries.push((word, n));
        proof {
            assert(self.pairs() =~= before.push((wv, n)));
            assert forall|a: int, b: int| 0 <= a < b < self.pairs().len() implies self.pairs()[a].0 != self.pairs()[b].0 by {
                if b == before.len() {
                    assert(before[a].0 != wv);
                } else {
                    assert(before[a].0 != before[b].0);
                }
            }
            assert forall|w: Seq<char>| #[trigger] self.count(w) == old(self).count(w) + if w == wv {
                n as nat
            } else {
                0nat
            } by {
                lemma_count_in_push(before, (wv, n), w);
            }
        }
    }
}

/// Counts the words of `text`: tokens are separated by whitespace, stripped
/// of non-alphanumeric characters at both ends and lower-cased; tokens that
/// become empty are not counted.
pub fn count_words(text: &str) -> (r: WordCounts)
    ensures
        r.wf(),
        forall|w: Seq<char>| #[trigger] r.count(w) == word_count_spec(text@, w),
{
    let cs = chars_of(text);
    let mut counts = WordCounts::new();
    let mut i: usize = 0;
    let ghost mut done: Seq<Seq<char>> = seq![];
    assert(cs@.skip(0) =~= cs@);
    while i < cs.len()
        invariant
            cs@ == text@,
            i <= cs.len(),
            done.len() <= i,
            split_ws(cs@) == done + split_ws(cs@.skip(i as int)),
            counts.wf(),
            forall|w: Seq<char>| #[trigger] counts.count(w) == tally(done, w),
        decreases cs.len() - i,
    {
        let ghost rest = cs@.skip(i as int);
        if char_is_whitespace(cs[i]) {
            assert(rest.drop_first() =~= cs@.skip(i + 1));
            i = i + 1;
        } else {
            let mut j: usize = i + 1;
            while j < cs.len() && !char_is_whitespace(cs[j])
                invariant
                    i < j <= cs.len(),
                    forall|k: int| i <= k < j ==> !is_whitespace_spec(#[trigger] cs@[k]),
                decreases cs.len() - j,
            {
                j = j + 1;
            }
            let ghost token = rest.take((j - i) as int);
            proof {
                assert forall|k: int| 0 <= k < j - i implies !is_whitespace_spec(#[trigger] rest[k]) by {
                    assert(rest[k] == cs@[i + k]);
                }
                if j < cs.len() {
                    assert(rest[(j - i) as int] == cs@[j as int]);
                }
                lemma_run_len_unique(rest, (j - i) as nat);
                assert(rest.skip((j - i) as int) =~= cs@.skip(j as int));
                assert(token =~= cs@.subrange(i as int, j as int));
            }
            // strip non-alphanumeric characters at both ends
            let mut lo: usize = i;
            while lo < j && !char_is_alphanumeric(cs[lo])
                invariant
                    i <= lo <= j,
                    j <= cs.len(),
                    forall|k: int| i <= k < lo ==> !char_is_alphanumeric_result(#[trigger] cs@[k]),
                decreases j - lo,
            {
                lo = lo + 1;
            }
            let mut hi: usize = j;
            while hi > lo && !char_is_alphanumeric(cs[hi - 1])
                invariant
                    lo <= hi <= j,
                    j <= cs.len(),
                    forall|k: int| hi <= k < j ==> !char_is_alphanumeric_result(#[trigger] cs@[k]),
                decreases hi - lo,
            {
                hi = hi - 1;
            }
            proof {
                assert forall|k: int| 0 <= k < lo - i implies !char_is_alphanumeric_result(#[trigger] token[k]) by {
                    assert(token[k] == cs@[i + k]);
                }
                if lo < j {
                    assert(token[(lo - i) as int] == cs@[lo as int]);
                }
                lemma_lead_junk_unique(token, (lo - i) as nat);
                let t = token.skip((lo - i) as int);
                assert(t =~= cs@.subrange(lo as int, j as int));
                assert forall|k: int| t.len() - (j - hi) <= k < t.len() implies !char_is_alphanumeric_result(#[trigger] t[k]) by {
                    assert(t[k] == cs@[lo + k]);
                }
                if j - hi < t.len() {
                    assert(hi > lo);
                    assert(t[t.len() - (j - hi) - 1] == cs@[hi - 1]);
                }
                lemma_trail_junk_unique(t, (j - hi) as nat);
                assert(trim_junk(token) =~= cs@.subrange(lo as int, hi as int));
            }
            let core = string_of(&cs.as_slice()[lo..hi]);
            let word = str_to_lowercase(core.as_str());
            proof {
                lemma_tally_bound(done, word@);
                assert(done.push(token).drop_last() =~= done);
            }
            if word.as_str().unicode_len() > 0 {
                counts.add(word, 1);
            }
            proof {
                done = done.push(token);
                assert(split_ws(rest) == seq![token] + split_ws(cs@.skip(j as int)));
                assert(done + split_ws(cs@.skip(j as int)) =~= (done.drop_last() + seq![token]) + split_ws(cs@.skip(j as int)));
            }
            i = j;
        }
    }
    proof {
        assert(cs@.skip(i as int) =~= Seq::<char>::empty());
        assert(done + split_ws(Seq::<char>::empty()) =~= done);
    }
    counts
}

/// Adds every count of `source` to `target`.
pub fn merge_into(target: &mut WordCounts, source: WordCounts)
    requires
        old(target).wf(),
        source.wf(),
        forall|w: Seq<char>| old(target).count(w) + source.count(w) <= usize::MAX,
    ensures
        final(target).wf(),
        forall|w: Seq<char>| #[trigger] final(target).count(w) == old(target).count(w) + source.count(w),
{
    let items = source.entries();
    let ghost sp = source.pairs();
    let mut k: usize = 0;
    while k < items.len()
        invariant
            items@.map_values(|e: (String, usize)| (e.0@, e.1)) == sp,
            sp == source.pairs(),
            source.wf(),
            k <= items.len(),
            target.wf(),
            forall|w: Seq<char>| old(target).count(w) + source.count(w) <= usize::MAX,
            forall|w: Seq<char>| #[trigger] target.count(w) == old(target).count(w) + count_in(sp.take(k as int), w),
        decreases items.len() - k,
    {
        let w = items[k].0.clone();
        let c = items[k].1;
        proof {
            assert(sp.take(k + 1) =~= sp.take(k as int).push(sp[k as int]));
            let pre = sp.take(k + 1);
            assert(distinct_keys(pre)) by {
                assert forall|a: int, b: int| 0 <= a < b < pre.len() implies #[trigger] pre[a].0 != #[trigger] pre[b].0 by {
                    assert(sp[a].0 != sp[b].0);
                }
            }
            lemma_count_in_push(sp.take(k as int), sp[k as int], w@);
            lemma_count_in_at(sp, k as int);
            assert(sp[k as int] == (w@, c));
            assert(count_in(sp.take(k as int), w@) == 0) by {
                if exists|m: int| 0 <= m < sp.take(k as int).len() && sp.take(k as int)[m].0 == w@ {
                    let m = choose|m: int| 0 <= m < sp.take(k as int).len() && sp.take(k as int)[m].0 == w@;
                    assert(sp[m].0 != sp[k as int].0);
                }
            }
        }
        assert(old(target).count(w@) + source.count(w@) <= usize::MAX);
        assert(target.count(w@) == old(target).count(w@) + count_in(sp.take(k as int), w@));
        target.add(w, c);
        proof {
            assert forall|v: Seq<char>| #[trigger] target.count(v) == old(target).count(v) + count_in(sp.take(k + 1), v) by {
                lemma_count_in_push(sp.take(k as int), sp[k as int], v);
            }
        }
        k = k + 1;
    }
    assert(sp.take(items.len() as int) =~= sp);
}

// ------------------------------------------------------------------
// Ranking
// ------------------------------------------------------------------

/// `a` comes before `b` in dictionary order of their characters. For Rust
/// strings this is the order of `String`'s comparison, since UTF-8 keeps
/// the order of code points.
pub open spec fn lex_lt(a: Seq<char>, b: Seq<char>) -> bool
    decreases a.len(),
{
    if a.len() == 0 {
        b.len() > 0
    } else if b.len() == 0 {
        false
    } else if (a[0] as u32) < (b[0] as u32) {
        true
    } else if (a[0] as u32) > (b[0] as u32) {
        false
    } else {
        lex_lt(a.drop_first(), b.drop_first())
    }
}

/// A word comes before every longer word that it begins: `the` before
/// `then`, as `String` orders them.
pub proof fn law_prefix_comes_first(a: Seq<char>, b: Seq<char>)
    requires
        a.len() < b.len(),
        b.take(a.len() as int) == a,
    ensures
        lex_lt(a, b),
        !lex_lt(b, a),
    decreases a.len(),
{
    if a.len() > 0 {
        assert(b.drop_first().take(a.len() - 1) =~= a.drop_first());
        assert(a[0] == b.take(a.len() as int)[0]);
        law_prefix_comes_first(a.drop_first(), b.drop_first());
    }
}

/// Otherwise the first position where two words differ decides, by the
/// code points there.
pub proof fn law_first_difference_decides(a: Seq<char>, b: Seq<char>, k: int)
    requires
        0 <= k < a.len(),
        k < b.len(),
        a.take(k) == b.take(k),
        (a[k] as u32) < (b[k] as u32),
    ensures
        lex_lt(a, b),
        !lex_lt(b, a),
    decreases k,
{
    if k > 0 {
        assert(a[0] == a.take(k)[0] && b[0] == b.take(k)[0]);
        assert(a.drop_first().take(k - 1) =~= a.take(k).drop_first());
        assert(b.drop_first().take(k - 1) =~= b.take(k).drop_first());
        law_first_difference_decides(a.drop_first(), b.drop_first(), k - 1);
    }
}

/// Word `a` ranks above word `b`: counted more often, or as often and
/// first in dictionary order.
pub open spec fn ranks_above(a: (Seq<char>, usize), b: (Seq<char>, usize)) -> bool {
    a.1 > b.1 || (a.1 == b.1 && lex_lt(a.0, b.0))
}

/// No entry ranks above an earlier one.
pub open spec fn is_ranked(s: Seq<(Seq<char>, usize)>) -> bool {
    forall|i: int, j: int| 0 <= i < j < s.len() ==> !ranks_above(#[trigger] s[j], #[trigger] s[i])
}

pub proof fn lemma_lex_lt_irreflexive(a: Seq<char>)
    ensures
        !lex_lt(a, a),
    decreases a.len(),
{
    if a.len() > 0 {
        lemma_lex_lt_irreflexive(a.drop_first());
    }
}

pub proof fn lemma_lex_lt_transitive(a: Seq<char>, b: Seq<char>, c: Seq<char>)
    requires
        lex_lt(a, b),
        lex_lt(b, c),
    ensures
        lex_lt(a, c),
    decreases a.len(),
{
    if a.len() > 0 && b.len() > 0 && c.len() > 0 {
        if (a[0] as u32) == (b[0] as u32) && (b[0] as u32) == (c[0] as u32) {
            lemma_lex_lt_transitive(a.drop_first(), b.drop_first(), c.drop_first());
        }
    }
}

proof fn lemma_char_code_injective(x: char, y: char)
    ensures
        (x as u32) == (y as u32) ==> x == y,
{
}

/// Two different words are in dictionary order one way or the other.
pub proof fn lemma_lex_lt_total(a: Seq<char>, b: Seq<char>)
    requires
        a != b,
    ensures
        lex_lt(a, b) || lex_lt(b, a),
    decreases a.len(),
{
    if a.len() > 0 && b.len() > 0 {
        lemma_char_code_injective(a[0], b[0]);
    }
    if a.len() > 0 && b.len() > 0 && a[0] == b[0] {
        if a.drop_first() == b.drop_first() {
            assert(a =~= seq![a[0]] + a.drop_first());
            assert(b =~= seq![b[0]] + b.drop_first());
        }
        lemma_lex_lt_total(a.drop_first(), b.drop_first());
    } else if a.len() == 0 && b.len() == 0 {
        assert(a =~= b);
    }
}

proof fn lemma_ranks_above_transitive(a: (Seq<char>, usize), b: (Seq<char>, usize), c: (Seq<char>, usize))
    requires
        ranks_above(a, b),
        ranks_above(b, c),
    ensures
        ranks_above(a, c),
{
    if a.1 == b.1 && b.1 == c.1 {
        lemma_lex_lt_transitive(a.0, b.0, c.0);
    }
}

/// A ranking is determined by the counts alone: two rankings of the same
/// (word, count) pairs, with no word twice, are the same sequence, since
/// no two different words tie.
pub proof fn law_ranking_unique(a: Seq<(Seq<char>, usize)>, b: Seq<(Seq<char>, usize)>)
    requires
        distinct_keys(a),
        a.to_multiset() == b.to_multiset(),
        is_ranked(a),
        is_ranked(b),
    ensures
        a == b,
    decreases a.len(),
{
    broadcast use vstd::seq_lib::group_to_multiset_ensures;
    assert(a.len() == a.to_multiset().len());
    assert(b.len() == b.to_multiset().len());
    if a.len() == 0 {
        assert(a =~= b);
    } else {
        let x = a[0];
        let y = b[0];
        assert(a.contains(x));
        assert(a.to_multiset().count(x) > 0);
        assert(b.contains(x));
        let j = choose|j: int| 0 <= j < b.len() && b[j] == x;
        assert(b.contains(y));
        assert(b.to_multiset().count(y) > 0);
        assert(a.contains(y));
        let i = choose|i: int| 0 <= i < a.len() && a[i] == y;
        if x != y {
            assert(i > 0 && j > 0);
            assert(!ranks_above(a[i], a[0]));
            assert(!ranks_above(b[j], b[0]));
            assert(x.0 != y.0);
            lemma_lex_lt_total(x.0, y.0);
            assert(false);
        }
        assert(a.remove(0) =~= a.drop_first());
        assert(b.remove(0) =~= b.drop_first());
        assert(a.drop_first().to_multiset() == a.to_multiset().remove(x));
        assert(b.drop_first().to_multiset() == b.to_multiset().remove(y));
        let ta = a.drop_first();
        let tb = b.drop_first();
        assert forall|p: int, q: int| 0 <= p < q < ta.len() implies !ranks_above(#[trigger] ta[q], #[trigger] ta[p]) by {
            assert(ta[p] == a[p + 1] && ta[q] == a[q + 1]);
        }
        assert forall|p: int, q: int| 0 <= p < q < tb.len() implies !ranks_above(#[trigger] tb[q], #[trigger] tb[p]) by {
            assert(tb[p] == b[p + 1] && tb[q] == b[q + 1]);
        }
        assert forall|p: int, q: int| 0 <= p < q < ta.len() implies ta[p].0 != ta[q].0 by {
            assert(ta[p] == a[p + 1] && ta[q] == a[q + 1]);
        }
        law_ranking_unique(ta, tb);
        assert(a =~= b) by {
            assert forall|k: int| 0 <= k < a.len() implies a[k] == b[k] by {
                if k > 0 {
                    assert(a[k] == ta[k - 1] && b[k] == tb[k - 1]);
                }
            }
        }
    }
}

/// Whether `a` comes before `b` in dictionary order.
fn lex_less(a: &str, b: &str) -> (r: bool)
    ensures
        r == lex_lt(a@, b@),
{
    let ca = chars_of(a);
    let cb = chars_of(b);
    let mut i: usize = 0;
    assert(a@.skip(0) =~= a@);
    assert(b@.skip(0) =~= b@);
    while i < ca.len() && i < cb.len()
        invariant
            ca@ == a@,
            cb@ == b@,
            i <= ca.len(),
            i <= cb.len(),
            lex_lt(a@, b@) == lex_lt(a@.skip(i as int), b@.skip(i as int)),
        decreases ca.len() - i,
    {
        let x = ca[i] as u32;
        let y = cb[i] as u32;
        assert(a@.skip(i as int)[0] == ca@[i as int]);
        assert(b@.skip(i as int)[0] == cb@[i as int]);
        if x < y {
            return true;
        }
        if x > y {
            return false;
        }
        assert(a@.skip(i as int).drop_first() =~= a@.skip(i + 1));
        assert(b@.skip(i as int).drop_first() =~= b@.skip(i + 1));
        i = i + 1;
    }
    i == ca.len() && i < cb.len()
}

impl WordCounts {
    /// Every counted word with its count, most frequent first and, among
    /// words counted as often, in dictionary order.
    pub fn ranked(&self) -> (r: Vec<(String, usize)>)
        requires
            self.wf(),
        ensures
            r@.map_values(|e: (String, usize)| (e.0@, e.1)).to_multiset() == self.pairs().to_multiset(),
            is_ranked(r@.map_values(|e: (String, usize)| (e.0@, e.1))),
    {
        broadcast use vstd::seq_lib::to_multiset_insert;
        let items = self.entries();
        let ghost sp = self.pairs();
        let mut r: Vec<(String, usize)> = Vec::new();
        let mut k: usize = 0;
        assert(sp.take(0) =~= Seq::<(Seq<char>, usize)>::empty());
        assert(r@.map_values(|e: (String, usize)| (e.0@, e.1)) =~= Seq::<(Seq<char>, usize)>::empty());
        while k < items.len()
            invariant
                items@.map_values(|e: (String, usize)| (e.0@, e.1)) == sp,
                k <= items.len(),
                r@.map_values(|e: (String, usize)| (e.0@, e.1)).to_multiset() == sp.take(k as int).to_multiset(),
                is_ranked(r@.map_values(|e: (String, usize)| (e.0@, e.1))),
            decreases items.len() - k,
        {
            let w = items[k].0.clone();
            let c = items[k].1;
            let ghost x = (w@, c);
            assert(sp[k as int] == x);
            let ghost rv = r@.map_values(|e: (String, usize)| (e.0@, e.1));
            let mut pos: usize = 0;
            while pos < r.len() && !(c > r[pos].1 || (c == r[pos].1 && lex_less(w.as_str(), r[pos].0.as_str())))
                invariant
                    rv == r@.map_values(|e: (String, usize)| (e.0@, e.1)),
                    pos <= r.len(),
                    x == (w@, c),
                    forall|a: int| 0 <= a < pos ==> !ranks_above(x, #[trigger] rv[a]),
                decreases r.len() - pos,
            {
                assert(rv[pos as int] == (r@[pos as int].0@, r@[pos as int].1));
                pos = pos + 1;
            }
            proof {
                if pos < r.len() {
                    assert(rv[pos as int] == (r@[pos as int].0@, r@[pos as int].1));
                    assert(ranks_above(x, rv[pos as int]));
                }
            }
            r.insert(pos, (w, c));
            proof {
                let nv = r@.map_values(|e: (String, usize)| (e.0@, e.1));
                assert(nv =~= rv.insert(pos as int, x));
                assert forall|i: int, j: int| 0 <= i < j < nv.len() implies !ranks_above(#[trigger] nv[j], #[trigger] nv[i]) by {
                    if j < pos {
                    } else if i < pos && j == pos {
                    } else if i < pos {
                        assert(nv[j] == rv[j - 1]);
                        if i < j - 1 {
                        }
                    } else if i == pos {
                        assert(nv[j] == rv[j - 1]);
                        if ranks_above(rv[j - 1], x) {
                            if j - 1 == pos {
                                lemma_ranks_above_transitive(x, rv[pos as int], x);
                                lemma_lex_lt_irreflexive(x.0);
                            } else {
                                lemma_ranks_above_transitive(rv[j - 1], x, rv[pos as int]);
                            }
                        }
                    } else {
                        assert(nv[i] == rv[i - 1]);
                        assert(nv[j] == rv[j - 1]);
                    }
                }
                assert(sp.take(k + 1) =~= sp.take(k as int).push(x));
                vstd::seq_lib::to_multiset_build(sp.take(k as int), x);
                vstd::seq_lib::to_multiset_insert(rv, pos as int, x);
            }
            k = k + 1;
        }
        assert(sp.take(items.len() as int) =~= sp);
        r
    }
}

} // verus!
