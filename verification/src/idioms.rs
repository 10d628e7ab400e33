//! Idioms: supertraits, extension traits, validated newtypes, sealed
//! traits, type-state builders, fixed-capacity stacks and clone-on-write.

use vstd::prelude::*;
use vstd::string::StringSliceAdditionalSpecFns;
use core::marker::PhantomData;
use std::borrow::Cow;
use crate::text::{chars_of, decimal, push_decimal, push_str, string_of};
use crate::word_counter::{char_is_whitespace, is_whitespace_spec, split_ws, lemma_run_len_unique};

pub mod sealed;

verus! {

// ------------------------------------------------------------------
// Supertraits
// ------------------------------------------------------------------

/// Things that describe themselves.
pub trait Describable {
    spec fn description(&self) -> Seq<char>;

    fn describe(&self) -> (s: String)
        ensures
            s@ == self.description(),
    ;
}

/// Things that can be logged; every loggable thing is describable.
pub trait Loggable: Describable {
    spec fn level(&self) -> Seq<char>;

    fn log_level(&self) -> (s: &str)
        ensures
            s@ == self.level(),
    ;

    /// The line that logging writes: `[LEVEL] DESCRIPTION`.
    fn log_line(&self) -> (s: String)
        ensures
            s@ == "["@ + self.level() + "] "@ + self.description(),
    {
        let mut s = String::new();
        push_str(&mut s, "[");
        let level = self.log_level();
        push_str(&mut s, level);
        push_str(&mut s, "] ");
        let d = self.describe();
        push_str(&mut s, d.as_str());
        s
    }
}

pub struct ServerEvent {
    pub message: String,
    pub severity: u8,
}

/// `INFO` for severities up to 3, `WARN` up to 7, `ERROR` above.
pub open spec fn severity_level(severity: u8) -> Seq<char> {
    if severity <= 3 {
        "INFO"@
    } else if severity <= 7 {
        "WARN"@
    } else {
        "ERROR"@
    }
}

impl Describable for ServerEvent {
    open spec fn description(&self) -> Seq<char> {
        "event: "@ + self.message@
    }

    fn describe(&self) -> (s: String) {
        let mut s = String::new();
        push_str(&mut s, "event: ");
        push_str(&mut s, self.message.as_str());
        s
    }
}

impl Loggable for ServerEvent {
    open spec fn level(&self) -> Seq<char> {
        severity_level(self.severity)
    }

    fn log_level(&self) -> (s: &str) {
        if self.severity <= 3 {
            "INFO"
        } else if self.severity <= 7 {
            "WARN"
        } else {
            "ERROR"
        }
    }
}

// ------------------------------------------------------------------
// Extension trait on str
// ------------------------------------------------------------------

/// Extra queries on string slices.
pub trait StrExt {
    spec fn chars_view(&self) -> Seq<char>;

    /// Empty or whitespace only.
    fn is_blank(&self) -> (b: bool)
        ensures
            b == forall|i: int| 0 <= i < self.chars_view().len() ==> is_whitespace_spec(#[trigger] self.chars_view()[i]),
    ;

    /// Number of whitespace-separated words.
    fn word_count(&self) -> (n: usize)
        ensures
            n == split_ws(self.chars_view()).len(),
    ;
}

impl StrExt for str {
    open spec fn chars_view(&self) -> Seq<char> {
        self@
    }

    fn is_blank(&self) -> (b: bool) {
        let cs = chars_of(self);
        let mut i: usize = 0;
        while i < cs.len()
            invariant
                cs@ == self@,
                i <= cs.len(),
                forall|k: int| 0 <= k < i ==> is_whitespace_spec(#[trigger] cs@[k]),
            decreases cs.len() - i,
        {
            if !char_is_whitespace(cs[i]) {
                assert(!is_whitespace_spec(self.chars_view()[i as int]));
                return false;
            }
            i = i + 1;
        }
        true
    }

    fn word_count(&self) -> (n: usize) {
        let cs = chars_of(self);
        let mut count: usize = 0;
        let mut i: usize = 0;
        assert(cs@.skip(0) =~= cs@);
        while i < cs.len()
            invariant
                cs@ == self@,
                i <= cs.len(),
                count <= i,
                split_ws(cs@).len() == count + split_ws(cs@.skip(i as int)).len(),
            decreases cs.len() - i,
        {
            let ghost rest = cs@.skip(i as int);
            if char_is_whitespace(cs[i]) {
                assert(rest.drop_first() =~= cs@.skip(i + 1));
                i = i + 1;
            } else {
                let mut j: usize = i + 1;
                while j < cs.len() && !char_is_whitespace(cs[j])
                    invariant
                        i < j <= cs.len(),
                        forall|k: int| i <= k < j ==> !is_whitespace_spec(#[trigger] cs@[k]),
                    decreases cs.len() - j,
                {
                    j = j + 1;
                }
                proof {
                    assert forall|k: int| 0 <= k < j - i implies !is_whitespace_spec(#[trigger] rest[k]) by {
                        assert(rest[k] == cs@[i + k]);
                    }
                    if j < cs.len() {
                        assert(rest[(j - i) as int] == cs@[j as int]);
                    }
                    lemma_run_len_unique(rest, (j - i) as nat);
                    assert(rest.skip((j - i) as int) =~= cs@.skip(j as int));
                }
                count = count + 1;
                i = j;
            }
        }
        assert(cs@.skip(i as int) =~= Seq::<char>::empty());
        count
    }
}

// ------------------------------------------------------------------
// Summaries of displayed values
// ------------------------------------------------------------------

/// The summary of a value's text: the first 20 bytes followed by `...`
/// when the text is longer than 20 bytes, else the whole text.
pub open spec fn summary_of(full: Seq<char>) -> Seq<char> {
    let bytes = vstd::utf8::encode_utf8(full);
    if bytes.len() > 20 {
        vstd::utf8::decode_utf8(bytes.subrange(0, 20)) + "..."@
    } else {
        full
    }
}

/// Summarises the text of a displayed value. A text longer than 20 bytes
/// must have a character boundary at byte 20.
pub fn summarize(full: &str) -> (r: String)
    requires
        full.spec_bytes().len() <= usize::MAX,
        full.spec_bytes().len() > 20 ==> vstd::utf8::is_char_boundary(full.spec_bytes(), 20),
    ensures
        r@ == summary_of(full@),
{
    broadcast use vstd::utf8::encode_utf8_decode_utf8;
    if full.len() > 20 {
        let (head, _rest) = full.split_at(20);
        let mut r = String::new();
        push_str(&mut r, head);
        push_str(&mut r, "...");
        proof {
            let bytes = vstd::utf8::encode_utf8(full@);
            assert(head.spec_bytes() == bytes.subrange(0, 20));
            assert(vstd::utf8::encode_utf8(head@) == bytes.subrange(0, 20));
            assert(vstd::utf8::decode_utf8(vstd::utf8::encode_utf8(head@)) == head@);
            assert(r@ == head@ + "..."@);
        }
        r
    } else {
        full.to_owned()
    }
}

// ------------------------------------------------------------------
// Trait with an associated type
// ------------------------------------------------------------------

/// Values with an inverse: logical negation, arithmetic negation.
pub trait Invertible {
    type Output;

    /// The inverse exists in the output type.
    spec fn invertible(&self) -> bool;

    spec fn inverse(&self) -> Self::Output;

    fn invert(&self) -> (r: Self::Output)
        requires
            self.invertible(),
        ensures
            r == self.inverse(),
    ;
}

impl Invertible for bool {
    type Output = bool;

    open spec fn invertible(&self) -> bool {
        true
    }

    open spec fn inverse(&self) -> bool {
        !*self
    }

    fn invert(&self) -> (r: bool) {
        !*self
    }
}

impl Invertible for i8 {
    type Output = i8;

    open spec fn invertible(&self) -> bool {
        *self != i8::MIN
    }

    open spec fn inverse(&self) -> i8 {
        (-*self) as i8
    }

    fn invert(&self) -> (r: i8) {
        -*self
    }
}

impl Invertible for i16 {
    type Output = i16;

    open spec fn invertible(&self) -> bool {
        *self != i16::MIN
    }

    open spec fn inverse(&self) -> i16 {
        (-*self) as i16
    }

    fn invert(&self) -> (r: i16) {
        -*self
    }
}

impl Invertible for i32 {
    type Output = i32;

    open spec fn invertible(&self) -> bool {
        *self != i32::MIN
    }

    open spec fn inverse(&self) -> i32 {
        (-*self) as i32
    }

    fn invert(&self) -> (r: i32) {
        -*self
    }
}

impl Invertible for i64 {
    type Output = i64;

    open spec fn invertible(&self) -> bool {
        *self != i64::MIN
    }

    open spec fn inverse(&self) -> i64 {
        (-*self) as i64
    }

    fn invert(&self) -> (r: i64) {
        -*self
    }
}

/// The inverse of a number adds to it to zero, and the inverse of a
/// `bool` is the other value; every number but the least of its type can
/// be inverted.
pub proof fn law_invert_negates(b: bool, x8: i8, x16: i16, x32: i32, x64: i64)
    ensures
        b.inverse() != b,
        x8.invertible() == (x8 != i8::MIN),
        x16.invertible() == (x16 != i16::MIN),
        x32.invertible() == (x32 != i32::MIN),
        x64.invertible() == (x64 != i64::MIN),
        x8.invertible() ==> x8 + x8.inverse() == 0,
        x16.invertible() ==> x16 + x16.inverse() == 0,
        x32.invertible() ==> x32 + x32.inverse() == 0,
        x64.invertible() ==> x64 + x64.inverse() == 0,
{
}

/// Inverting twice gives the value back, for every value that can be
/// inverted.
pub proof fn law_invert_twice(b: bool, x8: i8, x16: i16, x32: i32, x64: i64)
    requires
        x8.invertible(),
        x16.invertible(),
        x32.invertible(),
        x64.invertible(),
    ensures
        b.inverse().inverse() == b,
        x8.inverse().invertible() && x8.inverse().inverse() == x8,
        x16.inverse().invertible() && x16.inverse().inverse() == x16,
        x32.inverse().invertible() && x32.inverse().inverse() == x32,
        x64.inverse().invertible() && x64.inverse().inverse() == x64,
{
}

// ------------------------------------------------------------------
// Validated newtype
// ------------------------------------------------------------------

/// An e-mail address: holds at least one `@` and one `.`.
pub struct EmailAddress(String);

/// What `EmailAddress::new` accepts.
pub open spec fn is_email(s: Seq<char>) -> bool {
    s.contains('@') && s.contains('.')
}

impl View for EmailAddress {
    type V = Seq<char>;

    closed spec fn view(&self) -> Seq<char> {
        self.0@
    }
}

fn contains_char(cs: &Vec<char>, c: char) -> (b: bool)
    ensures
        b == cs@.contains(c),
{
    let mut i: usize = 0;
    while i < cs.len()
        invariant
            i <= cs.len(),
            forall|k: int| 0 <= k < i ==> cs@[k] != c,
        decreases cs.len() - i,
    {
        if cs[i] == c {
            return true;
        }
        i = i + 1;
    }
    false
}

impl EmailAddress {
    #[verifier::type_invariant]
    closed spec fn valid(self) -> bool {
        is_email(self.0@)
    }

    pub fn new(email: &str) -> (r: Result<Self, String>)
        ensures
            is_email(email@) ==> (r matches Ok(a) && a@ == email@),
            !is_email(email@) ==> (r matches Err(e) && e@ == "invalid email: "@ + email@),
    {
        let cs = chars_of(email);
        if contains_char(&cs, '@') && contains_char(&cs, '.') {
            Ok(EmailAddress(email.to_owned()))
        } else {
            let mut e = String::new();
            push_str(&mut e, "invalid email: ");
            push_str(&mut e, email);
            Err(e)
        }
    }

    /// Same as `new`.
    pub fn try_from(email: &str) -> (r: Result<Self, String>)
        ensures
            is_email(email@) ==> (r matches Ok(a) && a@ == email@),
            !is_email(email@) ==> (r matches Err(e) && e@ == "invalid email: "@ + email@),
    {
        Self::new(email)
    }

    /// The address as a string slice.
    pub fn as_str(&self) -> (s: &str)
        ensures
            s@ == self@,
            is_email(s@),
    {
        proof { use_type_invariant(self); }
        self.0.as_str()
    }
}

// ------------------------------------------------------------------
// Sealed trait
// ------------------------------------------------------------------

/// A database backend; only this crate's backends implement it.
pub trait DatabaseBackend: sealed::Seal {
    spec fn name_text(&self) -> Seq<char>;

    spec fn connection_limit(&self) -> u32;

    fn name(&self) -> (s: &str)
        ensures
            s@ == self.name_text(),
    ;

    fn max_connections(&self) -> (n: u32)
        ensures
            n == self.connection_limit(),
    ;
}

pub struct Postgres;

pub struct Sqlite;

impl sealed::Seal for Postgres {}

impl sealed::Seal for Sqlite {}

impl DatabaseBackend for Postgres {
    open spec fn name_text(&self) -> Seq<char> {
        "PostgreSQL"@
    }

    open spec fn connection_limit(&self) -> u32 {
        100
    }

    fn name(&self) -> (s: &str) {
        "PostgreSQL"
    }

    fn max_connections(&self) -> (n: u32) {
        100
    }
}

impl DatabaseBackend for Sqlite {
    open spec fn name_text(&self) -> Seq<char> {
        "SQLite"@
    }

    open spec fn connection_limit(&self) -> u32 {
        1
    }

    fn name(&self) -> (s: &str) {
        "SQLite"
    }

    fn max_connections(&self) -> (n: u32) {
        1
    }
}

/// `NAME: max N connections`.
pub fn describe_backend<B: DatabaseBackend>(backend: &B) -> (s: String)
    ensures
        s@ == backend.name_text() + ": max "@ + decimal(backend.connection_limit() as nat) + " connections"@,
{
    let mut s = String::new();
    push_str(&mut s, backend.name());
    push_str(&mut s, ": max ");
    push_decimal(&mut s, backend.max_connections() as u64);
    push_str(&mut s, " connections");
    s
}

// ------------------------------------------------------------------
// Type-state request builder
// ------------------------------------------------------------------

/// No URL set yet.
pub struct NoUrl;

/// A URL is set.
pub struct HasUrl;

/// A request; `send` exists only once a URL is set.
pub struct RequestBuilder<UrlState> {
    url: Option<String>,
    timeout_ms: u32,
    _state: PhantomData<UrlState>,
}

impl<S> RequestBuilder<S> {
    pub closed spec fn url_view(&self) -> Option<Seq<char>> {
        match self.url {
            Some(u) => Some(u@),
            None => None,
        }
    }

    pub closed spec fn timeout_view(&self) -> u32 {
        self.timeout_ms
    }

    pub fn timeout(self, ms: u32) -> (r: Self)
        ensures
            r.timeout_view() == ms,
            r.url_view() == self.url_view(),
    {
        let mut b = self;
        b.timeout_ms = ms;
        b
    }
}

impl RequestBuilder<NoUrl> {
    /// No URL, a timeout of 5000 ms.
    pub fn new() -> (r: Self)
        ensures
            r.url_view() is None,
            r.timeout_view() == 5000,
    {
        RequestBuilder { url: None, timeout_ms: 5000, _state: PhantomData }
    }

    pub fn url(self, url: &str) -> (r: RequestBuilder<HasUrl>)
        ensures
            r.url_view() == Some(url@),
            r.timeout_view() == self.timeout_view(),
    {
        RequestBuilder { url: Some(url.to_owned()), timeout_ms: self.timeout_ms, _state: PhantomData }
    }
}

/// `sending request to URL (timeout: Nms)`.
pub open spec fn send_text(url: Seq<char>, timeout: u32) -> Seq<char> {
    "sending request to "@ + url + " (timeout: "@ + decimal(timeout as nat) + "ms)"@
}

impl RequestBuilder<HasUrl> {
    pub fn send(&self) -> (s: String)
        requires
            self.url_view() is Some,
        ensures
            s@ == send_text(self.url_view()->0, self.timeout_view()),
    {
        let mut s = String::new();
        push_str(&mut s, "sending request to ");
        match &self.url {
            Some(u) => push_str(&mut s, u.as_str()),
            None => {},
        }
        push_str(&mut s, " (timeout: ");
        push_decimal(&mut s, self.timeout_ms as u64);
        push_str(&mut s, "ms)");
        s
    }
}

// ------------------------------------------------------------------
// Fixed-capacity stack
// ------------------------------------------------------------------

/// A stack of at most `CAP` values.
pub struct FixedStack<T, const CAP: usize> {
    data: Vec<T>,
}

impl<T: Copy, const CAP: usize> View for FixedStack<T, CAP> {
    type V = Seq<T>;

    closed spec fn view(&self) -> Seq<T> {
        self.data@
    }
}

impl<T: Copy, const CAP: usize> FixedStack<T, CAP> {
    /// The stack holds at most `CAP` values.
    pub open spec fn within_capacity(&self) -> bool {
        self@.len() <= CAP
    }

    pub fn new() -> (s: Self)
        ensures
            s@ == Seq::<T>::empty(),
            s.within_capacity(),
    {
        FixedStack { data: Vec::new() }
    }

    /// Pushes `value`, or refuses when the stack is full.
    pub fn push(&mut self, value: T) -> (r: Result<(), &'static str>)
        ensures
            old(self)@.len() < CAP ==> r is Ok && final(self)@ == old(self)@.push(value),
            old(self)@.len() >= CAP ==> (r matches Err(e) && e@ == "stack overflow: capacity exceeded"@)
                && final(self)@ == old(self)@,
            old(self).within_capacity() ==> final(self).within_capacity(),
    {
        if self.data.len() >= CAP {
            return Err("stack overflow: capacity exceeded");
        }
        self.data.push(value);
        Ok(())
    }

    /// Removes and returns the top value, `None` when empty.
    pub fn pop(&mut self) -> (r: Option<T>)
        ensures
            old(self)@.len() == 0 ==> r is None && final(self)@ == old(self)@,
            old(self)@.len() > 0 ==> r == Some(old(self)@.last()) && final(self)@ == old(self)@.drop_last(),
            old(self).within_capacity() ==> final(self).within_capacity(),
    {
        if self.data.len() == 0 {
            return None;
        }
        self.data.pop()
    }

    pub fn len(&self) -> (n: usize)
        ensures
            n == self@.len(),
    {
        self.data.len()
    }

    pub fn capacity(&self) -> (n: usize)
        ensures
            n == CAP,
    {
        CAP
    }

    pub fn is_empty(&self) -> (b: bool)
        ensures
            b == (self@.len() == 0),
    {
        self.data.len() == 0
    }
}

/// Popping right after a successful push gives back the pushed value and
/// the stack as it was.
pub proof fn law_stack_push_pop<T>(before: Seq<T>, value: T)
    ensures
        before.push(value).last() == value,
        before.push(value).drop_last() == before,
{
    assert(before.push(value).drop_last() =~= before);
}

// ------------------------------------------------------------------
// Sum of an array
// ------------------------------------------------------------------

/// The sum of `s`.
pub open spec fn sum(s: Seq<i32>) -> int
    decreases s.len(),
{
    if s.len() == 0 {
        0
    } else {
        sum(s.drop_last()) + s.last()
    }
}

/// Every partial sum of `s`, from the left, fits in an `i32`.
pub open spec fn partial_sums_fit(s: Seq<i32>) -> bool {
    forall|k: int| 0 <= k <= s.len() ==> i32::MIN <= #[trigger] sum(s.take(k)) <= i32::MAX
}

pub fn sum_array<const N: usize>(arr: &[i32; N]) -> (r: i32)
    requires
        partial_sums_fit(arr@),
    ensures
        r == sum(arr@),
{
    let mut total: i32 = 0;
    let mut i: usize = 0;
    assert(arr@.take(0) =~= Seq::<i32>::empty());
    while i < N
        invariant
            arr@.len() == N,
            i <= N,
            partial_sums_fit(arr@),
            total == sum(arr@.take(i as int)),
        decreases N - i,
    {
        assert(arr@.take(i + 1).drop_last() =~= arr@.take(i as int));
        assert(i32::MIN <= sum(arr@.take(i + 1)) <= i32::MAX);
        total = total + arr[i];
        i = i + 1;
    }
    assert(arr@.take(N as int) =~= arr@);
    total
}

// ------------------------------------------------------------------
// Clone on write
// ------------------------------------------------------------------

/// A character that HTML escaping replaces.
pub open spec fn is_special(c: char) -> bool {
    c == '<' || c == '>' || c == '&' || c == '"'
}

/// The escaped form of one character.
pub open spec fn escape_char(c: char) -> Seq<char> {
    if c == '&' {
        "&amp;"@
    } else if c == '<' {
        "&lt;"@
    } else if c == '>' {
        "&gt;"@
    } else if c == '"' {
        "&quot;"@
    } else {
        seq![c]
    }
}

/// `s` with `&`, `<`, `>` and `"` replaced by their HTML entities.
pub open spec fn escaped(s: Seq<char>) -> Seq<char>
    decreases s.len(),
{
    if s.len() == 0 {
        seq![]
    } else {
        escaped(s.drop_last()) + escape_char(s.last())
    }
}

/// Borrows the input when nothing needs escaping, and allocates the
/// escaped copy otherwise.
pub fn escape_html(input: &str) -> (r: Cow<'_, str>)
    ensures
        r@ == escaped(input@),
        (r is Borrowed) == !(exists|i: int| 0 <= i < input@.len() && is_special(#[trigger] input@[i])),
{
    let cs = chars_of(input);
    let mut out = String::new();
    let mut special = false;
    let mut i: usize = 0;
    while i < cs.len()
        invariant
            cs@ == input@,
            i <= cs.len(),
            out@ == escaped(cs@.take(i as int)),
            special == exists|k: int| 0 <= k < i && is_special(#[trigger] cs@[k]),
        decreases cs.len() - i,
    {
        let c = cs[i];
        assert(cs@.take(i + 1).drop_last() =~= cs@.take(i as int));
        if c == '&' {
            push_str(&mut out, "&amp;");
            special = true;
        } else if c == '<' {
            push_str(&mut out, "&lt;");
            special = true;
        } else if c == '>' {
            push_str(&mut out, "&gt;");
            special = true;
        } else if c == '"' {
            push_str(&mut out, "&quot;");
            special = true;
        } else {
            out.push(c);
        }
        i = i + 1;
    }
    assert(cs@.take(cs.len() as int) =~= cs@);
    if special {
        Cow::Owned(out)
    } else {
        proof { lemma_escaped_plain(input@); }
        Cow::Borrowed(input)
    }
}

proof fn lemma_escaped_plain(s: Seq<char>)
    requires
        !(exists|i: int| 0 <= i < s.len() && is_special(#[trigger] s[i])),
    ensures
        escaped(s) == s,
    decreases s.len(),
{
    if s.len() > 0 {
        assert(!is_special(s[s.len() - 1]));
        assert forall|i: int| 0 <= i < s.drop_last().len() implies !is_special(#[trigger] s.drop_last()[i]) by {
            assert(s.drop_last()[i] == s[i]);
        }
        lemma_escaped_plain(s.drop_last());
        assert(s.drop_last().push(s.last()) =~= s);
    }
}

/// Every element is at most every later one.
pub open spec fn is_sorted(s: Seq<i32>) -> bool {
    forall|i: int, j: int| 0 <= i < j < s.len() ==> s[i] <= s[j]
}

/// Every element is at most the next one.
pub open spec fn adjacent_sorted(s: Seq<i32>) -> bool {
    forall|i: int| 0 <= i < s.len() - 1 ==> #[trigger] s[i] <= s[i + 1]
}

proof fn lemma_adjacent_pair(s: Seq<i32>, i: int, j: int)
    requires
        adjacent_sorted(s),
        0 <= i < j < s.len(),
    ensures
        s[i] <= s[j],
    decreases j - i,
{
    assert(s[j - 1] <= s[j - 1 + 1]);
    if j > i + 1 {
        lemma_adjacent_pair(s, i, j - 1);
    }
}

proof fn lemma_adjacent_sorted(s: Seq<i32>)
    requires
        adjacent_sorted(s),
    ensures
        is_sorted(s),
{
    assert forall|i: int, j: int| 0 <= i < j < s.len() implies s[i] <= s[j] by {
        lemma_adjacent_pair(s, i, j);
    }
}

/// The values of `data` in increasing order.
pub fn sorted_copy(data: &[i32]) -> (r: Vec<i32>)
    ensures
        is_sorted(r@),
        r@.to_multiset() == data@.to_multiset(),
{
    broadcast use vstd::seq_lib::to_multiset_insert;
    let mut r: Vec<i32> = Vec::new();
    let mut i: usize = 0;
    assert(data@.take(0) =~= Seq::<i32>::empty());
    while i < data.len()
        invariant
            i <= data.len(),
            is_sorted(r@),
            r@.to_multiset() == data@.take(i as int).to_multiset(),
        decreases data.len() - i,
    {
        let x = data[i];
        let mut pos: usize = 0;
        while pos < r.len() && r[pos] <= x
            invariant
                pos <= r.len(),
                forall|k: int| 0 <= k < pos ==> r@[k] <= x,
            decreases r.len() - pos,
        {
            pos = pos + 1;
        }
        let ghost before = r@;
        r.insert(pos, x);
        proof {
            assert(r@ == before.insert(pos as int, x));
            assert forall|a: int, b: int| 0 <= a < b < r@.len() implies r@[a] <= r@[b] by {
                if a < pos && b < pos {
                    assert(before[a] <= before[b]);
                } else if a < pos && b == pos {
                } else if a < pos {
                    assert(before[a] <= before[b - 1]);
                } else if a == pos {
                    assert(x < before[pos as int] || pos == before.len());
                    assert(before[pos as int] <= before[b - 1] || b - 1 == pos);
                } else {
                    assert(before[a - 1] <= before[b - 1]);
                }
            }
            assert(data@.take(i + 1) =~= data@.take(i as int).push(x));
            vstd::seq_lib::to_multiset_build(data@.take(i as int), x);
            vstd::seq_lib::to_multiset_insert(before, pos as int, x);
            assert(r@.to_multiset() == before.to_multiset().insert(x));
        }
        i = i + 1;
    }
    assert(data@.take(data.len() as int) =~= data@);
    r
}

/// Borrows `data` when it is already sorted and allocates a sorted copy
/// otherwise.
pub fn ensure_sorted(data: &[i32]) -> (r: Cow<'_, [i32]>)
    ensures
        is_sorted(r@),
        r@.to_multiset() == data@.to_multiset(),
        (r is Borrowed) == adjacent_sorted(data@),
        r is Borrowed ==> r@ == data@,
{
    let mut ok = true;
    let mut i: usize = 0;
    let last: usize = if data.len() > 0 { data.len() - 1 } else { 0 };
    while i < last
        invariant
            i <= last,
            last == (if data.len() > 0 { data.len() - 1 } else { 0 }),
            ok == forall|k: int| 0 <= k < i ==> #[trigger] data@[k] <= data@[k + 1],
        decreases last - i,
    {
        if data[i] > data[i + 1] {
            ok = false;
        }
        i = i + 1;
    }
    if ok {
        proof {
            assert forall|k: int| 0 <= k < data@.len() - 1 implies #[trigger] data@[k] <= data@[k + 1] by {
            }
            lemma_adjacent_sorted(data@);
        }
        Cow::Borrowed(data)
    } else {
        proof {
            let k = choose|k: int| 0 <= k < i && !(#[trigger] data@[k] <= data@[k + 1]);
            assert(!(data@[k] <= data@[k + 1]));
        }
        Cow::Owned(sorted_copy(data))
    }
}

// ------------------------------------------------------------------
// Demonstration
// ------------------------------------------------------------------

/// The values that the idioms demonstration computes, for the caller to
/// print.
pub struct IdiomsDemo {
    /// The log line of a low-severity server event.
    pub log_line: String,
    /// `"  ".is_blank()`, `"hi".is_blank()`, `"hello world".word_count()`.
    pub spaces_blank: bool,
    pub hi_blank: bool,
    pub words: usize,
    /// `true`, `-5` and `7` inverted.
    pub inverted_bool: bool,
    pub inverted_neg: i32,
    pub inverted_pos: i64,
    /// A valid address, one through `try_from`, and an invalid one.
    pub email: Result<EmailAddress, String>,
    pub email_try: Result<EmailAddress, String>,
    pub email_bad: Result<EmailAddress, String>,
    /// The two backends described.
    pub backends: (String, String),
    /// Two requests, with the timeout set before and after the URL.
    pub requests: (String, String),
    /// Four pushes, a fifth push, and the pops in order.
    pub pushes: Vec<Result<(), &'static str>>,
    pub overflow: Result<(), &'static str>,
    pub stack_len: usize,
    pub stack_capacity: usize,
    pub popped: Vec<i32>,
}

/// Computes what the idioms demonstration shows.
pub fn run() -> (d: IdiomsDemo)
    ensures
        d.log_line@ == "["@ + severity_level(1) + "] "@ + "event: "@ + "server started"@,
        d.spaces_blank,
        !d.hi_blank,
        d.words == split_ws("hello world"@).len(),
        d.inverted_bool == false,
        d.inverted_neg == 5,
        d.inverted_pos == -7,
        is_email("user@example.com"@) ==> (d.email matches Ok(a) && a@ == "user@example.com"@),
        is_email("admin@site.org"@) ==> (d.email_try matches Ok(a) && a@ == "admin@site.org"@),
        !is_email("not-an-email"@) ==> (d.email_bad matches Err(e) && e@ == "invalid email: "@ + "not-an-email"@),
        d.backends.0@ == "PostgreSQL"@ + ": max "@ + decimal(100) + " connections"@,
        d.backends.1@ == "SQLite"@ + ": max "@ + decimal(1) + " connections"@,
        d.requests.0@ == send_text("https://example.com"@, 3000),
        d.requests.1@ == send_text("https://api.example.com/data"@, 1000),
        d.pushes@.len() == 4,
        forall|i: int| 0 <= i < 4 ==> #[trigger] d.pushes@[i] is Ok,
        d.overflow matches Err(e) && e@ == "stack overflow: capacity exceeded"@,
        d.stack_len == 4,
        d.stack_capacity == 4,
        d.popped@ == seq![40i32, 30, 20, 10],
{
    let event = ServerEvent { message: "server started".to_owned(), severity: 1 };
    let log_line = event.log_line();
    let spaces_blank = "  ".is_blank();
    let hi_blank = "hi".is_blank();
    proof {
        reveal_strlit("  ");
        reveal_strlit("hi");
        assert(!is_whitespace_spec("hi".chars_view()[0]));
    }
    let words = "hello world".word_count();
    let inverted_bool = true.invert();
    let inverted_neg = (-5i32).invert();
    let inverted_pos = 7i64.invert();
    let email = EmailAddress::new("user@example.com");
    let email_try = EmailAddress::try_from("admin@site.org");
    let email_bad = EmailAddress::new("not-an-email");
    let backends = (describe_backend(&Postgres), describe_backend(&Sqlite));
    let first = RequestBuilder::new().timeout(3000).url("https://example.com").send();
    let second = RequestBuilder::new().url("https://api.example.com/data").timeout(1000).send();
    let mut stack: FixedStack<i32, 4> = FixedStack::new();
    let mut pushes: Vec<Result<(), &'static str>> = Vec::new();
    pushes.push(stack.push(10));
    pushes.push(stack.push(20));
    pushes.push(stack.push(30));
    pushes.push(stack.push(40));
    let stack_len = stack.len();
    let stack_capacity = stack.capacity();
    let overflow = stack.push(50);
    let mut popped: Vec<i32> = Vec::new();
    while !stack.is_empty()
        invariant
            popped@ + stack@.reverse() == seq![40i32, 30, 20, 10],
        decreases stack@.len(),
    {
        let ghost before = stack@;
        match stack.pop() {
            Some(v) => {
                popped.push(v);
                assert(before.reverse() =~= seq![before.last()] + before.drop_last().reverse());
            },
            None => {},
        }
    }
    proof {
        assert(stack@.reverse() =~= Seq::<i32>::empty());
        assert(popped@ =~= popped@ + stack@.reverse());
    }
    IdiomsDemo {
        log_line,
        spaces_blank,
        hi_blank,
        words,
        inverted_bool,
        inverted_neg,
        inverted_pos,
        email,
        email_try,
        email_bad,
        backends,
        requests: (first, second),
        pushes,
        overflow,
        stack_len,
        stack_capacity,
        popped,
    }
}

} // verus!
