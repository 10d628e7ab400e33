//! A simulation of a Python bridge: exceptions, the interpreter lock,
//! dynamically typed values with conversions, and error mapping.

use vstd::prelude::*;
use crate::text::{chars_of, decimal, push_signed_decimal, push_str, signed_decimal};

verus! {

// ------------------------------------------------------------------
// Exceptions
// ------------------------------------------------------------------

/// A Python exception type, known by its name.
pub trait ExceptionType {
    const NAME: &'static str;

    /// The type's name, as text.
    spec fn name_text() -> Seq<char>;

    /// The type's name.
    fn name() -> (s: &'static str)
        ensures
            s@ == Self::name_text(),
    ;
}

pub struct ValueError;

impl ExceptionType for ValueError {
    const NAME: &'static str = "ValueError";

    open spec fn name_text() -> Seq<char> {
        "ValueError"@
    }

    fn name() -> (s: &'static str) {
        "ValueError"
    }
}

pub struct TypeError;

impl ExceptionType for TypeError {
    const NAME: &'static str = "TypeError";

    open spec fn name_text() -> Seq<char> {
        "TypeError"@
    }

    fn name() -> (s: &'static str) {
        "TypeError"
    }
}

pub struct RuntimeError;

impl ExceptionType for RuntimeError {
    const NAME: &'static str = "RuntimeError";

    open spec fn name_text() -> Seq<char> {
        "RuntimeError"@
    }

    fn name() -> (s: &'static str) {
        "RuntimeError"
    }
}

pub struct ZeroDivisionError;

impl ExceptionType for ZeroDivisionError {
    const NAME: &'static str = "ZeroDivisionError";

    open spec fn name_text() -> Seq<char> {
        "ZeroDivisionError"@
    }

    fn name() -> (s: &'static str) {
        "ZeroDivisionError"
    }
}

pub struct OverflowError;

impl ExceptionType for OverflowError {
    const NAME: &'static str = "OverflowError";

    open spec fn name_text() -> Seq<char> {
        "OverflowError"@
    }

    fn name() -> (s: &'static str) {
        "OverflowError"
    }
}

pub struct PanicException;

impl ExceptionType for PanicException {
    const NAME: &'static str = "PanicException";

    open spec fn name_text() -> Seq<char> {
        "PanicException"@
    }

    fn name() -> (s: &'static str) {
        "PanicException"
    }
}

/// A raised Python exception: its type's name and its message.
pub struct PyErr {
    pub exception_type: &'static str,
    pub message: String,
}

pub type PyResult<T> = Result<T, PyErr>;

/// The error has the given type name and message.
pub open spec fn is_err(e: PyErr, ty: Seq<char>, msg: Seq<char>) -> bool {
    e.exception_type@ == ty && e.message@ == msg
}

impl PyErr {
    /// An exception of type `E` with message `msg`.
    pub fn new<E: ExceptionType>(msg: &str) -> (e: PyErr)
        ensures
            e.exception_type@ == E::name_text(),
            e.message@ == msg@,
    {
        PyErr { exception_type: E::name(), message: msg.to_owned() }
    }

    /// `TYPE: MESSAGE`.
    pub fn display(&self) -> (s: String)
        ensures
            s@ == self.exception_type@ + ": "@ + self.message@,
    {
        let mut s = String::new();
        push_str(&mut s, self.exception_type);
        push_str(&mut s, ": ");
        push_str(&mut s, self.message.as_str());
        s
    }
}

// ------------------------------------------------------------------
// The interpreter lock
// ------------------------------------------------------------------

/// Proof that the interpreter lock is held.
pub struct Python {
    _token: (),
}

impl Python {
    /// Runs `f` with the lock held and returns what it returns.
    pub fn with_gil<F, R>(f: F) -> (r: R)
        where F: FnOnce(&Python) -> R,
        requires
            forall|py: &Python| f.requires((py,)),
        ensures
            exists|py: &Python| f.ensures((py,), r),
    {
        let py = Python { _token: () };
        f(&py)
    }

    /// Runs `f`, which does not touch Python objects, with the lock
    /// released, and returns what it returns.
    pub fn allow_threads<F, R>(&self, f: F) -> (r: R)
        where F: Send + FnOnce() -> R,
        requires
            f.requires(()),
        ensures
            f.ensures((), r),
    {
        f()
    }
}

// ------------------------------------------------------------------
// Errors of the library and their mapping to exceptions
// ------------------------------------------------------------------

/// The library's own errors.
pub enum MyError {
    InvalidInput(String),
    NotFound(String),
    ComputationFailed,
}

impl MyError {
    /// `invalid input: M`, `not found: M` or `computation failed`.
    pub fn display(&self) -> (s: String)
        ensures
            s@ == match self {
                MyError::InvalidInput(m) => "invalid input: "@ + m@,
                MyError::NotFound(m) => "not found: "@ + m@,
                MyError::ComputationFailed => "computation failed"@,
            },
    {
        let mut s = String::new();
        match self {
            MyError::InvalidInput(m) => {
                push_str(&mut s, "invalid input: ");
                push_str(&mut s, m.as_str());
            },
            MyError::NotFound(m) => {
                push_str(&mut s, "not found: ");
                push_str(&mut s, m.as_str());
            },
            MyError::ComputationFailed => {
                push_str(&mut s, "computation failed");
            },
        }
        s
    }
}

impl PyErr {
    /// Invalid input becomes `ValueError` with the same message; the rest
    /// become `RuntimeError`.
    pub fn from(e: MyError) -> (p: PyErr)
        ensures
            match e {
                MyError::InvalidInput(m) => is_err(p, "ValueError"@, m@),
                MyError::NotFound(m) => is_err(p, "RuntimeError"@, "not found: "@ + m@),
                MyError::ComputationFailed => is_err(p, "RuntimeError"@, "computation failed"@),
            },
    {
        match e {
            MyError::InvalidInput(m) => PyErr::new::<ValueError>(m.as_str()),
            MyError::NotFound(m) => {
                let mut s = String::new();
                push_str(&mut s, "not found: ");
                push_str(&mut s, m.as_str());
                PyErr::new::<RuntimeError>(s.as_str())
            },
            MyError::ComputationFailed => PyErr::new::<RuntimeError>("computation failed"),
        }
    }
}

/// A map from names to integers; each name at most once.
pub struct Dict {
    entries: Vec<(String, i64)>,
}

impl Dict {
    /// The map that the entries hold.
    pub closed spec fn view_map(&self) -> Map<Seq<char>, i64> {
        Map::new(
            |k: Seq<char>| exists|i: int| 0 <= i < self.entries@.len() && self.entries@[i].0@ == k,
            |k: Seq<char>| self.entries@[choose|i: int| 0 <= i < self.entries@.len() && self.entries@[i].0@ == k].1,
        )
    }

    pub closed spec fn wf(&self) -> bool {
        forall|i: int, j: int| 0 <= i < j < self.entries@.len() ==> self.entries@[i].0@ != self.entries@[j].0@
    }

    proof fn lemma_at(&self, i: int)
        requires
            self.wf(),
            0 <= i < self.entries@.len(),
        ensures
            self.view_map().contains_key(self.entries@[i].0@),
            self.view_map()[self.entries@[i].0@] == self.entries@[i].1,
    {
        let k = self.entries@[i].0@;
        let j = choose|j: int| 0 <= j < self.entries@.len() && self.entries@[j].0@ == k;
        if j != i {
            if j < i {
                assert(self.entries@[j].0@ != self.entries@[i].0@);
            } else {
                assert(self.entries@[i].0@ != self.entries@[j].0@);
            }
        }
    }

    pub fn new() -> (d: Dict)
        ensures
            d.wf(),
            d.view_map() == Map::<Seq<char>, i64>::empty(),
    {
        let d = Dict { entries: Vec::new() };
        assert(d.view_map() =~= Map::<Seq<char>, i64>::empty());
        d
    }

    /// Sets `key` to `value`, replacing an earlier value.
    pub fn insert(&mut self, key: String, value: i64)
        requires
            old(self).wf(),
        ensures
            final(self).wf(),
            final(self).view_map() == old(self).view_map().insert(key@, value),
    {
        let ghost kv = key@;
        let mut i: usize = 0;
        while i < self.entries.len()
            invariant
                self.wf(),
                *self == *old(self),
                i <= self.entries.len(),
                forall|k: int| 0 <= k < i ==> self.entries@[k].0@ != kv,
                kv == key@,
            decreases self.entries.len() - i,
        {
            if self.entries[i].0 == key {
                let ghost before = *self;
                self.entries.set(i, (key, value));
                proof {
                    assert forall|a: int, b: int| 0 <= a < b < self.entries@.len() implies self.entries@[a].0@ != self.entries@[b].0@ by {
                        assert(self.entries@[a].0@ == before.entries@[a].0@);
                        assert(self.entries@[b].0@ == before.entries@[b].0@);
                    }
                    assert forall|k: Seq<char>| #[trigger] self.view_map().contains_key(k) == before.view_map().insert(kv, value).contains_key(k) by {
                        if exists|j: int| 0 <= j < before.entries@.len() && before.entries@[j].0@ == k {
                            let j = choose|j: int| 0 <= j < before.entries@.len() && before.entries@[j].0@ == k;
                            assert(self.entries@[j].0@ == k);
                        }
                        if exists|j: int| 0 <= j < self.entries@.len() && self.entries@[j].0@ == k {
                            let j = choose|j: int| 0 <= j < self.entries@.len() && self.entries@[j].0@ == k;
                            assert(before.entries@[j].0@ == k);
                        }
                    }
                    assert forall|k: Seq<char>| #[trigger] self.view_map().contains_key(k) implies self.view_map()[k] == before.view_map().insert(kv, value)[k] by {
                        let j = choose|j: int| 0 <= j < self.entries@.len() && self.entries@[j].0@ == k;
                        self.lemma_at(j);
                        if j != i {
                            before.lemma_at(j);
                        }
                    }
                    assert(self.view_map() =~= before.view_map().insert(kv, value));
                }
                return;
            }
            i = i + 1;
        }
        let ghost before = *self;
        self.entries.push((key, value));
        proof {
            assert forall|a: int, b: int| 0 <= a < b < self.entries@.len() implies self.entries@[a].0@ != self.entries@[b].0@ by {
                if b < before.entries@.len() {
                    assert(before.entries@[a].0@ != before.entries@[b].0@);
                }
            }
            assert forall|k: Seq<char>| #[trigger] self.view_map().contains_key(k) == before.view_map().insert(kv, value).contains_key(k) by {
                if exists|j: int| 0 <= j < before.entries@.len() && before.entries@[j].0@ == k {
                    let j = choose|j: int| 0 <= j < before.entries@.len() && before.entries@[j].0@ == k;
                    assert(self.entries@[j].0@ == k);
                }
                if k == kv {
                    assert(self.entries@[before.entries@.len() as int].0@ == k);
                }
            }
            assert forall|k: Seq<char>| #[trigger] self.view_map().contains_key(k) implies self.view_map()[k] == before.view_map().insert(kv, value)[k] by {
                let j = choose|j: int| 0 <= j < self.entries@.len() && self.entries@[j].0@ == k;
                self.lemma_at(j);
                if j < before.entries@.len() {
                    before.lemma_at(j);
                }
            }
            assert(self.view_map() =~= before.view_map().insert(kv, value));
        }
    }

    /// The value of `key`, if present.
    pub fn get(&self, key: &str) -> (r: Option<i64>)
        requires
            self.wf(),
        ensures
            self.view_map().contains_key(key@) ==> r == Some(self.view_map()[key@]),
            !self.view_map().contains_key(key@) ==> r is None,
    {
        let k = key.to_owned();
        let mut i: usize = 0;
        while i < self.entries.len()
            invariant
                self.wf(),
                k@ == key@,
                i <= self.entries.len(),
                forall|j: int| 0 <= j < i ==> self.entries@[j].0@ != key@,
            decreases self.entries.len() - i,
        {
            if self.entries[i].0 == k {
                proof { self.lemma_at(i as int); }
                return Some(self.entries[i].1);
            }
            i = i + 1;
        }
        None
    }
}

/// Reading a key right after writing it gives the value written; other
/// keys read as before.
pub proof fn law_dict_read_after_write(m: Map<Seq<char>, i64>, key: Seq<char>, value: i64, other: Seq<char>)
    ensures
        m.insert(key, value).contains_key(key),
        m.insert(key, value)[key] == value,
        other != key ==> m.insert(key, value).contains_key(other) == m.contains_key(other),
        other != key && m.contains_key(other) ==> m.insert(key, value)[other] == m[other],
{
}

/// The value of `key` in `data`; a missing key is `RuntimeError`
/// `not found: KEY`.
pub fn py_lookup(data: &Dict, key: &str) -> (r: PyResult<i64>)
    requires
        data.wf(),
    ensures
        data.view_map().contains_key(key@) ==> (r matches Ok(v) && v == data.view_map()[key@]),
        !data.view_map().contains_key(key@) ==> (r matches Err(e) && is_err(e, "RuntimeError"@, "not found: "@ + key@)),
{
    match data.get(key) {
        Some(v) => Ok(v),
        None => Err(PyErr::from(MyError::NotFound(key.to_owned()))),
    }
}

// ------------------------------------------------------------------
// Parsing and validation
// ------------------------------------------------------------------

pub open spec fn is_digit(c: char) -> bool {
    '0' <= c && c <= '9'
}

pub open spec fn all_digits(s: Seq<char>) -> bool {
    forall|i: int| 0 <= i < s.len() ==> is_digit(#[trigger] s[i])
}

/// The number that a string of decimal digits writes.
pub open spec fn digits_value(s: Seq<char>) -> int
    decreases s.len(),
{
    if s.len() == 0 {
        0
    } else {
        digits_value(s.drop_last()) * 10 + ((s.last() as u32) - ('0' as u32))
    }
}

/// What parsing `s` as an `i64` gives: an optional `+` or `-`, then one or
/// more decimal digits, with the value in range; `None` otherwise.
pub open spec fn parse_i64_spec(s: Seq<char>) -> Option<i64> {
    let neg = s.len() > 0 && s[0] == '-';
    let body = if s.len() > 0 && (s[0] == '-' || s[0] == '+') { s.drop_first() } else { s };
    let v = if neg { -digits_value(body) } else { digits_value(body) };
    if body.len() == 0 || !all_digits(body) || v < i64::MIN || v > i64::MAX {
        None
    } else {
        Some(v as i64)
    }
}

proof fn lemma_digits_value_mono(s: Seq<char>, k: int)
    requires
        all_digits(s),
        0 <= k <= s.len(),
    ensures
        0 <= digits_value(s.take(k)) <= digits_value(s),
    decreases s.len(),
{
    if k < s.len() {
        assert(all_digits(s.drop_last())) by {
            assert forall|i: int| 0 <= i < s.drop_last().len() implies is_digit(#[trigger] s.drop_last()[i]) by {
                assert(s.drop_last()[i] == s[i]);
            }
        }
        assert(s.drop_last().take(k) =~= s.take(k));
        lemma_digits_value_mono(s.drop_last(), k);
        lemma_digits_value_mono(s.drop_last(), s.len() - 1);
        assert(s.drop_last().take(s.len() - 1) =~= s.drop_last());
        assert(is_digit(s[s.len() - 1]));
    } else {
        assert(s.take(k) =~= s);
        if s.len() > 0 {
            assert(all_digits(s.drop_last())) by {
                assert forall|i: int| 0 <= i < s.drop_last().len() implies is_digit(#[trigger] s.drop_last()[i]) by {
                    assert(s.drop_last()[i] == s[i]);
                }
            }
            lemma_digits_value_mono(s.drop_last(), s.len() - 1);
            assert(s.drop_last().take(s.len() - 1) =~= s.drop_last());
            assert(is_digit(s[s.len() - 1]));
        }
    }
}

/// Parses `s` as `str::parse::<i64>` does.
pub fn parse_i64(s: &str) -> (r: Option<i64>)
    ensures
        r == parse_i64_spec(s@),
{
    let cs = chars_of(s);
    let n = cs.len();
    let neg = n > 0 && cs[0] == '-';
    let start: usize = if n > 0 && (cs[0] == '-' || cs[0] == '+') { 1 } else { 0 };
    let ghost body = if s@.len() > 0 && (s@[0] == '-' || s@[0] == '+') { s@.drop_first() } else { s@ };
    assert(body =~= cs@.subrange(start as int, n as int));
    if start == n {
        return None;
    }
    let mut v: u64 = 0;
    let mut i: usize = start;
    assert(body.take(0) =~= Seq::<char>::empty());
    while i < n
        invariant
            cs@ == s@,
            n == cs.len(),
            start <= i <= n,
            body =~= cs@.subrange(start as int, n as int),
            body == (if s@.len() > 0 && (s@[0] == '-' || s@[0] == '+') { s@.drop_first() } else { s@ }),
            neg == (s@.len() > 0 && s@[0] == '-'),
            forall|k: int| start <= k < i ==> is_digit(#[trigger] cs@[k]),
            v == digits_value(body.take(i - start)),
            v <= 9223372036854775808,
        decreases n - i,
    {
        let c = cs[i];
        if !('0' <= c && c <= '9') {
            assert(body[i - start] == c);
            assert(!is_digit(body[i - start]));
            assert(!all_digits(body));
            return None;
        }
        let d = (c as u32 - 48) as u64;
        assert(body.take(i - start + 1).drop_last() =~= body.take(i - start));
        assert(body.take(i - start + 1).last() == c);
        if v > 922337203685477580 || (v == 922337203685477580 && d > 8) {
            // the digits so far already exceed every i64 magnitude
            proof {
                assert(digits_value(body.take(i - start + 1)) == v * 10 + d);
                assert(digits_value(body.take(i - start + 1)) > 9223372036854775808);
                if all_digits(body) {
                    lemma_digits_value_mono(body, i - start + 1);
                    assert(digits_value(body) > 9223372036854775808);
                }
            }
            return None;
        }
        v = v * 10 + d;
        i = i + 1;
    }
    assert(body.take(n - start) =~= body);
    assert(all_digits(body)) by {
        assert forall|k: int| 0 <= k < body.len() implies is_digit(#[trigger] body[k]) by {
            assert(body[k] == cs@[start + k]);
        }
    }
    if neg {
        if v == 9223372036854775808 {
            Some(i64::MIN)
        } else {
            Some(-(v as i64))
        }
    } else {
        if v > 9223372036854775807 {
            None
        } else {
            Some(v as i64)
        }
    }
}

/// What `py_parse_and_validate` gives for an input.
pub open spec fn validate_spec(input: Seq<char>, r: PyResult<i64>) -> bool {
    match parse_i64_spec(input) {
        None => r matches Err(e) && is_err(e, "ValueError"@,
            "cannot parse '"@ + input + "' as integer"@),
        Some(v) => if v < 0 {
            r matches Err(e) && is_err(e, "ValueError"@, "value must be non-negative"@)
        } else if v > 1000 {
            r matches Err(e) && is_err(e, "OverflowError"@,
                "value "@ + signed_decimal(v as int) + " exceeds maximum of 1000"@)
        } else {
            r == Ok::<i64, PyErr>(v)
        },
    }
}

/// Parses an integer between 0 and 1000.
pub fn py_parse_and_validate(input: &str) -> (r: PyResult<i64>)
    ensures
        validate_spec(input@, r),
{
    let value = match parse_i64(input) {
        Some(v) => v,
        None => {
            let mut m = String::new();
            push_str(&mut m, "cannot parse '");
            push_str(&mut m, input);
            push_str(&mut m, "' as integer");
            return Err(PyErr::new::<ValueError>(m.as_str()));
        },
    };
    if value < 0 {
        return Err(PyErr::new::<ValueError>("value must be non-negative"));
    }
    if value > 1000 {
        let mut m = String::new();
        push_str(&mut m, "value ");
        push_signed_decimal(&mut m, value);
        push_str(&mut m, " exceeds maximum of 1000");
        return Err(PyErr::new::<OverflowError>(m.as_str()));
    }
    Ok(value)
}

// ------------------------------------------------------------------
// Dynamically typed values and conversions
// ------------------------------------------------------------------

/// A Python value. A float is held as the bits of its IEEE-754 encoding.
pub enum PyAny {
    Int(i64),
    Float(u64),
    Str(String),
    Bool(bool),
    List(Vec<PyAny>),
    NoneValue,
}

/// The Python name of a value's type.
pub open spec fn type_name_spec(obj: PyAny) -> Seq<char> {
    match obj {
        PyAny::Int(_) => "int"@,
        PyAny::Float(_) => "float"@,
        PyAny::Str(_) => "str"@,
        PyAny::Bool(_) => "bool"@,
        PyAny::List(_) => "list"@,
        PyAny::NoneValue => "NoneType"@,
    }
}

pub fn py_type_name(obj: &PyAny) -> (s: &'static str)
    ensures
        s@ == type_name_spec(*obj),
{
    match obj {
        PyAny::Int(_) => "int",
        PyAny::Float(_) => "float",
        PyAny::Str(_) => "str",
        PyAny::Bool(_) => "bool",
        PyAny::List(_) => "list",
        PyAny::NoneValue => "NoneType",
    }
}

/// `TypeError: cannot convert TYPE to TARGET`.
pub open spec fn conversion_error(e: PyErr, obj: PyAny, target: Seq<char>) -> bool {
    is_err(e, "TypeError"@, "cannot convert "@ + type_name_spec(obj) + " to "@ + target)
}

fn conversion_err(obj: &PyAny, target: &str) -> (e: PyErr)
    ensures
        conversion_error(e, *obj, target@),
{
    let mut m = String::new();
    push_str(&mut m, "cannot convert ");
    push_str(&mut m, py_type_name(obj));
    push_str(&mut m, " to ");
    push_str(&mut m, target);
    PyErr::new::<TypeError>(m.as_str())
}

/// Conversion from a Python value.
pub trait FromPyObject: Sized {
    /// `r` is what converting `obj` gives.
    spec fn extracted(obj: PyAny, r: PyResult<Self>) -> bool;

    fn extract(obj: &PyAny) -> (r: PyResult<Self>)
        ensures
            Self::extracted(*obj, r),
    ;
}

/// An `int`, or a `bool` as 0 or 1.
pub open spec fn int_of(obj: PyAny) -> Option<i64> {
    match obj {
        PyAny::Int(v) => Some(v),
        PyAny::Bool(b) => Some(if b { 1i64 } else { 0i64 }),
        _ => None,
    }
}

impl FromPyObject for i64 {
    open spec fn extracted(obj: PyAny, r: PyResult<i64>) -> bool {
        match int_of(obj) {
            Some(v) => r == Ok::<i64, PyErr>(v),
            None => r matches Err(e) && conversion_error(e, obj, "int"@),
        }
    }

    fn extract(obj: &PyAny) -> (r: PyResult<i64>) {
        match obj {
            PyAny::Int(v) => Ok(*v),
            PyAny::Bool(v) => Ok(if *v { 1 } else { 0 }),
            other => Err(conversion_err(other, "int")),
        }
    }
}

impl FromPyObject for bool {
    open spec fn extracted(obj: PyAny, r: PyResult<bool>) -> bool {
        match obj {
            PyAny::Bool(v) => r == Ok::<bool, PyErr>(v),
            PyAny::Int(v) => r == Ok::<bool, PyErr>(v != 0),
            _ => r matches Err(e) && conversion_error(e, obj, "bool"@),
        }
    }

    fn extract(obj: &PyAny) -> (r: PyResult<bool>) {
        match obj {
            PyAny::Bool(v) => Ok(*v),
            PyAny::Int(v) => Ok(*v != 0),
            other => Err(conversion_err(other, "bool")),
        }
    }
}

impl FromPyObject for String {
    open spec fn extracted(obj: PyAny, r: PyResult<String>) -> bool {
        match obj {
            PyAny::Str(v) => r matches Ok(s) && s@ == v@,
            _ => r matches Err(e) && conversion_error(e, obj, "str"@),
        }
    }

    fn extract(obj: &PyAny) -> (r: PyResult<String>) {
        match obj {
            PyAny::Str(v) => Ok(v.clone()),
            other => Err(conversion_err(other, "str")),
        }
    }
}

impl FromPyObject for Vec<i64> {
    open spec fn extracted(obj: PyAny, r: PyResult<Vec<i64>>) -> bool {
        match obj {
            PyAny::List(items) => if forall|i: int| 0 <= i < items@.len() ==> #[trigger] int_of(items@[i]) is Some {
                r matches Ok(v) && v@.len() == items@.len()
                    && forall|i: int| 0 <= i < items@.len() ==> Some(#[trigger] v@[i]) == int_of(items@[i])
            } else {
                let k = choose|k: int| 0 <= k < items@.len() && int_of(items@[k]) is None
                    && forall|j: int| 0 <= j < k ==> #[trigger] int_of(items@[j]) is Some;
                r matches Err(e) && conversion_error(e, items@[k], "int"@)
            },
            _ => r matches Err(e) && conversion_error(e, obj, "list[int]"@),
        }
    }

    #[verifier::loop_isolation(false)]
    fn extract(obj: &PyAny) -> (r: PyResult<Vec<i64>>) {
        match obj {
            PyAny::List(items) => {
                let mut out: Vec<i64> = Vec::new();
                let mut i: usize = 0;
                while i < items.len()
                    invariant
                        i <= items.len(),
                        out@.len() == i,
                        forall|k: int| 0 <= k < i ==> Some(#[trigger] out@[k]) == int_of(items@[k]),
                    decreases items.len() - i,
                {
                    match i64::extract(&items[i]) {
                        Ok(v) => out.push(v),
                        Err(e) => {
                            proof {
                                assert(int_of(items@[i as int]) is None);
                                assert forall|j: int| 0 <= j < i implies #[trigger] int_of(items@[j]) is Some by {
                                    assert(Some(out@[j]) == int_of(items@[j]));
                                }
                                assert(exists|k: int| 0 <= k < items@.len() && int_of(items@[k]) is None
                                    && forall|j: int| 0 <= j < k ==> #[trigger] int_of(items@[j]) is Some);
                                let k = choose|k: int| 0 <= k < items@.len() && int_of(items@[k]) is None
                                    && forall|j: int| 0 <= j < k ==> #[trigger] int_of(items@[j]) is Some;
                                if k < i {
                                    assert(int_of(items@[k]) == Some(out@[k]));
                                } else if k > i {
                                    assert(int_of(items@[i as int]) is Some);
                                }
                                assert(k == i);
                                assert(conversion_error(e, items@[k], "int"@));
                                assert(!(forall|j: int| 0 <= j < items@.len() ==> #[trigger] int_of(items@[j]) is Some));
                            }
                            return Err(e);
                        },
                    }
                    i = i + 1;
                }
                assert forall|j: int| 0 <= j < items@.len() implies #[trigger] int_of(items@[j]) is Some by {
                    assert(Some(out@[j]) == int_of(items@[j]));
                }
                Ok(out)
            },
            other => Err(conversion_err(other, "list[int]")),
        }
    }
}

/// Conversion to a Python value.
pub trait IntoPyObject: Sized {
    /// `obj` is what converting `self` gives.
    spec fn becomes(self, obj: PyAny) -> bool;

    fn into_py(self) -> (obj: PyAny)
        ensures
            self.becomes(obj),
    ;
}

impl IntoPyObject for i64 {
    open spec fn becomes(self, obj: PyAny) -> bool {
        obj == PyAny::Int(self)
    }

    fn into_py(self) -> (obj: PyAny) {
        PyAny::Int(self)
    }
}

impl IntoPyObject for String {
    open spec fn becomes(self, obj: PyAny) -> bool {
        obj matches PyAny::Str(s) && s@ == self@
    }

    fn into_py(self) -> (obj: PyAny) {
        PyAny::Str(self)
    }
}

impl IntoPyObject for bool {
    open spec fn becomes(self, obj: PyAny) -> bool {
        obj == PyAny::Bool(self)
    }

    fn into_py(self) -> (obj: PyAny) {
        PyAny::Bool(self)
    }
}

impl IntoPyObject for Vec<i64> {
    open spec fn becomes(self, obj: PyAny) -> bool {
        obj matches PyAny::List(items) && items@.len() == self@.len()
            && forall|i: int| 0 <= i < self@.len() ==> #[trigger] items@[i] == PyAny::Int(self@[i])
    }

    fn into_py(self) -> (obj: PyAny) {
        let mut items: Vec<PyAny> = Vec::new();
        let mut i: usize = 0;
        while i < self.len()
            invariant
                i <= self.len(),
                items@.len() == i,
                forall|k: int| 0 <= k < i ==> #[trigger] items@[k] == PyAny::Int(self@[k]),
            decreases self.len() - i,
        {
            items.push(PyAny::Int(self[i]));
            i = i + 1;
        }
        PyAny::List(items)
    }
}

impl<T: IntoPyObject> IntoPyObject for Option<T> {
    open spec fn becomes(self, obj: PyAny) -> bool {
        match self {
            Some(v) => v.becomes(obj),
            None => obj == PyAny::NoneValue,
        }
    }

    fn into_py(self) -> (obj: PyAny) {
        match self {
            Some(v) => v.into_py(),
            None => PyAny::NoneValue,
        }
    }
}

/// Converting a Rust value to Python and back gives the value again: an
/// `int`, a `bool`, a `str` (by its characters) and a `list[int]`.
pub proof fn law_conversion_round_trips(i: i64, b: bool, s: String, v: Vec<i64>, oi: PyAny, ob: PyAny, os: PyAny, ov: PyAny, ri: PyResult<i64>, rb: PyResult<bool>, rs: PyResult<String>, rv: PyResult<Vec<i64>>)
    requires
        i.becomes(oi),
        b.becomes(ob),
        s.becomes(os),
        v.becomes(ov),
        i64::extracted(oi, ri),
        bool::extracted(ob, rb),
        String::extracted(os, rs),
        <Vec<i64> as FromPyObject>::extracted(ov, rv),
    ensures
        ri == Ok::<i64, PyErr>(i),
        rb == Ok::<bool, PyErr>(b),
        rs matches Ok(t) && t@ == s@,
        rv matches Ok(w) && w@ == v@,
{
    if let PyAny::List(items) = ov {
        assert forall|k: int| 0 <= k < items@.len() implies #[trigger] int_of(items@[k]) is Some by {
            assert(items@[k] == PyAny::Int(v@[k]));
        }
        if let Ok(w) = rv {
            assert forall|k: int| 0 <= k < w@.len() implies w@[k] == v@[k] by {
                assert(Some(w@[k]) == int_of(items@[k]));
                assert(items@[k] == PyAny::Int(v@[k]));
            }
            assert(w@ =~= v@);
        }
    }
}

/// Truthiness: an `int` converts to `bool` as "is not zero", and whatever
/// converts to an integer converts to `bool` as that integer being nonzero
/// (so `True` and `False` are 1 and 0 both ways); what is no integer
/// converts to neither.
pub proof fn law_bool_is_nonzero(v: i64, rv: PyResult<bool>, obj: PyAny, ri: PyResult<i64>, rb: PyResult<bool>)
    ensures
        bool::extracted(PyAny::Int(v), rv) ==> rv == Ok::<bool, PyErr>(v != 0),
        i64::extracted(obj, ri) && bool::extracted(obj, rb) ==> match ri {
            Ok(n) => rb == Ok::<bool, PyErr>(n != 0),
            Err(_) => rb is Err,
        },
{
}

/// `RuntimeError: module 'M' has no function 'F'`, for a call of a function
/// that a module does not define.
pub fn no_function_error(module: &str, name: &str) -> (e: PyErr)
    ensures
        is_err(e, "RuntimeError"@, "module '"@ + module@ + "' has no function '"@ + name@ + "'"@),
{
    let mut m = String::new();
    push_str(&mut m, "module '");
    push_str(&mut m, module);
    push_str(&mut m, "' has no function '");
    push_str(&mut m, name);
    push_str(&mut m, "'");
    PyErr::new::<RuntimeError>(m.as_str())
}

/// `1² + 2² + … + n²`, zero when `n` is below 1.
pub open spec fn sum_squares(n: int) -> int
    decreases n,
{
    if n <= 0 {
        0
    } else {
        sum_squares(n - 1) + n * n
    }
}

proof fn lemma_sum_squares_nonneg(n: int)
    ensures
        sum_squares(n) >= 0,
    decreases n,
{
    if n > 0 {
        lemma_sum_squares_nonneg(n - 1);
        assert(n * n >= 0) by (nonlinear_arith);
    }
}

proof fn lemma_sum_squares_mono(a: int, b: int)
    requires
        a <= b,
    ensures
        sum_squares(a) <= sum_squares(b),
    decreases b - a,
{
    if a < b {
        lemma_sum_squares_mono(a, b - 1);
        if b > 0 {
            assert(b * b >= 0) by (nonlinear_arith);
        }
    }
}

/// The addition that the library exports with the C calling convention
/// for ctypes and cffi callers.
pub fn tut_ffi_add(a: i32, b: i32) -> (r: i32)
    requires
        i32::MIN <= a + b <= i32::MAX,
    ensures
        r == a + b,
{
    a + b
}

/// The sum of the squares of `1..=n`, as the benchmark computes it.
pub fn sum_of_squares(n: i64) -> (r: i64)
    requires
        sum_squares(n as int) <= i64::MAX,
    ensures
        r == sum_squares(n as int),
{
    let mut total: i64 = 0;
    let mut x: i64 = 1;
    if n < 1 {
        return 0;
    }
    proof {
        lemma_sum_squares_nonneg(n - 1);
        assert(n * n <= i64::MAX);
        assert(n < i64::MAX) by (nonlinear_arith)
            requires n >= 1, n * n <= i64::MAX;
    }
    while x <= n
        invariant
            1 <= x <= n + 1,
            n < i64::MAX,
            sum_squares(n as int) <= i64::MAX,
            total == sum_squares(x - 1),
        decreases n + 1 - x,
    {
        proof {
            lemma_sum_squares_mono(x as int, n as int);
            lemma_sum_squares_nonneg(x - 1);
            assert(x * x >= 0) by (nonlinear_arith);
        }
        total = total + x * x;
        x = x + 1;
    }
    total
}

/// The sum of the squares of `1..=n`, `None` exactly when it exceeds
/// `i64::MAX`.
pub fn try_sum_of_squares(n: i64) -> (r: Option<i64>)
    ensures
        r == if sum_squares(n as int) <= i64::MAX {
            Some(sum_squares(n as int) as i64)
        } else {
            None::<i64>
        },
{
    if n < 1 {
        return Some(0);
    }
    let mut total: i64 = 0;
    let mut x: i64 = 1;
    while x <= n
        invariant
            1 <= x,
            x <= n + 1,
            total == sum_squares(x - 1),
        decreases n + 1 - x,
    {
        proof {
            lemma_sum_squares_mono(x as int, n as int);
            lemma_sum_squares_nonneg(x - 1);
            assert(x * x >= 0) by (nonlinear_arith);
        }
        let sq = match x.checked_mul(x) {
            Some(v) => v,
            None => return None,
        };
        total = match total.checked_add(sq) {
            Some(v) => v,
            None => return None,
        };
        assert(x < i64::MAX) by (nonlinear_arith)
            requires x * x <= i64::MAX, x >= 1;
        x = x + 1;
    }
    Some(total)
}

/// A module of named functions; `H` is how a function is held.
pub struct SimModule<H> {
    name: String,
    functions: Vec<(String, H)>,
}

impl<H> SimModule<H> {
    pub closed spec fn name_view(&self) -> Seq<char> {
        self.name@
    }

    /// The names of the functions, in the order they were added.
    pub closed spec fn names_view(&self) -> Seq<Seq<char>> {
        self.functions@.map_values(|f: (String, H)| f.0@)
    }

    /// The functions, in the order they were added.
    pub closed spec fn handlers_view(&self) -> Seq<H> {
        self.functions@.map_values(|f: (String, H)| f.1)
    }

    /// An empty module called `name`.
    pub fn new(name: &str) -> (m: Self)
        ensures
            m.name_view() == name@,
            m.names_view() == Seq::<Seq<char>>::empty(),
            m.handlers_view() == Seq::<H>::empty(),
    {
        let m = SimModule { name: name.to_owned(), functions: Vec::new() };
        assert(m.names_view() =~= Seq::<Seq<char>>::empty());
        assert(m.handlers_view() =~= Seq::<H>::empty());
        m
    }

    /// Adds `func` under `name`.
    pub fn add_function(&mut self, name: &str, func: H)
        ensures
            final(self).name_view() == old(self).name_view(),
            final(self).names_view() == old(self).names_view().push(name@),
            final(self).handlers_view() == old(self).handlers_view().push(func),
    {
        let ghost before = self.functions@;
        self.functions.push((name.to_owned(), func));
        assert(self.names_view() =~= before.map_values(|f: (String, H)| f.0@).push(name@));
        assert(self.handlers_view() =~= before.map_values(|f: (String, H)| f.1).push(func));
    }

    /// The position of the first function added under `name`.
    pub open spec fn first_index(&self, name: Seq<char>) -> Option<int> {
        if self.names_view().contains(name) {
            Some(choose|i: int| 0 <= i < self.names_view().len() && self.names_view()[i] == name
                && forall|j: int| 0 <= j < i ==> self.names_view()[j] != name)
        } else {
            None
        }
    }

    /// The message for a function that the module does not have.
    pub open spec fn missing_message(&self, name: Seq<char>) -> Seq<char> {
        "module '"@ + self.name_view() + "' has no function '"@ + name + "'"@
    }

    fn find(&self, name: &str) -> (r: Option<usize>)
        ensures
            match r {
                Some(i) => self.first_index(name@) == Some(i as int) && i < self.handlers_view().len(),
                None => self.first_index(name@) is None,
            },
    {
        let wanted = name.to_owned();
        let mut i: usize = 0;
        while i < self.functions.len()
            invariant
                wanted@ == name@,
                i <= self.functions.len(),
                forall|j: int| 0 <= j < i ==> #[trigger] self.names_view()[j] != name@,
            decreases self.functions.len() - i,
        {
            assert(self.names_view()[i as int] == self.functions@[i as int].0@);
            if self.functions[i].0 == wanted {
                proof {
                    let k = choose|k: int| 0 <= k < self.names_view().len() && self.names_view()[k] == name@
                        && forall|j: int| 0 <= j < k ==> self.names_view()[j] != name@;
                    if k < i {
                        assert(self.names_view()[k] != name@);
                    } else if k > i {
                        assert(self.names_view()[i as int] != name@);
                    }
                }
                return Some(i);
            }
            i = i + 1;
        }
        None
    }

    /// The first function added under `name`, or `RuntimeError: module 'M'
    /// has no function 'F'` when there is none.
    pub fn lookup(&self, name: &str) -> (r: PyResult<&H>)
        ensures
            match self.first_index(name@) {
                Some(i) => r matches Ok(h) && *h == self.handlers_view()[i],
                None => r matches Err(e) && is_err(e, "RuntimeError"@, self.missing_message(name@)),
            },
    {
        match self.find(name) {
            Some(i) => {
                assert(self.handlers_view()[i as int] == self.functions@[i as int].1);
                Ok(&self.functions[i].1)
            },
            None => Err(no_function_error(self.name.as_str(), name)),
        }
    }
}

impl<H: Fn(Vec<PyAny>) -> PyResult<PyAny>> SimModule<H> {
    /// Calls the first function added under `name` with `args`, or answers
    /// `RuntimeError: module 'M' has no function 'F'` when there is none.
    pub fn call(&self, name: &str, args: Vec<PyAny>) -> (r: PyResult<PyAny>)
        requires
            self.first_index(name@) matches Some(i) ==> self.handlers_view()[i].requires((args,)),
        ensures
            match self.first_index(name@) {
                Some(i) => self.handlers_view()[i].ensures((args,), r),
                None => r matches Err(e) && is_err(e, "RuntimeError"@, self.missing_message(name@)),
            },
    {
        match self.find(name) {
            Some(i) => {
                assert(self.handlers_view()[i as int] == self.functions@[i as int].1);
                let f = &self.functions[i].1;
                f(args)
            },
            None => Err(no_function_error(self.name.as_str(), name)),
        }
    }
}

proof fn lemma_first_match(s: Seq<Seq<char>>, name: Seq<char>, k: int)
    requires
        0 <= k < s.len(),
        s[k] == name,
    ensures
        exists|i: int| 0 <= i <= k && s[i] == name && forall|j: int| 0 <= j < i ==> s[j] != name,
    decreases k,
{
    if exists|j: int| 0 <= j < k && s[j] == name {
        let j = choose|j: int| 0 <= j < k && s[j] == name;
        lemma_first_match(s, name, j);
    } else {
        assert(forall|j: int| 0 <= j < k ==> s[j] != name);
    }
}

/// A call goes to the function added first under its name: the chosen
/// entry has that name and no earlier entry has it; a module with no
/// entry under the name chooses none.
pub proof fn law_first_definition_wins<H>(m: SimModule<H>, name: Seq<char>)
    ensures
        m.first_index(name) is None <==> forall|j: int| 0 <= j < m.names_view().len() ==> m.names_view()[j] != name,
        m.first_index(name) matches Some(i) ==> 0 <= i < m.names_view().len() && m.names_view()[i] == name
            && forall|j: int| 0 <= j < i ==> m.names_view()[j] != name,
{
    let s = m.names_view();
    if s.contains(name) {
        let k = choose|k: int| 0 <= k < s.len() && s[k] == name;
        lemma_first_match(s, name, k);
    } else {
        assert forall|j: int| 0 <= j < s.len() implies s[j] != name by {
            if s[j] == name {
                assert(s.contains(name));
            }
        }
    }
}

/// What `sum_as_string` answers: `TypeError: expected 2 arguments` unless
/// there are two, the conversion error of the first argument that is not
/// an integer, else the sum as a string.
pub open spec fn sum_as_string_spec(args: Seq<PyAny>, r: PyResult<PyAny>) -> bool {
    if args.len() != 2 {
        r matches Err(e) && is_err(e, "TypeError"@, "expected 2 arguments"@)
    } else if int_of(args[0]) is None {
        r matches Err(e) && conversion_error(e, args[0], "int"@)
    } else if int_of(args[1]) is None {
        r matches Err(e) && conversion_error(e, args[1], "int"@)
    } else {
        r matches Ok(PyAny::Str(s)) && s@ == signed_decimal(int_of(args[0])->Some_0 + int_of(args[1])->Some_0)
    }
}

/// The module function that adds two integers and answers the sum as a
/// string.
pub fn sum_as_string(args: Vec<PyAny>) -> (r: PyResult<PyAny>)
    requires
        args@.len() == 2 && int_of(args@[0]) is Some && int_of(args@[1]) is Some ==> i64::MIN <= int_of(args@[0])->Some_0
            + int_of(args@[1])->Some_0 <= i64::MAX,
    ensures
        sum_as_string_spec(args@, r),
{
    if args.len() != 2 {
        return Err(PyErr::new::<TypeError>("expected 2 arguments"));
    }
    let a = match i64::extract(&args[0]) {
        Ok(v) => v,
        Err(e) => return Err(e),
    };
    let b = match i64::extract(&args[1]) {
        Ok(v) => v,
        Err(e) => return Err(e),
    };
    let mut s = String::new();
    push_signed_decimal(&mut s, a + b);
    Ok(PyAny::Str(s))
}

/// The values that the bridge demonstration computes, for the caller to
/// print.
pub struct PyDemo {
    /// `int`, `str` and `bool` extracted from matching values.
    pub int_from_int: PyResult<i64>,
    pub str_from_str: PyResult<String>,
    pub bool_from_bool: PyResult<bool>,
    /// A `bool` read as an `int`.
    pub int_from_bool: PyResult<i64>,
    /// Mismatched types.
    pub int_from_str: PyResult<i64>,
    pub str_from_int: PyResult<String>,
    /// Rust values turned into Python values.
    pub py_int: PyAny,
    pub py_str: PyAny,
    pub py_list: PyAny,
    pub py_some: PyAny,
    pub py_none: PyAny,
    /// Lookups of a present and a missing key.
    pub lookup_port: PyResult<i64>,
    pub lookup_missing: PyResult<i64>,
    /// Validation of `42`, `abc`, `-5` and `9999`.
    pub parsed: Vec<PyResult<i64>>,
    /// What a panic inside Rust code becomes.
    pub panic_error: PyErr,
}

/// Computes the conversions, lookups and validations that the bridge
/// demonstration shows.
pub fn run() -> (d: PyDemo)
    ensures
        i64::extracted(PyAny::Int(42), d.int_from_int),
        d.str_from_str matches Ok(s) && s@ == "hello"@,
        bool::extracted(PyAny::Bool(true), d.bool_from_bool),
        i64::extracted(PyAny::Bool(true), d.int_from_bool),
        d.int_from_str matches Err(e) && is_err(e, "TypeError"@, "cannot convert "@ + "str"@ + " to "@ + "int"@),
        d.str_from_int matches Err(e) && conversion_error(e, PyAny::Int(42), "str"@),
        42i64.becomes(d.py_int),
        d.py_str matches PyAny::Str(s) && s@ == "hello"@,
        d.py_list matches PyAny::List(items) && items@.len() == 3 && items@[0] == PyAny::Int(1)
            && items@[1] == PyAny::Int(2) && items@[2] == PyAny::Int(3),
        d.py_some == PyAny::Int(42),
        d.py_none == PyAny::NoneValue,
        d.lookup_port == Ok::<i64, PyErr>(8080),
        d.lookup_missing matches Err(e) && is_err(e, "RuntimeError"@, "not found: "@ + "missing"@),
        d.parsed@.len() == 4,
        validate_spec("42"@, d.parsed@[0]),
        validate_spec("abc"@, d.parsed@[1]),
        validate_spec("-5"@, d.parsed@[2]),
        validate_spec("9999"@, d.parsed@[3]),
        is_err(d.panic_error, "PanicException"@, "a Rust panic occurred"@),
{
    let int_from_int = i64::extract(&PyAny::Int(42));
    let hello = PyAny::Str("hello".to_owned());
    let str_from_str = String::extract(&hello);
    let bool_from_bool = bool::extract(&PyAny::Bool(true));
    let int_from_bool = i64::extract(&PyAny::Bool(true));
    let nope = PyAny::Str("nope".to_owned());
    let int_from_str = i64::extract(&nope);
    let str_from_int = String::extract(&PyAny::Int(42));
    let py_int = 42i64.into_py();
    let py_str = "hello".to_owned().into_py();
    let mut v: Vec<i64> = Vec::new();
    v.push(1);
    v.push(2);
    v.push(3);
    let py_list = v.into_py();
    let py_some = Some(42i64).into_py();
    let none: Option<i64> = None;
    let py_none = none.into_py();
    let mut data = Dict::new();
    data.insert("port".to_owned(), 8080);
    data.insert("timeout".to_owned(), 30);
    let lookup_port = py_lookup(&data, "port");
    let lookup_missing = py_lookup(&data, "missing");
    proof {
        reveal_strlit("port");
        reveal_strlit("timeout");
        reveal_strlit("missing");
        assert("port"@.len() == 4 && "timeout"@.len() == 7 && "missing"@.len() == 7);
        assert("missing"@[0] != "timeout"@[0]);
        assert("port"@ != "timeout"@);
        assert("missing"@ != "timeout"@ && "missing"@ != "port"@);
    }
    let mut parsed: Vec<PyResult<i64>> = Vec::new();
    parsed.push(py_parse_and_validate("42"));
    parsed.push(py_parse_and_validate("abc"));
    parsed.push(py_parse_and_validate("-5"));
    parsed.push(py_parse_and_validate("9999"));
    let panic_error = PyErr::new::<PanicException>("a Rust panic occurred");
    PyDemo {
        int_from_int,
        str_from_str,
        bool_from_bool,
        int_from_bool,
        int_from_str,
        str_from_int,
        py_int,
        py_str,
        py_list,
        py_some,
        py_none,
        lookup_port,
        lookup_missing,
        parsed,
        panic_error,
    }
}

} // verus!
