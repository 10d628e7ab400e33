use advanced_rust::python_sim::{sum_as_string, sum_of_squares, try_sum_of_squares, tut_ffi_add, SimModule};
use advanced_rust::python_sim::{
    no_function_error, parse_i64, py_lookup, py_parse_and_validate, py_type_name, run, Dict,
    ExceptionType, FromPyObject, IntoPyObject, MyError, OverflowError, PanicException, PyAny,
    PyErr, Python, RuntimeError, TypeError, ValueError, ZeroDivisionError,
};

fn err_text<T>(r: Result<T, PyErr>) -> String {
    match r {
        Ok(_) => panic!("expected an error"),
        Err(e) => e.display(),
    }
}

#[test]
fn exception_names() {
    assert_eq!(ValueError::NAME, "ValueError");
    assert_eq!(TypeError::NAME, "TypeError");
    assert_eq!(RuntimeError::NAME, "RuntimeError");
    assert_eq!(ZeroDivisionError::NAME, "ZeroDivisionError");
    assert_eq!(OverflowError::NAME, "OverflowError");
    assert_eq!(PanicException::NAME, "PanicException");
    assert_eq!(ValueError::name(), ValueError::NAME);
    assert_eq!(TypeError::name(), TypeError::NAME);
    assert_eq!(RuntimeError::name(), RuntimeError::NAME);
    assert_eq!(ZeroDivisionError::name(), ZeroDivisionError::NAME);
    assert_eq!(OverflowError::name(), OverflowError::NAME);
    assert_eq!(PanicException::name(), PanicException::NAME);
    assert_eq!(PyErr::new::<OverflowError>("m").exception_type, "OverflowError");
}

#[test]
fn py_err_new_and_display() {
    let e = PyErr::new::<ZeroDivisionError>("division by zero");
    assert_eq!(e.exception_type, "ZeroDivisionError");
    assert_eq!(e.message, "division by zero");
    assert_eq!(e.display(), "ZeroDivisionError: division by zero");
    let p = PyErr::new::<PanicException>("a Rust panic occurred");
    assert_eq!(p.display(), "PanicException: a Rust panic occurred");
}

#[test]
fn my_error_maps_to_exceptions() {
    assert_eq!(
        PyErr::from(MyError::InvalidInput("bad".to_string())).display(),
        "ValueError: bad"
    );
    assert_eq!(
        PyErr::from(MyError::NotFound("k".to_string())).display(),
        "RuntimeError: not found: k"
    );
    assert_eq!(
        PyErr::from(MyError::ComputationFailed).display(),
        "RuntimeError: computation failed"
    );
    assert_eq!(MyError::InvalidInput("x".to_string()).display(), "invalid input: x");
    assert_eq!(MyError::NotFound("y".to_string()).display(), "not found: y");
    assert_eq!(MyError::ComputationFailed.display(), "computation failed");
}

#[test]
fn gil_helpers_return_the_closure_result() {
    let r = Python::with_gil(|py| py.allow_threads(|| 6 * 7));
    assert_eq!(r, 42);
    let s = Python::with_gil(|_py| "held".to_string());
    assert_eq!(s, "held");
}

#[test]
fn dict_insert_get_and_lookup() {
    let mut data = Dict::new();
    data.insert("port".to_string(), 8080);
    data.insert("timeout".to_string(), 30);
    assert_eq!(data.get("port"), Some(8080));
    assert_eq!(data.get("timeout"), Some(30));
    assert_eq!(data.get("missing"), None);
    data.insert("port".to_string(), 9090);
    assert_eq!(data.get("port"), Some(9090));
    assert_eq!(py_lookup(&data, "timeout").ok(), Some(30));
    assert_eq!(err_text(py_lookup(&data, "missing")), "RuntimeError: not found: missing");
}

#[test]
fn parse_i64_follows_str_parse() {
    for s in ["0", "42", "-5", "+5", "-0", "007", "9223372036854775807", "-9223372036854775808"] {
        assert_eq!(parse_i64(s), s.parse::<i64>().ok(), "input {s}");
    }
    for s in ["", "+", "-", "abc", "1 ", " 1", "9223372036854775808", "-9223372036854775809", "1_0", "--1", "٣"] {
        assert_eq!(parse_i64(s), None, "input {s}");
        assert!(s.parse::<i64>().is_err());
    }
}

#[test]
fn parse_and_validate_cases() {
    assert_eq!(py_parse_and_validate("42").ok(), Some(42));
    assert_eq!(py_parse_and_validate("0").ok(), Some(0));
    assert_eq!(py_parse_and_validate("1000").ok(), Some(1000));
    assert_eq!(
        err_text(py_parse_and_validate("abc")),
        "ValueError: cannot parse 'abc' as integer"
    );
    assert_eq!(
        err_text(py_parse_and_validate("-5")),
        "ValueError: value must be non-negative"
    );
    assert_eq!(
        err_text(py_parse_and_validate("9999")),
        "OverflowError: value 9999 exceeds maximum of 1000"
    );
    assert_eq!(
        err_text(py_parse_and_validate("1001")),
        "OverflowError: value 1001 exceeds maximum of 1000"
    );
    assert_eq!(
        err_text(py_parse_and_validate("99999999999999999999")),
        "ValueError: cannot parse '99999999999999999999' as integer"
    );
}

#[test]
fn type_names() {
    assert_eq!(py_type_name(&PyAny::Int(1)), "int");
    assert_eq!(py_type_name(&PyAny::Float(0)), "float");
    assert_eq!(py_type_name(&PyAny::Str("s".to_string())), "str");
    assert_eq!(py_type_name(&PyAny::Bool(true)), "bool");
    assert_eq!(py_type_name(&PyAny::List(vec![])), "list");
    assert_eq!(py_type_name(&PyAny::NoneValue), "NoneType");
}

#[test]
fn extract_with_coercions() {
    assert_eq!(i64::extract(&PyAny::Int(42)).ok(), Some(42));
    assert_eq!(i64::extract(&PyAny::Bool(true)).ok(), Some(1));
    assert_eq!(i64::extract(&PyAny::Bool(false)).ok(), Some(0));
    assert_eq!(bool::extract(&PyAny::Bool(true)).ok(), Some(true));
    assert_eq!(bool::extract(&PyAny::Int(0)).ok(), Some(false));
    assert_eq!(bool::extract(&PyAny::Int(-3)).ok(), Some(true));
    assert_eq!(String::extract(&PyAny::Str("hello".to_string())).ok(), Some("hello".to_string()));
}

#[test]
fn extract_type_mismatches() {
    assert_eq!(
        err_text(i64::extract(&PyAny::Str("nope".to_string()))),
        "TypeError: cannot convert str to int"
    );
    assert_eq!(
        err_text(String::extract(&PyAny::Int(42))),
        "TypeError: cannot convert int to str"
    );
    assert_eq!(
        err_text(bool::extract(&PyAny::NoneValue)),
        "TypeError: cannot convert NoneType to bool"
    );
    assert_eq!(
        err_text(Vec::<i64>::extract(&PyAny::Float(0))),
        "TypeError: cannot convert float to list[int]"
    );
}

#[test]
fn extract_list_of_ints() {
    let list = PyAny::List(vec![PyAny::Int(1), PyAny::Bool(true), PyAny::Int(-4)]);
    assert_eq!(Vec::<i64>::extract(&list).ok(), Some(vec![1, 1, -4]));
    let bad = PyAny::List(vec![PyAny::Int(1), PyAny::Str("x".to_string()), PyAny::NoneValue]);
    assert_eq!(err_text(Vec::<i64>::extract(&bad)), "TypeError: cannot convert str to int");
    assert_eq!(Vec::<i64>::extract(&PyAny::List(vec![])).ok(), Some(vec![]));
}

#[test]
fn into_py_conversions() {
    assert!(matches!(42_i64.into_py(), PyAny::Int(42)));
    assert!(matches!("hello".to_string().into_py(), PyAny::Str(s) if s == "hello"));
    assert!(matches!(false.into_py(), PyAny::Bool(false)));
    match vec![1_i64, 2, 3].into_py() {
        PyAny::List(items) => {
            assert_eq!(items.len(), 3);
            assert!(matches!(items[2], PyAny::Int(3)));
        }
        _ => panic!("expected a list"),
    }
    assert!(matches!(Some(42_i64).into_py(), PyAny::Int(42)));
    assert!(matches!(None::<i64>.into_py(), PyAny::NoneValue));
}

#[test]
fn missing_function_error() {
    assert_eq!(
        no_function_error("my_module", "nonexistent").display(),
        "RuntimeError: module 'my_module' has no function 'nonexistent'"
    );
}

#[test]
fn python_run_values() {
    let d = run();
    assert_eq!(d.int_from_int.ok(), Some(42));
    assert_eq!(d.str_from_str.ok(), Some("hello".to_string()));
    assert_eq!(d.bool_from_bool.ok(), Some(true));
    assert_eq!(d.int_from_bool.ok(), Some(1));
    assert_eq!(err_text(d.int_from_str), "TypeError: cannot convert str to int");
    assert_eq!(err_text(d.str_from_int), "TypeError: cannot convert int to str");
    assert!(matches!(d.py_int, PyAny::Int(42)));
    assert!(matches!(d.py_none, PyAny::NoneValue));
    assert_eq!(d.lookup_port.ok(), Some(8080));
    assert_eq!(err_text(d.lookup_missing), "RuntimeError: not found: missing");
    assert_eq!(d.parsed.len(), 4);
    let texts: Vec<String> = d
        .parsed
        .into_iter()
        .map(|r| match r {
            Ok(v) => v.to_string(),
            Err(e) => e.display(),
        })
        .collect();
    assert_eq!(
        texts,
        vec![
            "42".to_string(),
            "ValueError: cannot parse 'abc' as integer".to_string(),
            "ValueError: value must be non-negative".to_string(),
            "OverflowError: value 9999 exceeds maximum of 1000".to_string(),
        ]
    );
    assert_eq!(d.panic_error.display(), "PanicException: a Rust panic occurred");
}

#[test]
fn sim_module_lookup() {
    let mut m: SimModule<u8> = SimModule::new("my_module");
    m.add_function("sum_as_string", 1);
    m.add_function("multiply", 2);
    m.add_function("sum_as_string", 3);
    assert_eq!(m.lookup("multiply").ok(), Some(&2));
    assert_eq!(m.lookup("sum_as_string").ok(), Some(&1));
    assert_eq!(
        err_text(m.lookup("nonexistent")),
        "RuntimeError: module 'my_module' has no function 'nonexistent'"
    );
}

#[test]
fn sim_module_call_dispatches() {
    let mut m: SimModule<fn(Vec<PyAny>) -> Result<PyAny, PyErr>> = SimModule::new("my_module");
    m.add_function("sum_as_string", sum_as_string);
    match m.call("sum_as_string", vec![PyAny::Int(5), PyAny::Int(3)]) {
        Ok(PyAny::Str(s)) => assert_eq!(s, "8"),
        _ => panic!("expected a string"),
    }
    assert_eq!(
        err_text(m.call("sum_as_string", vec![PyAny::Int(5)])),
        "TypeError: expected 2 arguments"
    );
    assert_eq!(
        err_text(m.call("nonexistent", vec![])),
        "RuntimeError: module 'my_module' has no function 'nonexistent'"
    );
}

#[test]
fn sum_as_string_cases() {
    match sum_as_string(vec![PyAny::Int(5), PyAny::Int(3)]) {
        Ok(PyAny::Str(s)) => assert_eq!(s, "8"),
        _ => panic!("expected a string"),
    }
    match sum_as_string(vec![PyAny::Int(-5), PyAny::Bool(true)]) {
        Ok(PyAny::Str(s)) => assert_eq!(s, "-4"),
        _ => panic!("expected a string"),
    }
    assert_eq!(err_text(sum_as_string(vec![PyAny::Int(5)])), "TypeError: expected 2 arguments");
    assert_eq!(
        err_text(sum_as_string(vec![PyAny::Int(5), PyAny::Str("x".to_string())])),
        "TypeError: cannot convert str to int"
    );
}

#[test]
fn sums_of_squares() {
    assert_eq!(sum_of_squares(1_000_000), 333333833333500000);
    assert_eq!(sum_of_squares(3), 14);
    assert_eq!(sum_of_squares(0), 0);
    assert_eq!(sum_of_squares(-4), 0);
}

#[test]
fn checked_sums_of_squares() {
    assert_eq!(try_sum_of_squares(1_000_000), Some(333333833333500000));
    assert_eq!(try_sum_of_squares(0), Some(0));
    assert_eq!(try_sum_of_squares(3037000499), None);
    assert_eq!(try_sum_of_squares(i64::MAX), None);
}

#[test]
fn conversions_round_trip() {
    assert_eq!(i64::extract(&(-17_i64).into_py()).ok(), Some(-17));
    assert_eq!(bool::extract(&false.into_py()).ok(), Some(false));
    assert_eq!(String::extract(&"héllo".to_string().into_py()).ok(), Some("héllo".to_string()));
    assert_eq!(Vec::<i64>::extract(&vec![4_i64, -2, 0].into_py()).ok(), Some(vec![4, -2, 0]));
}

#[test]
fn ffi_add_values() {
    assert_eq!(tut_ffi_add(2, 3), 5);
    assert_eq!(tut_ffi_add(-7, 4), -3);
    assert_eq!(tut_ffi_add(i32::MAX, 0), i32::MAX);
}
