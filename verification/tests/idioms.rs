use advanced_rust::idioms::{
    describe_backend, ensure_sorted, escape_html, run, sorted_copy, sum_array, summarize, Describable,
    EmailAddress, FixedStack, Invertible, Loggable, Postgres, RequestBuilder, ServerEvent, Sqlite,
    StrExt,
};
use std::borrow::Cow;

#[test]
fn server_event_levels_and_log_line() {
    let event = ServerEvent { message: "server started".to_string(), severity: 1 };
    assert_eq!(event.describe(), "event: server started");
    assert_eq!(event.log_level(), "INFO");
    assert_eq!(event.log_line(), "[INFO] event: server started");
    for (sev, level) in [(0u8, "INFO"), (3, "INFO"), (4, "WARN"), (7, "WARN"), (8, "ERROR"), (255, "ERROR")] {
        let e = ServerEvent { message: "m".to_string(), severity: sev };
        assert_eq!(e.log_level(), level);
    }
}

#[test]
fn str_ext_blank_and_word_count() {
    assert!("  ".is_blank());
    assert!("".is_blank());
    assert!(" \t\n".is_blank());
    assert!(!"hi".is_blank());
    assert_eq!("hello world".word_count(), 2);
    assert_eq!("".word_count(), 0);
    assert_eq!("  a  b\tc\n".word_count(), 3);
    assert_eq!("\u{3000}x\u{a0}y".word_count(), 2);
}

#[test]
fn invert_values() {
    assert!(!true.invert());
    assert!(false.invert());
    assert_eq!((-5_i32).invert(), 5);
    assert_eq!(7_i64.invert(), -7);
    assert_eq!(3_i8.invert(), -3);
    assert_eq!(i16::MAX.invert(), -i16::MAX);
}

#[test]
fn email_validation() {
    let email = EmailAddress::new("user@example.com").ok().unwrap();
    assert_eq!(email.as_str(), "user@example.com");
    assert_eq!(email.as_str().len(), 16);
    assert!(email.as_str().contains("example"));
    let via_try = EmailAddress::try_from("admin@site.org").ok().unwrap();
    assert_eq!(via_try.as_str(), "admin@site.org");
    assert_eq!(
        EmailAddress::new("not-an-email").err().unwrap(),
        "invalid email: not-an-email"
    );
    assert!(EmailAddress::new("a@b").is_err());
    assert!(EmailAddress::new("a.b").is_err());
    assert!(EmailAddress::new(".@").is_ok());
}

#[test]
fn backends_are_described() {
    assert_eq!(describe_backend(&Postgres), "PostgreSQL: max 100 connections");
    assert_eq!(describe_backend(&Sqlite), "SQLite: max 1 connections");
}

#[test]
fn request_builder_in_both_orders() {
    let response = RequestBuilder::new().timeout(3000).url("https://example.com").send();
    assert_eq!(response, "sending request to https://example.com (timeout: 3000ms)");
    let response2 = RequestBuilder::new()
        .url("https://api.example.com/data")
        .timeout(1000)
        .send();
    assert_eq!(
        response2,
        "sending request to https://api.example.com/data (timeout: 1000ms)"
    );
    let default_timeout = RequestBuilder::new().url("u").send();
    assert_eq!(default_timeout, "sending request to u (timeout: 5000ms)");
}

#[test]
fn fixed_stack_capacity_and_lifo() {
    let mut stack = FixedStack::<i32, 4>::new();
    assert!(stack.is_empty());
    for v in [10, 20, 30, 40] {
        assert_eq!(stack.push(v), Ok(()));
    }
    assert_eq!(stack.len(), 4);
    assert_eq!(stack.capacity(), 4);
    assert_eq!(stack.push(50), Err("stack overflow: capacity exceeded"));
    assert_eq!(stack.len(), 4);
    let mut popped = Vec::new();
    while !stack.is_empty() {
        popped.push(stack.pop().unwrap());
    }
    assert_eq!(popped, vec![40, 30, 20, 10]);
    assert_eq!(stack.pop(), None);
}

#[test]
fn fixed_stack_push_then_pop_restores() {
    let mut stack = FixedStack::<u8, 2>::new();
    stack.push(1).unwrap();
    stack.push(7).unwrap();
    assert_eq!(stack.pop(), Some(7));
    assert_eq!(stack.len(), 1);
    let mut zero = FixedStack::<u8, 0>::new();
    assert!(zero.push(1).is_err());
}

#[test]
fn sums_of_arrays() {
    assert_eq!(sum_array(&[1, 2, 3]), 6);
    assert_eq!(sum_array(&[10, 20, 30, 40, 50]), 150);
    assert_eq!(sum_array(&[]), 0);
    assert_eq!(sum_array(&[i32::MAX, -1, 1]), i32::MAX);
}

#[test]
fn escape_html_borrows_clean_input() {
    let clean = escape_html("Hello, world!");
    assert!(matches!(clean, Cow::Borrowed(_)));
    assert_eq!(&*clean, "Hello, world!");
    let dirty = escape_html("<script>alert('xss')</script>");
    assert!(matches!(dirty, Cow::Owned(_)));
    assert_eq!(&*dirty, "&lt;script&gt;alert('xss')&lt;/script&gt;");
    assert_eq!(&*escape_html("a&b \"q\""), "a&amp;b &quot;q&quot;");
    assert_eq!(&*escape_html("&lt;"), "&amp;lt;");
}

#[test]
fn ensure_sorted_borrows_sorted_input() {
    let sorted_input = [1, 2, 3, 4, 5];
    let r1 = ensure_sorted(&sorted_input);
    assert!(matches!(r1, Cow::Borrowed(_)));
    assert_eq!(&*r1, &[1, 2, 3, 4, 5]);
    let unsorted_input = [3, 1, 4, 1, 5];
    let r2 = ensure_sorted(&unsorted_input);
    assert!(matches!(r2, Cow::Owned(_)));
    assert_eq!(&*r2, &[1, 1, 3, 4, 5]);
    assert!(matches!(ensure_sorted(&[]), Cow::Borrowed(_)));
    assert_eq!(sorted_copy(&[5, -2, 5, 0]), vec![-2, 0, 5, 5]);
}

#[test]
fn idioms_run_values() {
    let d = run();
    assert_eq!(d.log_line, "[INFO] event: server started");
    assert!(d.spaces_blank);
    assert!(!d.hi_blank);
    assert_eq!(d.words, 2);
    assert!(!d.inverted_bool);
    assert_eq!(d.inverted_neg, 5);
    assert_eq!(d.inverted_pos, -7);
    assert_eq!(d.email.as_ref().ok().unwrap().as_str(), "user@example.com");
    assert_eq!(d.email_try.as_ref().ok().unwrap().as_str(), "admin@site.org");
    assert_eq!(d.email_bad.as_ref().err().unwrap(), "invalid email: not-an-email");
    assert_eq!(d.backends.0, "PostgreSQL: max 100 connections");
    assert_eq!(d.backends.1, "SQLite: max 1 connections");
    assert_eq!(d.requests.0, "sending request to https://example.com (timeout: 3000ms)");
    assert_eq!(d.pushes, vec![Ok(()), Ok(()), Ok(()), Ok(())]);
    assert_eq!(d.overflow, Err("stack overflow: capacity exceeded"));
    assert_eq!((d.stack_len, d.stack_capacity), (4, 4));
    assert_eq!(d.popped, vec![40, 30, 20, 10]);
}

#[test]
fn summaries_cut_at_twenty_bytes() {
    assert_eq!(summarize("42"), "42");
    assert_eq!(summarize("short"), "short");
    assert_eq!(
        summarize("This is a very long string that exceeds twenty characters"),
        "This is a very long ..."
    );
    assert_eq!(summarize("exactly twenty bytes"), "exactly twenty bytes");
    assert_eq!(summarize("ééééééééééééé"), "éééééééééé...");
}

#[test]
fn inverting_twice_gives_the_value_back() {
    assert!(true.invert().invert());
    assert_eq!((-5_i32).invert().invert(), -5);
    assert_eq!(i8::MAX.invert().invert(), i8::MAX);
    assert_eq!(7_i64.invert().invert(), 7);
}
