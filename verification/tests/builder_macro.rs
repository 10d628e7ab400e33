use advanced_rust::builder_macro::Builder;

#[test]
fn build_with_all_fields() {
    let person = Builder::new()
        .name("Alice".to_string())
        .age(30)
        .email("alice@example.com".to_string())
        .build();
    let p = person.ok().unwrap();
    assert_eq!(p.name, "Alice");
    assert_eq!(p.age, 30);
    assert_eq!(p.email, "alice@example.com");
}

#[test]
fn build_in_another_order() {
    let p = Builder::new()
        .email("bob@company.org".to_string())
        .name("Bob".to_string())
        .age(25)
        .build()
        .ok()
        .unwrap();
    assert_eq!(p.name, "Bob");
    assert_eq!(p.age, 25);
    assert_eq!(p.email, "bob@company.org");
}

#[test]
fn missing_fields_are_reported_in_order() {
    let r = Builder::new().name("Charlie".to_string()).build();
    assert_eq!(r.err().unwrap(), "Missing field: 'age'");
    let r = Builder::new().age(99).build();
    assert_eq!(r.err().unwrap(), "Missing field: 'name'");
    let r = Builder::new().build();
    assert_eq!(r.err().unwrap(), "Missing field: 'name'");
    let r = Builder::new().name("D".to_string()).age(1).build();
    assert_eq!(r.err().unwrap(), "Missing field: 'email'");
}

#[test]
fn build_takes_the_fields_out() {
    let mut b = Builder::new();
    b.name("Eve".to_string()).age(40).email("e@x".to_string());
    assert!(b.build().is_ok());
    assert_eq!(b.build().err().unwrap(), "Missing field: 'name'");
}

#[test]
fn later_setter_overrides_earlier() {
    let p = Builder::new()
        .name("First".to_string())
        .name("Second".to_string())
        .age(1)
        .email("m".to_string())
        .build()
        .ok()
        .unwrap();
    assert_eq!(p.name, "Second");
}
