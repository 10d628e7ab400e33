use advanced_rust::macro_plans::{
    builder_plan, digits_to_u32, excluded_fields, getter_name, greeting, keeps_visibility,
    parse_resource, AttrArgs, DslToken, FieldInit, FieldSpec, ResourceError,
};

fn id(s: &str) -> DslToken {
    DslToken::Ident(s.to_string())
}

#[test]
fn greetings_and_getters() {
    assert_eq!(greeting("Robot"), "Hello from Robot!");
    assert_eq!(greeting("Sensor"), "Hello from Sensor!");
    assert_eq!(getter_name("label"), "get_label");
}

#[test]
fn excluded_field_lists() {
    let args = AttrArgs::List {
        path: "exclude".to_string(),
        idents: Some(vec!["password".to_string()]),
    };
    let ex = excluded_fields(&args);
    assert_eq!(ex, vec!["password".to_string()]);
    assert!(keeps_visibility(&ex, &Some("password".to_string())));
    assert!(!keeps_visibility(&ex, &Some("email".to_string())));
    assert!(!keeps_visibility(&ex, &None));
    assert!(excluded_fields(&AttrArgs::Empty).is_empty());
    assert!(excluded_fields(&AttrArgs::NotList).is_empty());
    let other = AttrArgs::List { path: "include".to_string(), idents: None };
    assert!(excluded_fields(&other).is_empty());
}

#[test]
fn builder_plan_with_renames() {
    let fields = vec![
        FieldSpec { name: "endpoint".to_string(), rename: Some("url".to_string()) },
        FieldSpec { name: "timeout_ms".to_string(), rename: Some("with_timeout".to_string()) },
    ];
    let plan = builder_plan("ApiClient", &fields, false);
    assert_eq!(plan.builder_name, "ApiClientBuilder");
    assert_eq!(
        plan.setters,
        vec![
            ("url".to_string(), "endpoint".to_string()),
            ("with_timeout".to_string(), "timeout_ms".to_string()),
        ]
    );
    match &plan.inits[0].1 {
        FieldInit::Required(m) => assert_eq!(m, "field not set: endpoint"),
        FieldInit::Default => panic!("expected a required field"),
    }
}

#[test]
fn builder_plan_with_defaults() {
    let fields = vec![
        FieldSpec { name: "retries".to_string(), rename: None },
        FieldSpec { name: "verbose".to_string(), rename: None },
    ];
    let plan = builder_plan("Settings", &fields, true);
    assert_eq!(plan.setters[1].0, "verbose");
    assert!(plan.inits.iter().all(|(_, i)| matches!(i, FieldInit::Default)));
}

#[test]
fn resource_dsl_in_either_order() {
    let toks = vec![
        id("resource"),
        id("ConnectionPool"),
        id("name"),
        DslToken::Str("postgres_pool".to_string()),
        id("count"),
        DslToken::Int("10".to_string()),
    ];
    let spec = parse_resource(&toks).ok().unwrap();
    assert_eq!(spec.struct_name, "ConnectionPool");
    assert_eq!(spec.name, "postgres_pool");
    assert_eq!(spec.count, 10);
    assert_eq!(spec.description(), "ConnectionPool: postgres_pool (count: 10)");

    let toks = vec![
        id("resource"),
        id("CacheLayer"),
        id("count"),
        DslToken::Int("256".to_string()),
        id("name"),
        DslToken::Str("redis_cache".to_string()),
    ];
    let spec = parse_resource(&toks).ok().unwrap();
    assert_eq!(spec.description(), "CacheLayer: redis_cache (count: 256)");
}

#[test]
fn resource_dsl_defaults_and_repeats() {
    let spec = parse_resource(&vec![id("resource"), id("Bare")]).ok().unwrap();
    assert_eq!(spec.description(), "Bare:  (count: 0)");
    let toks = vec![
        id("resource"),
        id("R"),
        id("count"),
        DslToken::Int("1".to_string()),
        id("count"),
        DslToken::Int("2".to_string()),
    ];
    assert_eq!(parse_resource(&toks).ok().unwrap().count, 2);
}

#[test]
fn resource_dsl_errors() {
    let err = |t: Vec<DslToken>| parse_resource(&t).err().unwrap();
    assert_eq!(err(vec![]), ResourceError::ExpectedResource);
    assert_eq!(err(vec![id("resourc")]), ResourceError::ExpectedResource);
    assert_eq!(err(vec![id("resource")]), ResourceError::ExpectedIdent);
    assert_eq!(err(vec![id("resource"), DslToken::Other]), ResourceError::ExpectedIdent);
    assert_eq!(err(vec![id("resource"), id("X"), id("name")]), ResourceError::ExpectedString);
    assert_eq!(
        err(vec![id("resource"), id("X"), id("count"), DslToken::Str("1".to_string())]),
        ResourceError::ExpectedInteger
    );
    assert_eq!(
        err(vec![id("resource"), id("X"), id("count"), DslToken::Int("4294967296".to_string())]),
        ResourceError::CountOutOfRange
    );
    assert_eq!(err(vec![id("resource"), id("X"), id("size")]), ResourceError::ExpectedKey);
}

#[test]
fn decimal_digits_to_u32() {
    assert_eq!(digits_to_u32("0"), Some(0));
    assert_eq!(digits_to_u32("4294967295"), Some(u32::MAX));
    assert_eq!(digits_to_u32("4294967296"), None);
    assert_eq!(digits_to_u32(""), None);
    assert_eq!(digits_to_u32("12a"), None);
    assert_eq!(digits_to_u32("00042"), Some(42));
}
