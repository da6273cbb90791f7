use union_governance::idl::{
    get, idl_hash, text_eq, IdlField, IdlLabel, IdlSelectorError, IdlValue,
};

fn named(name: &str, val: IdlValue) -> IdlField {
    IdlField {
        id: IdlLabel::Named(String::from(name)),
        val,
    }
}

fn sample() -> Vec<IdlValue> {
    // One argument: a record with a named field, a hashed field, a vector
    // and a variant.
    vec![IdlValue::Record(vec![
        named("balance", IdlValue::Number(250)),
        IdlField {
            id: IdlLabel::Id(idl_hash("owner")),
            val: IdlValue::Text(String::from("treasury")),
        },
        IdlField {
            id: IdlLabel::Unnamed(7),
            val: IdlValue::Number(99),
        },
        named(
            "amounts",
            IdlValue::Vector(vec![
                IdlValue::Number(4),
                IdlValue::Number(9),
                IdlValue::Number(9),
                IdlValue::Number(1),
            ]),
        ),
        named(
            "state",
            IdlValue::Variant(Box::new(named("running", IdlValue::Number(1)))),
        ),
    ])]
}

fn sels(parts: &[&str]) -> Vec<String> {
    parts.iter().map(|p| String::from(*p)).collect()
}

#[test]
fn the_field_name_hash_folds_bytes() {
    // By hand: 'a' is 97, 'b' is 98, and 97 * 223 + 98 = 21729.
    assert_eq!(idl_hash("a"), 97);
    assert_eq!(idl_hash("ab"), 21729);
    assert_eq!(idl_hash(""), 0);
}

#[test]
fn record_fields_match_by_name_hash_or_raw_id() {
    let args = sample();
    // By name.
    match get(&args, &sels(&["0", "balance"])).unwrap() {
        IdlValue::Number(n) => assert_eq!(*n, 250),
        _ => panic!("a number was selected"),
    }
    // By the hash of the selector text.
    match get(&args, &sels(&["0", "owner"])).unwrap() {
        IdlValue::Text(t) => assert_eq!(t, "treasury"),
        _ => panic!("a text was selected"),
    }
    // By the raw field id written in decimal.
    match get(&args, &sels(&["0", "7"])).unwrap() {
        IdlValue::Number(n) => assert_eq!(*n, 99),
        _ => panic!("a number was selected"),
    }
    // A leading zero is not the canonical spelling of the id.
    assert!(matches!(
        get(&args, &sels(&["0", "07"])),
        Err(IdlSelectorError::SelectorNotFound)
    ));
}

#[test]
fn vectors_select_by_index_and_extremes() {
    let args = sample();
    match get(&args, &sels(&["0", "amounts", "3"])).unwrap() {
        IdlValue::Number(n) => assert_eq!(*n, 1),
        _ => panic!("a number was selected"),
    }
    // The maximum 9 occurs twice; the earliest one is taken.
    match get(&args, &sels(&["0", "amounts", "#max"])).unwrap() {
        IdlValue::Number(n) => assert_eq!(*n, 9),
        _ => panic!("a number was selected"),
    }
    match get(&args, &sels(&["0", "amounts", "#min"])).unwrap() {
        IdlValue::Number(n) => assert_eq!(*n, 1),
        _ => panic!("a number was selected"),
    }
    // "#items" keeps the whole vector for the caller to render.
    match get(&args, &sels(&["0", "amounts", "#items"])).unwrap() {
        IdlValue::Vector(items) => assert_eq!(items.len(), 4),
        _ => panic!("the vector itself was selected"),
    }
    assert!(matches!(
        get(&args, &sels(&["0", "amounts", "9"])),
        Err(IdlSelectorError::SelectorNotFound)
    ));
}

#[test]
fn variants_match_their_single_label() {
    let args = sample();
    match get(&args, &sels(&["0", "state", "running"])).unwrap() {
        IdlValue::Number(n) => assert_eq!(*n, 1),
        _ => panic!("a number was selected"),
    }
    assert!(matches!(
        get(&args, &sels(&["0", "state", "stopped"])),
        Err(IdlSelectorError::SelectorNotFound)
    ));
}

#[test]
fn bad_selector_paths_are_reported() {
    let args = sample();
    assert!(matches!(
        get(&args, &vec![]),
        Err(IdlSelectorError::MissingSelector)
    ));
    assert!(matches!(
        get(&args, &sels(&["x"])),
        Err(IdlSelectorError::InvalidStartIndex)
    ));
    assert!(matches!(
        get(&args, &sels(&["5"])),
        Err(IdlSelectorError::InvalidStartIndex)
    ));
    assert!(matches!(
        get(&args, &sels(&["0", "no_such_field"])),
        Err(IdlSelectorError::SelectorNotFound)
    ));
    assert!(text_eq("#max", "#max"));
    assert!(!text_eq("#max", "#min"));
}
