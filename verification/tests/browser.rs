use cdda_item_browser::catalog::build;
use cdda_item_browser::detail::project_detail;
use cdda_item_browser::detail::ExtraValue;
use cdda_item_browser::get_name;
use cdda_item_browser::get_property;
use cdda_item_browser::load::load_records;
use cdda_item_browser::load::parse_records;
use cdda_item_browser::JsonValue;

fn s(x: &str) -> JsonValue {
    JsonValue::Str(x.to_string())
}

fn obj(fields: Vec<(&str, JsonValue)>) -> JsonValue {
    JsonValue::Obj(fields.into_iter().map(|(k, v)| (k.to_string(), v)).collect())
}

fn named(n: &str) -> JsonValue {
    obj(vec![("name", obj(vec![("str", s(n))]))])
}

fn named_with(n: &str, extra: Vec<(&str, JsonValue)>) -> JsonValue {
    let mut fields = vec![("name", obj(vec![("str", s(n))]))];
    fields.extend(extra);
    obj(fields)
}

#[test]
fn property_lookup_takes_first_of_equal_keys() {
    let rec = obj(vec![("volume", s("1 L")), ("volume", s("2 L"))]);
    assert_eq!(get_property(&rec, "volume"), Some("1 L".to_string()));
}

#[test]
fn property_lookup_absent_and_wrong_kind() {
    let rec = obj(vec![("volume", JsonValue::Num)]);
    assert_eq!(get_property(&rec, "volume"), None);
    assert_eq!(get_property(&rec, "weight"), None);
    assert_eq!(get_property(&JsonValue::Null, "volume"), None);
}

#[test]
fn name_resolves_through_name_str_path() {
    assert_eq!(get_name(&named("Axe")), Some("Axe".to_string()));
    assert_eq!(get_name(&obj(vec![("name", s("Axe"))])), None);
    assert_eq!(get_name(&obj(vec![])), None);
    assert_eq!(get_name(&named("")), Some(String::new()));
}

#[test]
fn catalog_keeps_only_named_records() {
    let records = vec![named("Axe"), named(""), obj(vec![("volume", s("1 L"))])];
    let catalog = build(records);
    assert_eq!(catalog.len(), 1);
    assert_eq!(get_name(catalog.get(0)), Some("Axe".to_string()));
}

#[test]
fn catalog_empty_input() {
    let catalog = build(Vec::new());
    assert_eq!(catalog.len(), 0);
    assert_eq!(catalog.filter_indices(""), Vec::<usize>::new());
}

#[test]
fn catalog_sorts_by_ordinal_name() {
    let records = vec![named("banana"), named("Zed"), named("apple"), named("Apple")];
    let catalog = build(records);
    let names: Vec<String> = (0..catalog.len())
        .map(|i| get_name(catalog.get(i)).unwrap())
        .collect();
    assert_eq!(names, vec!["Apple", "Zed", "apple", "banana"]);
}

#[test]
fn catalog_sort_is_stable_for_equal_names() {
    let records = vec![
        named_with("axe", vec![("description", s("first"))]),
        named("zweihander"),
        named_with("axe", vec![("description", s("second"))]),
    ];
    let catalog = build(records);
    assert_eq!(catalog.len(), 3);
    assert_eq!(get_property(catalog.get(0), "description"), Some("first".to_string()));
    assert_eq!(get_property(catalog.get(1), "description"), Some("second".to_string()));
    assert_eq!(get_name(catalog.get(2)), Some("zweihander".to_string()));
}

#[test]
fn empty_query_returns_full_catalog_in_order() {
    let records = vec![named("banana"), named("apple"), named("cherry")];
    let catalog = build(records);
    assert_eq!(catalog.filter_indices(""), vec![0, 1, 2]);
}

#[test]
fn query_is_case_insensitive() {
    let records = vec![named("Baseball Bat"), named("axe"), named("Wood Axe")];
    let catalog = build(records);
    let upper = catalog.filter_indices("Axe");
    let lower = catalog.filter_indices("axe");
    assert_eq!(upper, lower);
    assert_eq!(upper.len(), 2);
    let all_caps = catalog.filter_indices("BAT");
    assert_eq!(all_caps.len(), 1);
    assert_eq!(get_name(catalog.get(all_caps[0])), Some("Baseball Bat".to_string()));
}

#[test]
fn query_results_are_idempotent() {
    let records = vec![named("Axe"), named("Bat"), named("Hand Axe")];
    let catalog = build(records);
    let selected = catalog.filter_indices("ax");
    assert_eq!(selected, vec![0, 2]);
    // rebuild a catalog of exactly the selected records and filter again
    let selected_records = vec![named("Axe"), named("Hand Axe")];
    let narrowed = build(selected_records);
    assert_eq!(narrowed.filter_indices("ax"), vec![0, 1]);
}

#[test]
fn detail_of_record_with_all_known_fields() {
    let rec = named_with(
        "Hammer",
        vec![
            ("description", s("Hits nails.")),
            ("volume", s("2 L")),
            ("weight", s("1 kg")),
            ("price_postapoc", s("50 cent")),
            ("material", s("steel")),
            ("flags", JsonValue::Arr(vec![s("TOOL"), s("STURDY")])),
        ],
    );
    let d = project_detail(&rec).unwrap();
    assert_eq!(d.title, "Hammer");
    assert_eq!(d.description, Some("Hits nails.".to_string()));
    assert_eq!(d.volume, Some("2 L".to_string()));
    assert_eq!(d.weight, Some("1 kg".to_string()));
    assert_eq!(d.price, Some("50 cent".to_string()));
    assert_eq!(d.material, Some("steel".to_string()));
    assert_eq!(d.flags, Some(vec!["TOOL".to_string(), "STURDY".to_string()]));
    assert!(d.extra.is_empty());
}

#[test]
fn detail_with_every_known_field_missing() {
    let d = project_detail(&named("Bare")).unwrap();
    assert_eq!(d.title, "Bare");
    assert_eq!(d.description, None);
    assert_eq!(d.volume, None);
    assert_eq!(d.weight, None);
    assert_eq!(d.price, None);
    assert_eq!(d.material, None);
    assert_eq!(d.flags, None);
    assert!(d.extra.is_empty());
}

#[test]
fn detail_requires_a_usable_name() {
    assert!(project_detail(&named("")).is_none());
    assert!(project_detail(&obj(vec![("volume", s("1 L"))])).is_none());
    assert!(project_detail(&JsonValue::Null).is_none());
}

#[test]
fn detail_flags_not_an_array_is_omitted() {
    let rec = named_with("Odd", vec![("flags", s("STURDY"))]);
    let d = project_detail(&rec).unwrap();
    assert_eq!(d.flags, None);
}

#[test]
fn detail_known_fields_of_wrong_kind_are_omitted() {
    let rec = named_with(
        "Odd",
        vec![("volume", JsonValue::Num), ("description", JsonValue::Arr(vec![s("x")]))],
    );
    let d = project_detail(&rec).unwrap();
    assert_eq!(d.volume, None);
    assert_eq!(d.description, None);
}

#[test]
fn detail_generic_fields_capitalized_and_rendered() {
    let rec = named_with(
        "Kit",
        vec![
            ("category", s("TOOLS")),
            ("//note", s("hidden comment")),
            ("price", s("never shown generically")),
            ("uses", JsonValue::Arr(vec![
                JsonValue::Arr(vec![s("hammering"), JsonValue::Num]),
                s("prying"),
                JsonValue::Bool(true),
            ])),
            ("count", JsonValue::Num),
        ],
    );
    let d = project_detail(&rec).unwrap();
    assert_eq!(d.extra.len(), 2);
    assert_eq!(d.extra[0].label, "Category");
    match &d.extra[0].value {
        ExtraValue::Text(t) => assert_eq!(t, "TOOLS"),
        ExtraValue::List(_) => panic!("expected a text value"),
    }
    assert_eq!(d.extra[1].label, "Uses");
    match &d.extra[1].value {
        ExtraValue::List(lines) => {
            assert_eq!(lines, &vec!["hammering".to_string(), "prying".to_string()]);
        }
        ExtraValue::Text(_) => panic!("expected a list value"),
    }
}

#[test]
fn detail_empty_field_name_is_kept_as_is() {
    let rec = named_with("Kit", vec![("", s("anonymous"))]);
    let d = project_detail(&rec).unwrap();
    assert_eq!(d.extra.len(), 1);
    assert_eq!(d.extra[0].label, "");
}

#[test]
fn scenario_baseball_bat() {
    let records = vec![
        named_with("Baseball Bat", vec![("volume", s("3 L"))]),
        named(""),
        obj(vec![("volume", s("1 L"))]),
    ];
    let catalog = build(records);
    assert_eq!(catalog.len(), 1);
    assert_eq!(get_name(catalog.get(0)), Some("Baseball Bat".to_string()));
    assert_eq!(catalog.filter_indices("bat"), vec![0]);
    assert_eq!(catalog.filter_indices("xyz"), Vec::<usize>::new());
    let d = catalog.detail_at(0);
    assert_eq!(d.title, "Baseball Bat");
    assert_eq!(d.volume, Some("3 L".to_string()));
    assert_eq!(d.description, None);
}

#[test]
fn parse_records_accepts_only_json_arrays() {
    assert!(parse_records("[]").unwrap().is_empty());
    assert_eq!(parse_records("[{\"name\":{\"str\":\"Axe\"}}]").unwrap().len(), 1);
    assert!(parse_records("{}").is_none());
    assert!(parse_records("not json").is_none());
}

#[test]
fn load_concatenates_files_in_order() {
    let texts = vec![
        "[{\"name\":{\"str\":\"second\"}},{\"name\":{\"str\":\"first\"}}]".to_string(),
        "[{\"name\":{\"str\":\"third\"}}]".to_string(),
    ];
    let records = load_records(&texts).unwrap();
    assert_eq!(records.len(), 3);
    assert_eq!(get_name(&records[0]), Some("second".to_string()));
    assert_eq!(get_name(&records[1]), Some("first".to_string()));
    assert_eq!(get_name(&records[2]), Some("third".to_string()));
}

#[test]
fn load_fails_fast_on_first_malformed_file() {
    let texts = vec![
        "[]".to_string(),
        "[{\"broken\"".to_string(),
        "[]".to_string(),
    ];
    match load_records(&texts) {
        Err(err) => assert_eq!(err.file_index, 1),
        Ok(_) => panic!("a malformed file must fail the load"),
    }
}

#[test]
fn loaded_records_browse_end_to_end() {
    let texts = vec![
        "[{\"name\":{\"str\":\"Baseball Bat\"},\"volume\":\"3 L\",\"flags\":[\"WOODEN\",7],\"category\":\"BATS\"},{\"name\":{\"str\":\"\"}},{\"volume\":\"1 L\"}]".to_string(),
    ];
    let records = load_records(&texts).unwrap();
    let catalog = build(records);
    assert_eq!(catalog.len(), 1);
    assert_eq!(catalog.filter_indices("BAT"), vec![0]);
    let d = catalog.detail_at(0);
    assert_eq!(d.title, "Baseball Bat");
    assert_eq!(d.volume, Some("3 L".to_string()));
    assert_eq!(d.flags, Some(vec!["WOODEN".to_string()]));
    assert_eq!(d.extra.len(), 1);
    assert_eq!(d.extra[0].label, "Category");
}

#[test]
fn load_of_no_files_is_an_empty_catalog() {
    let records = load_records(&Vec::new()).unwrap();
    assert!(records.is_empty());
    assert_eq!(build(records).len(), 0);
}

#[test]
fn value_kind_predicates() {
    assert!(JsonValue::Arr(vec![]).is_array());
    assert!(!JsonValue::Num.is_array());
    assert!(s("x").is_string());
    assert!(!JsonValue::Arr(vec![]).is_string());
}

#[test]
fn numbers_parse_without_payload() {
    let records = parse_records("[{\"name\":{\"str\":\"X\"},\"count\":4,\"ratio\":2.5}]").unwrap();
    let d = project_detail(&records[0]).unwrap();
    // numeric fields are suppressed from the generic rendering
    assert!(d.extra.is_empty());
}
