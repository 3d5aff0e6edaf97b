use metre::env::MapEnv;
use metre::error::Error;
use metre::finish::Conf;
use metre::finish::ConfEntry;
use metre::inflect::Inflection;
use metre::loader::ConfigLoader;
use metre::merge::append_vec;
use metre::mirror::Entry;
use metre::mirror::Mirror;
use metre::parse::comma_separated;
use metre::parse::parse_bool;
use metre::parse::parse_i64;
use metre::raw::Raw;
use metre::shape::FieldDesc;
use metre::shape::FieldKind;
use metre::shape::MergePolicy;
use metre::shape::ParsePolicy;
use metre::shape::Shape;
use metre::text::Format;
use metre::util::merge_flat;
use metre::value::Atom;
use metre::value::AtomTy;
use metre::value::FieldValue;
use metre::value::Ty;

fn leaf(name: &str, ty: Ty) -> FieldDesc {
    FieldDesc {
        name: name.to_string(),
        env_name: Inflection::UpperSnake.apply(name),
        optional: false,
        default: None,
        env: None,
        skip_env: false,
        flatten: false,
        merge: MergePolicy::Replace,
        parse: ParsePolicy::Standard,
        kind: FieldKind::Leaf(ty),
    }
}

fn nested_field(name: &str, sub: Shape) -> FieldDesc {
    FieldDesc {
        name: name.to_string(),
        env_name: Inflection::UpperSnake.apply(name),
        optional: false,
        default: None,
        env: None,
        skip_env: false,
        flatten: false,
        merge: MergePolicy::Replace,
        parse: ParsePolicy::Standard,
        kind: FieldKind::Nested(Box::new(sub)),
    }
}

fn shape_of(fields: Vec<FieldDesc>) -> Shape {
    Shape { fields, env_prefix: None, skip_env: false, allow_unknown: false }
}

fn env_of(entries: &[(&str, &str)]) -> MapEnv {
    MapEnv {
        entries: entries.iter().map(|(k, v)| (k.to_string(), v.to_string())).collect(),
    }
}

fn str_atom(s: &str) -> Atom {
    Atom::Str(s.to_string())
}

fn json_of_raw(r: &Raw) -> serde_json::Value {
    match r {
        Raw::Null => serde_json::Value::Null,
        Raw::Bool(b) => serde_json::Value::Bool(*b),
        Raw::Int(i) => serde_json::Value::Number(serde_json::Number::from(*i)),
        Raw::Str(s) => serde_json::Value::String(s.clone()),
        Raw::List(l) => serde_json::Value::Array(l.iter().map(json_of_raw).collect()),
        Raw::Object(ps) => {
            let mut m = serde_json::Map::new();
            for (k, v) in ps {
                m.insert(k.clone(), json_of_raw(v));
            }
            serde_json::Value::Object(m)
        },
    }
}

#[test]
fn partial_config_should_not_serialize_missing_properties() {
    let shape = shape_of(vec![
        leaf("port", Ty::Atom(AtomTy::Int)),
        leaf("addr", Ty::Atom(AtomTy::Str)),
    ]);
    let mut loader = ConfigLoader::new(shape).unwrap();
    loader
        .code(
            r#"
        port: 3000
        "#,
            Format::Yaml,
        )
        .unwrap();
    let raw = loader.partial_state().to_raw(&loader.shape);

    let serialized = serde_json::to_string(&json_of_raw(&raw)).unwrap();
    assert_eq!(serialized, "{\"port\":3000}");
}

#[test]
fn partial_config_should_not_serialize_empty_nested_configs() {
    let shape = shape_of(vec![
        leaf("port", Ty::Atom(AtomTy::Int)),
        nested_field("nested", shape_of(vec![leaf("prop", Ty::Atom(AtomTy::Str))])),
    ]);
    let mut loader = ConfigLoader::new(shape).unwrap();
    loader
        .code(
            r#"
        port: 3000
        "#,
            Format::Yaml,
        )
        .unwrap();
    let raw = loader.partial_state().to_raw(&loader.shape);

    let serialized = serde_json::to_string(&json_of_raw(&raw)).unwrap();
    assert_eq!(serialized, "{\"port\":3000}");
}

#[test]
fn serialized_mirror_reads_back_equal() {
    let mut port = leaf("port", Ty::Atom(AtomTy::Int));
    port.default = Some(FieldValue::Atom(Atom::Int(3000)));
    let shape = shape_of(vec![
        port,
        nested_field("nested", shape_of(vec![leaf("prop", Ty::Atom(AtomTy::Str))])),
    ]);

    let empty = Mirror::new_empty(&shape);
    let back = Mirror::from_raw(&shape, &empty.to_raw(&shape)).unwrap();
    assert_eq!(back, empty);

    let defaults = Mirror::defaults(&shape);
    let back = Mirror::from_raw(&shape, &defaults.to_raw(&shape)).unwrap();
    assert_eq!(back, defaults);

    let mut merged = Mirror::new_empty(&shape);
    merged.merge(&shape, defaults).unwrap();
    let back = Mirror::from_raw(&shape, &merged.to_raw(&shape)).unwrap();
    assert_eq!(back, merged);
}

#[test]
fn defaults_are_empty_only_without_declared_defaults() {
    let plain = shape_of(vec![
        leaf("port", Ty::Atom(AtomTy::Int)),
        nested_field("nested", shape_of(vec![leaf("prop", Ty::Atom(AtomTy::Str))])),
    ]);
    assert!(Mirror::defaults(&plain).is_empty());

    let mut prop = leaf("prop", Ty::Atom(AtomTy::Str));
    prop.default = Some(FieldValue::Atom(str_atom("x")));
    let with_default = shape_of(vec![
        leaf("port", Ty::Atom(AtomTy::Int)),
        nested_field("nested", shape_of(vec![prop])),
    ]);
    assert!(!Mirror::defaults(&with_default).is_empty());
}

#[test]
fn later_sources_override_per_field() {
    // Source A sets port and addr; source B sets only port: the
    // accumulated state keeps A's addr and B's port.
    let shape = shape_of(vec![
        leaf("port", Ty::Atom(AtomTy::Int)),
        leaf("addr", Ty::Atom(AtomTy::Str)),
    ]);
    let a = Mirror {
        entries: vec![
            Entry::Leaf(FieldValue::Atom(Atom::Int(3000))),
            Entry::Leaf(FieldValue::Atom(str_atom("x"))),
        ],
    };
    let b = Mirror {
        entries: vec![Entry::Leaf(FieldValue::Atom(Atom::Int(3001))), Entry::Absent],
    };

    let mut loader = ConfigLoader::new(shape).unwrap();
    loader.partial(a).unwrap();
    loader.partial(b).unwrap();

    assert_eq!(
        loader.partial_state().entries,
        vec![
            Entry::Leaf(FieldValue::Atom(Atom::Int(3001))),
            Entry::Leaf(FieldValue::Atom(str_atom("x"))),
        ]
    );

    let config = loader.finish().unwrap();
    assert_eq!(config.entries[0], ConfEntry::Required(FieldValue::Atom(Atom::Int(3001))));
    assert_eq!(config.entries[1], ConfEntry::Required(FieldValue::Atom(str_atom("x"))));
}

#[test]
fn nested_field_binds_from_env_without_prefix() {
    let shape = shape_of(vec![nested_field(
        "nested",
        shape_of(vec![leaf("port", Ty::Atom(AtomTy::Int))]),
    )]);
    let env = env_of(&[("NESTED_PORT", "3000")]);

    let m = Mirror::from_env_with_provider(&shape, &env).unwrap();
    match &m.entries[0] {
        Entry::Nested(sub) => {
            assert_eq!(sub.entries[0], Entry::Leaf(FieldValue::Atom(Atom::Int(3000))));
        },
        other => panic!("expected a nested mirror, got {:?}", other),
    }
}

#[test]
fn different_required_values_finalize_differently() {
    let shape = shape_of(vec![leaf("port", Ty::Atom(AtomTy::Int))]);
    let m1 = Mirror { entries: vec![Entry::Leaf(FieldValue::Atom(Atom::Int(1)))] };
    let m2 = Mirror { entries: vec![Entry::Leaf(FieldValue::Atom(Atom::Int(2)))] };
    let c1 = Conf::from_partial(&shape, m1).unwrap();
    let c2 = Conf::from_partial(&shape, m2).unwrap();
    assert_ne!(c1, c2);
}

#[test]
fn invalid_shape_declarations_are_rejected() {
    let mut port = leaf("port", Ty::Atom(AtomTy::Int));
    port.skip_env = true;
    port.env = Some("PORT".to_string());
    match ConfigLoader::new(shape_of(vec![port])) {
        Err(Error::Shape) => {},
        other => panic!("expected a shape error, got {:?}", other),
    }

    let mut shape = shape_of(vec![leaf("port", Ty::Atom(AtomTy::Int))]);
    shape.skip_env = true;
    shape.env_prefix = Some("{}CONF_".to_string());
    match ConfigLoader::new(shape) {
        Err(Error::Shape) => {},
        other => panic!("expected a shape error, got {:?}", other),
    }
}

#[test]
fn append_policy_on_scalars_reports_the_field() {
    let mut port = leaf("port", Ty::Atom(AtomTy::Int));
    port.merge = MergePolicy::Append;
    let shape = shape_of(vec![port]);

    let mut loader = ConfigLoader::new(shape).unwrap();
    loader
        .partial(Mirror { entries: vec![Entry::Leaf(FieldValue::Atom(Atom::Int(1)))] })
        .unwrap();
    let err = loader
        .partial(Mirror { entries: vec![Entry::Leaf(FieldValue::Atom(Atom::Int(2)))] })
        .unwrap_err();
    match err {
        Error::Merge(e) => {
            assert_eq!(e.field, "port");
            assert_eq!(e.message, "append merge policy needs two list values");
        },
        other => panic!("expected a merge error, got {:?}", other),
    }
    // The failing source left the accumulated state intact.
    assert_eq!(
        loader.partial_state().entries[0],
        Entry::Leaf(FieldValue::Atom(Atom::Int(1)))
    );
}

#[test]
fn unparsable_environment_value_reports_key_and_field() {
    let shape = shape_of(vec![nested_field(
        "nested",
        shape_of(vec![leaf("port", Ty::Atom(AtomTy::Int))]),
    )]);
    let env = env_of(&[("NESTED_PORT", "not-a-number")]);

    let mut loader = ConfigLoader::new(shape).unwrap();
    let err = loader.env_with_provider(&env).unwrap_err();
    match err {
        Error::FromEnv(e) => {
            assert_eq!(e.key, "NESTED_PORT");
            assert_eq!(e.field, "nested.port");
        },
        other => panic!("expected an environment error, got {:?}", other),
    }
}

#[test]
fn first_environment_entry_wins() {
    let env = env_of(&[("PORT", "1"), ("PORT", "2")]);
    let shape = shape_of(vec![leaf("port", Ty::Atom(AtomTy::Int))]);
    let m = Mirror::from_env_with_provider(&shape, &env).unwrap();
    assert_eq!(m.entries[0], Entry::Leaf(FieldValue::Atom(Atom::Int(1))));
}

#[test]
fn integer_parsing_is_exact() {
    assert_eq!(parse_i64("3000"), Some(3000));
    assert_eq!(parse_i64("-42"), Some(-42));
    assert_eq!(parse_i64("+7"), Some(7));
    assert_eq!(parse_i64("0"), Some(0));
    assert_eq!(parse_i64("9223372036854775807"), Some(i64::MAX));
    assert_eq!(parse_i64("-9223372036854775808"), Some(i64::MIN));
    assert_eq!(parse_i64("9223372036854775808"), None);
    assert_eq!(parse_i64("-9223372036854775809"), None);
    assert_eq!(parse_i64(""), None);
    assert_eq!(parse_i64("-"), None);
    assert_eq!(parse_i64("12a"), None);
    assert_eq!(parse_i64(" 12"), None);
}

#[test]
fn boolean_parsing_is_exact() {
    assert_eq!(parse_bool("true"), Some(true));
    assert_eq!(parse_bool("false"), Some(false));
    assert_eq!(parse_bool("True"), None);
    assert_eq!(parse_bool(""), None);
}

#[test]
fn comma_separated_reads_lists() {
    let items = comma_separated("item1,item2", AtomTy::Str).unwrap().unwrap();
    assert_eq!(items, vec![str_atom("item1"), str_atom("item2")]);

    let empty = comma_separated("", AtomTy::Str).unwrap().unwrap();
    assert_eq!(empty, Vec::<Atom>::new());

    let with_empty_piece = comma_separated("a,,b", AtomTy::Str).unwrap().unwrap();
    assert_eq!(with_empty_piece, vec![str_atom("a"), str_atom(""), str_atom("b")]);

    let numbers = comma_separated("1,2", AtomTy::Int).unwrap().unwrap();
    assert_eq!(numbers, vec![Atom::Int(1), Atom::Int(2)]);

    let err = comma_separated("1,x,y", AtomTy::Int).unwrap_err();
    assert_eq!(err, "cannot parse list item: x");
}

#[test]
fn mirror_check_decides_fit() {
    let shape = shape_of(vec![
        leaf("port", Ty::Atom(AtomTy::Int)),
        nested_field("nested", shape_of(vec![leaf("prop", Ty::Atom(AtomTy::Str))])),
    ]);
    let good = Mirror {
        entries: vec![
            Entry::Leaf(FieldValue::Atom(Atom::Int(3000))),
            Entry::Nested(Box::new(Mirror { entries: vec![Entry::Absent] })),
        ],
    };
    assert!(good.check(&shape));

    let wrong_type = Mirror {
        entries: vec![
            Entry::Leaf(FieldValue::Atom(str_atom("x"))),
            Entry::Nested(Box::new(Mirror { entries: vec![Entry::Absent] })),
        ],
    };
    assert!(!wrong_type.check(&shape));

    let absent_required_nested = Mirror { entries: vec![Entry::Absent, Entry::Absent] };
    assert!(!absent_required_nested.check(&shape));

    let wrong_len = Mirror { entries: vec![Entry::Absent] };
    assert!(!wrong_len.check(&shape));
}

#[test]
fn merge_helpers_follow_their_policies() {
    let mut left: Option<u32> = Some(1);
    merge_flat(&mut left, None).unwrap();
    assert_eq!(left, Some(1));
    merge_flat(&mut left, Some(2)).unwrap();
    assert_eq!(left, Some(2));

    let mut list: Option<Vec<u32>> = None;
    append_vec(&mut list, Some(vec![1])).unwrap();
    assert_eq!(list, Some(vec![1]));
    append_vec(&mut list, Some(vec![2, 3])).unwrap();
    assert_eq!(list, Some(vec![1, 2, 3]));
    append_vec(&mut list, None).unwrap();
    assert_eq!(list, Some(vec![1, 2, 3]));
}

#[test]
fn case_conventions_change_their_input() {
    assert_eq!(Inflection::UpperSnake.apply("my_port"), "MY_PORT");
    assert_eq!(Inflection::Lower.apply("MyPort"), "myport");
    assert_eq!(Inflection::Upper.apply("MyPort"), "MYPORT");
    assert_eq!(Inflection::Snake.apply("myPort"), "my_port");
    assert_eq!(Inflection::Camel.apply("my_port"), "myPort");
    assert_eq!(Inflection::Pascal.apply("my_port"), "MyPort");
    assert_eq!(Inflection::Kebab.apply("my_port"), "my-port");
    assert_eq!(Inflection::UpperKebab.apply("my_port"), "MY-PORT");
    assert_eq!(Inflection::from_str("snake_case"), Ok(Inflection::Snake));
    assert_eq!(Inflection::from_str("SCREAMING_SNAKE_CASE"), Ok(Inflection::UpperSnake));
    assert_eq!(Inflection::from_str("unknown"), Err(()));
}

#[test]
fn format_strings_fill_their_substitution_point() {
    assert!(metre::env::fmt_has_prefix("{}CONF_"));
    assert!(!metre::env::fmt_has_prefix("CONF_"));
    assert_eq!(metre::env::fill_fmt("{}CONF_", "MY_APP_"), "MY_APP_CONF_");
    assert_eq!(metre::env::fill_fmt("CONF_", "MY_APP_"), "CONF_");
}

#[test]
fn null_clears_only_optional_fields() {
    let mut addr = leaf("addr", Ty::Atom(AtomTy::Str));
    addr.optional = true;
    let shape = shape_of(vec![leaf("port", Ty::Atom(AtomTy::Int)), addr]);

    let mut loader = ConfigLoader::new(shape).unwrap();
    loader
        .code(r#"{"port": 3000, "addr": null}"#, Format::Json)
        .unwrap();
    assert_eq!(loader.partial_state().entries[1], Entry::Absent);

    let mut loader2 = ConfigLoader::new(shape_of(vec![leaf("port", Ty::Atom(AtomTy::Int))]))
        .unwrap();
    loader2.code(r#"{"port": null}"#, Format::Json).unwrap_err();
}

#[test]
fn partial_state_mut_gives_write_access() {
    let shape = shape_of(vec![leaf("port", Ty::Atom(AtomTy::Int))]);
    let mut loader = ConfigLoader::new(shape).unwrap();
    loader.code("port = 3000", Format::Toml).unwrap();
    loader.partial_state_mut().entries[0] = Entry::Absent;
    assert_eq!(loader.partial_state().entries[0], Entry::Absent);
}
