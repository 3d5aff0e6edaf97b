use metre::env::MapEnv;
use metre::error::Error;
use metre::finish::Conf;
use metre::finish::ConfEntry;
use metre::inflect::Inflection;
use metre::loader::ConfigLoader;
use metre::mirror::Entry;
use metre::shape::FieldDesc;
use metre::shape::FieldKind;
use metre::shape::MergePolicy;
use metre::shape::ParsePolicy;
use metre::shape::Shape;
use metre::text::Format;
use metre::value::Atom;
use metre::value::AtomTy;
use metre::value::FieldValue;
use metre::value::Ty;

fn leaf(name: &str, ty: Ty) -> FieldDesc {
    FieldDesc {
        name: name.to_string(),
        env_name: Inflection::UpperSnake.apply(name),
        optional: false,
        default: None,
        env: None,
        skip_env: false,
        flatten: false,
        merge: MergePolicy::Replace,
        parse: ParsePolicy::Standard,
        kind: FieldKind::Leaf(ty),
    }
}

fn nested_field(name: &str, sub: Shape) -> FieldDesc {
    FieldDesc {
        name: name.to_string(),
        env_name: Inflection::UpperSnake.apply(name),
        optional: false,
        default: None,
        env: None,
        skip_env: false,
        flatten: false,
        merge: MergePolicy::Replace,
        parse: ParsePolicy::Standard,
        kind: FieldKind::Nested(Box::new(sub)),
    }
}

fn shape_of(fields: Vec<FieldDesc>) -> Shape {
    Shape { fields, env_prefix: None, skip_env: false, allow_unknown: false }
}

fn env_of(entries: &[(&str, &str)]) -> MapEnv {
    MapEnv {
        entries: entries.iter().map(|(k, v)| (k.to_string(), v.to_string())).collect(),
    }
}

fn str_atom(s: &str) -> Atom {
    Atom::Str(s.to_string())
}

fn port_shape() -> Shape {
    shape_of(vec![leaf("port", Ty::Atom(AtomTy::Int))])
}

#[test]
fn test() {
    let nested = shape_of(vec![
        leaf("a", Ty::Atom(AtomTy::Str)),
        leaf("b", Ty::Atom(AtomTy::Int)),
    ]);
    let mut default_field = leaf("default", Ty::Atom(AtomTy::Str));
    default_field.default = Some(FieldValue::Atom(str_atom("default")));
    let mut list_field = leaf("list", Ty::List(AtomTy::Str));
    list_field.parse = ParsePolicy::CommaSeparated;
    let mut optional_field = leaf("optional", Ty::Atom(AtomTy::Str));
    optional_field.optional = true;
    let shape = shape_of(vec![
        default_field,
        nested_field("nested", nested),
        optional_field,
        list_field,
    ]);

    let mut loader = ConfigLoader::new(shape).unwrap();
    loader.defaults().unwrap();
    loader
        .code(
            r#"
        nested.a = "a"
        nested.b = 1
        list = ["item"]
        "#,
            Format::Toml,
        )
        .unwrap();

    let config = loader.finish().unwrap();

    assert_eq!(
        config,
        Conf {
            entries: vec![
                ConfEntry::Required(FieldValue::Atom(str_atom("default"))),
                ConfEntry::Nested(Box::new(Conf {
                    entries: vec![
                        ConfEntry::Required(FieldValue::Atom(str_atom("a"))),
                        ConfEntry::Required(FieldValue::Atom(Atom::Int(1))),
                    ]
                })),
                ConfEntry::Optional(None),
                ConfEntry::Required(FieldValue::List(vec![str_atom("item")])),
            ]
        }
    );
}

#[test]
fn from_fixed_env() {
    let mut port = leaf("port", Ty::Atom(AtomTy::Int));
    port.env = Some("MY_APP_PORT".to_string());
    let shape = shape_of(vec![port]);
    let env = env_of(&[("MY_APP_PORT", "3000")]);

    let mut loader = ConfigLoader::new(shape).unwrap();
    loader.env_with_provider(&env).unwrap();
    let config = loader.finish().unwrap();

    assert_eq!(config.entries[0], ConfEntry::Required(FieldValue::Atom(Atom::Int(3000))));
}

#[test]
fn from_env_with_prefix() {
    let mut port = leaf("port", Ty::Atom(AtomTy::Int));
    port.env = Some("PORT".to_string());
    let mut list = leaf("list", Ty::List(AtomTy::Str));
    list.env = Some("{}LIST_RENAMED".to_string());
    list.parse = ParsePolicy::CommaSeparated;
    let mut optional = leaf("opt", Ty::Atom(AtomTy::Str));
    optional.optional = true;
    let mut shape = shape_of(vec![port, list, optional]);
    shape.env_prefix = Some("{}CONF_".to_string());

    let env = env_of(&[
        ("PORT", "3000"),
        ("MY_APP_CONF_LIST_RENAMED", "item1,item2"),
        ("MY_APP_CONF_OPT", "optional"),
    ]);

    let mut loader = ConfigLoader::new(shape).unwrap();
    loader.env_with_provider_and_prefix(&env, "MY_APP_").unwrap();
    let config = loader.finish().unwrap();

    assert_eq!(config.entries[0], ConfEntry::Required(FieldValue::Atom(Atom::Int(3000))));
    assert_eq!(
        config.entries[1],
        ConfEntry::Required(FieldValue::List(vec![str_atom("item1"), str_atom("item2")]))
    );
    assert_eq!(
        config.entries[2],
        ConfEntry::Optional(Some(FieldValue::Atom(str_atom("optional"))))
    );
}

#[test]
fn from_json_code() {
    let mut loader = ConfigLoader::new(port_shape()).unwrap();
    loader
        .code(
            r#"
        {
          "port": 3000
        }
        "#,
            Format::Json,
        )
        .unwrap();
    let config = loader.finish().unwrap();

    assert_eq!(config.entries[0], ConfEntry::Required(FieldValue::Atom(Atom::Int(3000))));
}

#[test]
fn should_load_jsonc_code() {
    let mut loader = ConfigLoader::new(port_shape()).unwrap();
    loader
        .code(
            r#"
        {
          // this is a comment
          "port": 3000
        }
        "#,
            Format::Jsonc,
        )
        .unwrap();
    let config = loader.finish().unwrap();

    assert_eq!(config.entries[0], ConfEntry::Required(FieldValue::Atom(Atom::Int(3000))));
}

#[test]
fn should_load_toml_code() {
    let mut loader = ConfigLoader::new(port_shape()).unwrap();
    loader
        .code(
            r#"
        port = 3000
        "#,
            Format::Toml,
        )
        .unwrap();
    let config = loader.finish().unwrap();

    assert_eq!(config.entries[0], ConfEntry::Required(FieldValue::Atom(Atom::Int(3000))));
}

#[test]
fn should_load_yaml_code() {
    let mut loader = ConfigLoader::new(port_shape()).unwrap();
    loader
        .code(
            r#"
        port: 3000
        "#,
            Format::Yaml,
        )
        .unwrap();
    let config = loader.finish().unwrap();

    assert_eq!(config.entries[0], ConfEntry::Required(FieldValue::Atom(Atom::Int(3000))));
}

#[test]
fn should_load_env() {
    let env = env_of(&[("PORT", "3000")]);
    let mut loader = ConfigLoader::new(port_shape()).unwrap();
    loader.env_with_provider(&env).unwrap();
    let config = loader.finish().unwrap();

    assert_eq!(config.entries[0], ConfEntry::Required(FieldValue::Atom(Atom::Int(3000))));
}

#[test]
fn should_accumulate_partial_states() {
    let mut loader = ConfigLoader::new(port_shape()).unwrap();
    loader
        .code(
            r#"
        port: 3000
        "#,
            Format::Yaml,
        )
        .unwrap();
    assert_eq!(
        loader.partial_state().entries[0],
        Entry::Leaf(FieldValue::Atom(Atom::Int(3000)))
    );

    loader
        .code(
            r#"
        port: 3001
        "#,
            Format::Yaml,
        )
        .unwrap();
    assert_eq!(
        loader.partial_state().entries[0],
        Entry::Leaf(FieldValue::Atom(Atom::Int(3001)))
    );
}

#[test]
fn should_merge_partal_states() {
    let shape = shape_of(vec![
        leaf("port", Ty::Atom(AtomTy::Int)),
        leaf("addr", Ty::Atom(AtomTy::Str)),
    ]);
    let mut loader = ConfigLoader::new(shape).unwrap();
    loader
        .code(
            r#"
        port: 3000
        addr: "addr"
        "#,
            Format::Yaml,
        )
        .unwrap();
    loader
        .code(
            r#"
        port: 3001
        "#,
            Format::Yaml,
        )
        .unwrap();

    let partial = loader.partial_state();
    assert_eq!(partial.entries[0], Entry::Leaf(FieldValue::Atom(Atom::Int(3001))));
    assert_eq!(partial.entries[1], Entry::Leaf(FieldValue::Atom(str_atom("addr"))));

    let config = loader.finish().unwrap();
    assert_eq!(config.entries[0], ConfEntry::Required(FieldValue::Atom(Atom::Int(3001))));
    assert_eq!(config.entries[1], ConfEntry::Required(FieldValue::Atom(str_atom("addr"))));
}

#[test]
fn should_error_on_missing_properties() {
    let shape = shape_of(vec![
        leaf("port", Ty::Atom(AtomTy::Int)),
        leaf("addr", Ty::Atom(AtomTy::Str)),
    ]);
    let mut loader = ConfigLoader::new(shape).unwrap();
    loader
        .code(
            r#"
        port: 3000
        "#,
            Format::Yaml,
        )
        .unwrap();

    let err = loader.finish().unwrap_err();
    match err {
        Error::FromPartial(e) => assert_eq!(e.missing_properties, vec!["addr".to_string()]),
        other => panic!("expected a missing-properties error, got {:?}", other),
    }
}

#[test]
fn should_list_missing_properties_and_error() {
    let shape = shape_of(vec![
        leaf("port", Ty::Atom(AtomTy::Int)),
        leaf("addr", Ty::Atom(AtomTy::Str)),
    ]);
    let mut loader = ConfigLoader::new(shape).unwrap();
    loader
        .code(
            r#"
        port: 3000
        "#,
            Format::Yaml,
        )
        .unwrap();

    let missing = loader.partial_state().list_missing_properties(&loader.shape);
    assert_eq!(missing, ["addr"]);

    assert!(loader.finish().is_err());
}

#[test]
fn should_not_list_missing_properties_that_are_optional() {
    let mut addr = leaf("addr", Ty::Atom(AtomTy::Str));
    addr.optional = true;
    let shape = shape_of(vec![leaf("port", Ty::Atom(AtomTy::Int)), addr]);
    let mut loader = ConfigLoader::new(shape).unwrap();
    loader
        .code(
            r#"
        port: 3000
        "#,
            Format::Yaml,
        )
        .unwrap();

    let missing = loader.partial_state().list_missing_properties(&loader.shape);
    assert_eq!(missing, Vec::<String>::new());
    assert!(loader.finish().is_ok());
}

#[test]
fn should_skip_env() {
    let mut port = leaf("port", Ty::Atom(AtomTy::Int));
    port.skip_env = true;
    let shape = shape_of(vec![port]);
    let env = env_of(&[("PORT", "3000")]);

    let mut loader = ConfigLoader::new(shape).unwrap();
    loader.env_with_provider(&env).unwrap();
    let missing = loader.partial_state().list_missing_properties(&loader.shape);
    assert_eq!(missing, vec!["port"]);

    loader.finish().unwrap_err();
}

#[test]
fn should_skip_env_for_nested() {
    let mut port = leaf("port", Ty::Atom(AtomTy::Int));
    port.skip_env = true;
    let shape = shape_of(vec![nested_field("nested", shape_of(vec![port]))]);
    let env = env_of(&[("NESTED_PORT", "3000")]);

    let mut loader = ConfigLoader::new(shape).unwrap();
    loader.env_with_provider(&env).unwrap();
    let missing = loader.partial_state().list_missing_properties(&loader.shape);
    assert_eq!(missing, ["nested.port"]);

    loader.finish().unwrap_err();
}

#[test]
fn should_skip_env_for_nested_with_prefix() {
    let mut port = leaf("port", Ty::Atom(AtomTy::Int));
    port.skip_env = true;
    let shape = shape_of(vec![nested_field("nested", shape_of(vec![port]))]);
    let env = env_of(&[("MY_APP_N_PORT", "3000")]);

    let mut loader = ConfigLoader::new(shape).unwrap();
    loader.env_with_provider_and_prefix(&env, "MY_APP_").unwrap();
    let missing = loader.partial_state().list_missing_properties(&loader.shape);
    assert_eq!(missing, ["nested.port"]);

    loader.finish().unwrap_err();
}

#[test]
fn should_override_with_env() {
    let env = env_of(&[("PORT", "3000")]);
    let mut loader = ConfigLoader::new(port_shape()).unwrap();
    loader
        .code(
            r#"
        port: 3001
        "#,
            Format::Yaml,
        )
        .unwrap();
    loader.env_with_provider(&env).unwrap();
    let config = loader.finish().unwrap();

    assert_eq!(config.entries[0], ConfEntry::Required(FieldValue::Atom(Atom::Int(3000))));
}

#[test]
fn should_override_with_env_with_prefix() {
    let mut shape = port_shape();
    shape.env_prefix = Some("{}CONF_".to_string());
    let env = env_of(&[("MY_APP_CONF_PORT", "3000")]);

    let mut loader = ConfigLoader::new(shape).unwrap();
    loader
        .code(
            r#"
        port: 3001
        "#,
            Format::Yaml,
        )
        .unwrap();
    loader.env_with_provider_and_prefix(&env, "MY_APP_").unwrap();
    let config = loader.finish().unwrap();

    assert_eq!(config.entries[0], ConfEntry::Required(FieldValue::Atom(Atom::Int(3000))));
}

#[test]
fn should_override_with_env_with_prefix_and_rename() {
    // The field is declared `port_renamed` but renamed `port`: its
    // effective name and environment segment both follow the rename.
    let mut port = leaf("port", Ty::Atom(AtomTy::Int));
    port.env_name = Inflection::UpperSnake.apply("port");
    let mut shape = shape_of(vec![port]);
    shape.env_prefix = Some("{}CONF_".to_string());
    let env = env_of(&[("MY_APP_CONF_PORT", "3000")]);

    let mut loader = ConfigLoader::new(shape).unwrap();
    loader
        .code(
            r#"
        port: 3001
        "#,
            Format::Yaml,
        )
        .unwrap();
    loader.env_with_provider_and_prefix(&env, "MY_APP_").unwrap();
    let config = loader.finish().unwrap();

    assert_eq!(config.entries[0], ConfEntry::Required(FieldValue::Atom(Atom::Int(3000))));
}

#[test]
fn should_override_with_env_with_prefix_and_rename_and_nested() {
    let port = leaf("port", Ty::Atom(AtomTy::Int));
    let mut shape = shape_of(vec![nested_field("nested", shape_of(vec![port]))]);
    shape.env_prefix = Some("{}CONF_".to_string());
    let env = env_of(&[("MY_APP_CONF_NESTED_PORT", "3000")]);

    let mut loader = ConfigLoader::new(shape).unwrap();
    loader
        .code(
            r#"
        nested:
          port: 3001
        "#,
            Format::Yaml,
        )
        .unwrap();
    loader.env_with_provider_and_prefix(&env, "MY_APP_").unwrap();
    let config = loader.finish().unwrap();

    let nested = match &config.entries[0] {
        ConfEntry::Nested(c) => c,
        other => panic!("expected a nested configuration, got {:?}", other),
    };
    assert_eq!(nested.entries[0], ConfEntry::Required(FieldValue::Atom(Atom::Int(3000))));
}

#[test]
fn should_error_on_invalid_type() {
    let mut loader = ConfigLoader::new(port_shape()).unwrap();
    loader
        .code(
            r#"
        {
          "port": "3001"
        }
        "#,
            Format::Json,
        )
        .unwrap_err();
}

#[test]
fn should_not_list_as_missing_optional_types() {
    let mut port = leaf("port", Ty::Atom(AtomTy::Int));
    port.optional = true;
    let loader = ConfigLoader::new(shape_of(vec![port])).unwrap();
    let missing = loader.partial_state().list_missing_properties(&loader.shape);
    assert_eq!(missing, Vec::<String>::new());
}

#[test]
fn should_work_for_nested_optional_types() {
    let mut nested = nested_field("nested", port_shape());
    nested.optional = true;
    let shape = shape_of(vec![nested]);

    let mut loader = ConfigLoader::new(shape).unwrap();
    loader
        .code(
            r#"
        nested:
          port: 3000
        "#,
            Format::Yaml,
        )
        .unwrap();
    let config = loader.finish().unwrap();

    assert_eq!(
        config,
        Conf {
            entries: vec![ConfEntry::OptionalNested(Some(Box::new(Conf {
                entries: vec![ConfEntry::Required(FieldValue::Atom(Atom::Int(3000)))]
            })))]
        }
    );
}

#[test]
fn should_work_for_nested_optional_missing_values() {
    let mut nested = nested_field("nested", port_shape());
    nested.optional = true;
    let shape = shape_of(vec![nested]);

    let loader = ConfigLoader::new(shape).unwrap();
    let config = loader.finish().unwrap();

    assert_eq!(config, Conf { entries: vec![ConfEntry::OptionalNested(None)] });
}

#[test]
fn should_respect_defaults_from_attrs() {
    let mut port = leaf("port", Ty::Atom(AtomTy::Int));
    port.default = Some(FieldValue::Atom(Atom::Int(3000)));
    let shape = shape_of(vec![port]);

    let mut loader = ConfigLoader::new(shape).unwrap();
    loader.defaults().unwrap();
    let config = loader.finish().unwrap();

    assert_eq!(config.entries[0], ConfEntry::Required(FieldValue::Atom(Atom::Int(3000))));
}

#[test]
fn should_respect_defaults_for_nested_configs() {
    let mut port = leaf("port", Ty::Atom(AtomTy::Int));
    port.default = Some(FieldValue::Atom(Atom::Int(3000)));
    let shape = shape_of(vec![nested_field("nested", shape_of(vec![port]))]);

    let mut loader = ConfigLoader::new(shape).unwrap();
    loader.defaults().unwrap();
    let config = loader.finish().unwrap();

    assert_eq!(
        config,
        Conf {
            entries: vec![ConfEntry::Nested(Box::new(Conf {
                entries: vec![ConfEntry::Required(FieldValue::Atom(Atom::Int(3000)))]
            }))]
        }
    );
}

#[test]
fn should_work_with_custom_merge_functions() {
    let mut list = leaf("list", Ty::List(AtomTy::Str));
    list.merge = MergePolicy::Append;
    list.skip_env = true;
    let shape = shape_of(vec![list]);

    let mut loader = ConfigLoader::new(shape).unwrap();
    loader
        .code(
            r#"
        list = ["item1"]
        "#,
            Format::Toml,
        )
        .unwrap();
    loader
        .code(
            r#"
        list = ["item2"]
        "#,
            Format::Toml,
        )
        .unwrap();
    let config = loader.finish().unwrap();

    assert_eq!(
        config.entries[0],
        ConfEntry::Required(FieldValue::List(vec![str_atom("item1"), str_atom("item2")]))
    );
}

#[test]
fn should_error_on_unkown_extra_properties() {
    let mut loader = ConfigLoader::new(port_shape()).unwrap();
    loader
        .code(
            r#"
        port: 3000
        addr: "addr"
        "#,
            Format::Yaml,
        )
        .unwrap_err();
}

#[test]
fn should_not_error_on_unkown_extra_properties_with_allow_unkown_fields_attr() {
    let mut shape = port_shape();
    shape.allow_unknown = true;

    let mut loader = ConfigLoader::new(shape).unwrap();
    loader
        .code(
            r#"
        port: 3000
        addr: "addr"
        "#,
            Format::Yaml,
        )
        .unwrap();
    let config = loader.finish().unwrap();

    assert_eq!(config.entries[0], ConfEntry::Required(FieldValue::Atom(Atom::Int(3000))));
}
