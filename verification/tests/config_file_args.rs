use orage::config_file::{convert_toml_value, table_to_configs, toml_to_configs, TomlValue};

fn pairs(v: &[(&str, &str)]) -> Vec<(String, String)> {
    v.iter().map(|(a, b)| (a.to_string(), b.to_string())).collect()
}

#[test]
fn scalars_give_one_pair() {
    assert_eq!(convert_toml_value("k".to_string(), TomlValue::String("v".to_string())), pairs(&[("k", "v")]));
    assert_eq!(convert_toml_value("n".to_string(), TomlValue::Integer(42)), pairs(&[("n", "42")]));
    assert_eq!(convert_toml_value("n".to_string(), TomlValue::Integer(0)), pairs(&[("n", "0")]));
    assert_eq!(convert_toml_value("n".to_string(), TomlValue::Integer(-17)), pairs(&[("n", "-17")]));
    assert_eq!(
        convert_toml_value("n".to_string(), TomlValue::Integer(i64::MIN)),
        pairs(&[("n", "-9223372036854775808")])
    );
    assert_eq!(convert_toml_value("b".to_string(), TomlValue::Boolean(true)), pairs(&[("b", "true")]));
    assert_eq!(convert_toml_value("b".to_string(), TomlValue::Boolean(false)), pairs(&[("b", "false")]));
    assert_eq!(convert_toml_value("f".to_string(), TomlValue::Float(1.5f64.to_string())), pairs(&[("f", "1.5")]));
    assert_eq!(
        convert_toml_value("d".to_string(), TomlValue::Datetime("1979-05-27T07:32:00Z".to_string())),
        pairs(&[("d", "1979-05-27T07:32:00Z")])
    );
}

#[test]
fn tables_give_nothing() {
    assert_eq!(convert_toml_value("t".to_string(), TomlValue::Table), pairs(&[]));
}

#[test]
fn arrays_are_flattened_in_order() {
    let v = TomlValue::Array(vec![
        TomlValue::Integer(1),
        TomlValue::Array(vec![TomlValue::String("x".to_string()), TomlValue::Table]),
        TomlValue::Boolean(true),
    ]);
    assert_eq!(convert_toml_value("peer".to_string(), v), pairs(&[("peer", "1"), ("peer", "x"), ("peer", "true")]));
    assert_eq!(convert_toml_value("e".to_string(), TomlValue::Array(Vec::new())), pairs(&[]));
}

#[test]
fn table_entries_become_options() {
    let table = vec![
        ("bitcoind-port".to_string(), TomlValue::Integer(18443)),
        ("peers".to_string(), TomlValue::Array(vec![
            TomlValue::String("a@h:1".to_string()),
            TomlValue::String("b@h:2".to_string()),
        ])),
        ("nested".to_string(), TomlValue::Table),
        ("verbose".to_string(), TomlValue::Boolean(false)),
    ];
    assert_eq!(
        table_to_configs(table),
        vec![
            "--bitcoind-port=18443".to_string(),
            "--peers=a@h:1".to_string(),
            "--peers=b@h:2".to_string(),
            "--verbose=false".to_string(),
        ]
    );
    assert!(table_to_configs(Vec::new()).is_empty());
}

#[test]
fn toml_text_becomes_options_in_key_order() {
    let text = "port = 9735\nalias = \"node\"\npeers = [\"a\", [\"b\", true]]\nfee = 1.5\n[nested]\nx = 1\n";
    assert_eq!(
        toml_to_configs(text),
        Some(vec![
            "--alias=node".to_string(),
            "--fee=1.5".to_string(),
            "--peers=a".to_string(),
            "--peers=b".to_string(),
            "--peers=true".to_string(),
            "--port=9735".to_string(),
        ])
    );
    assert_eq!(toml_to_configs(""), Some(Vec::new()));
    assert_eq!(toml_to_configs("when = 1979-05-27T07:32:00Z"), Some(vec!["--when=1979-05-27T07:32:00Z".to_string()]));
}

#[test]
fn text_that_is_not_toml_gives_none() {
    assert_eq!(toml_to_configs("port = "), None);
    assert_eq!(toml_to_configs("= 3"), None);
}
