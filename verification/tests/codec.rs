use selection_mapping::codec::SerializationError;
use selection_mapping::domain::FieldMapping;
use selection_mapping::domain::MappingExpression;
use selection_mapping::domain::SelectionFields;
use selection_mapping::domain::TransformFn;
use selection_mapping::parser::selection_parser;

#[test]
fn testing_serde() {
    let input = r#"
        id: account_number,
        name,
        bank: {$args.bank},
        account: data.users->first,
        status: status->match(
        @ => {
            [1 => "online"],
            [0 => "offline"],
            [_ => "suspended"],
        }),
"#;
    let result = selection_parser(input).unwrap();

    let selection_fields: SelectionFields = result.into();
    let text = selection_fields.save();
    let fields = SelectionFields::load(&text).unwrap();

    assert_eq!(selection_fields, fields);
}

#[test]
fn round_trip_covers_every_variant() {
    let selection = SelectionFields {
        fields: vec![
            FieldMapping {
                field_name: "a".to_string(),
                expression: MappingExpression::Direct,
            },
            FieldMapping {
                field_name: "b".to_string(),
                expression: MappingExpression::Alias("other".to_string()),
            },
            FieldMapping {
                field_name: "c".to_string(),
                expression: MappingExpression::NamedArgument("$args.x".to_string()),
            },
            FieldMapping {
                field_name: "d".to_string(),
                expression: MappingExpression::NamedPath("data.x.y".to_string()),
            },
            FieldMapping {
                field_name: "e".to_string(),
                expression: MappingExpression::Transform {
                    source: "data.items".to_string(),
                    transform: TransformFn::First,
                },
            },
            FieldMapping {
                field_name: "f".to_string(),
                expression: MappingExpression::Matcher {
                    source: "status".to_string(),
                    matchers: vec![
                        (Some("1".to_string()), "on".to_string()),
                        (None, "off".to_string()),
                    ],
                },
            },
            FieldMapping {
                field_name: "g".to_string(),
                expression: MappingExpression::AliasNested {
                    source: "inner".to_string(),
                    fields: vec![FieldMapping {
                        field_name: "h".to_string(),
                        expression: MappingExpression::Nested {
                            fields: vec![FieldMapping {
                                field_name: "k".to_string(),
                                expression: MappingExpression::Direct,
                            }],
                        },
                    }],
                },
            },
        ],
    };
    let text = selection.save();
    let back = SelectionFields::load(&text).unwrap();
    assert_eq!(selection, back);
}

#[test]
fn round_trip_preserves_declaration_order() {
    let input = "zeta, alpha, mid { second, first }, omega";
    let parsed = selection_parser(input).unwrap();
    let selection: SelectionFields = parsed.into();
    let text = selection.save();
    let back = SelectionFields::load(&text).unwrap();

    let names: Vec<&str> = back
        .fields
        .iter()
        .map(|f| f.field_name.as_str())
        .collect();
    assert_eq!(names, vec!["zeta", "alpha", "mid", "omega"]);
    assert_eq!(selection, back);
}

#[test]
fn save_is_deterministic_and_self_describing() {
    let one = SelectionFields {
        fields: vec![FieldMapping {
            field_name: "name".to_string(),
            expression: MappingExpression::Direct,
        }],
    };
    let text = one.save();
    assert_eq!(text, "ename]Dz");
}

#[test]
fn malformed_interchange_text_is_rejected() {
    assert_eq!(
        SelectionFields::load("not a selection"),
        Err(SerializationError::Malformed)
    );
    assert_eq!(
        SelectionFields::load("ename]D"),
        Err(SerializationError::Malformed)
    );
    assert_eq!(
        SelectionFields::load("ename]Dzz"),
        Err(SerializationError::Malformed)
    );
    assert!(SelectionFields::load("z").is_ok());
}

#[test]
fn empty_selection_round_trips() {
    let empty = SelectionFields { fields: vec![] };
    let text = empty.save();
    assert_eq!(text, "z");
    let back = SelectionFields::load(&text).unwrap();
    assert_eq!(empty, back);
}
