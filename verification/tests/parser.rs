use selection_mapping::domain::FieldMapping;
use selection_mapping::domain::MappingExpression;
use selection_mapping::domain::TransformFn;
use selection_mapping::parser::map_match_case;
use selection_mapping::parser::match_case_list;
use selection_mapping::parser::match_expression;
use selection_mapping::parser::selection_parser;
use selection_mapping::parser::ParseError;
use selection_mapping::parser::MAX_DEPTH;

#[test]
fn direct_field_name_identifier() {
    let result = selection_parser("name").unwrap();

    assert_eq!(
        result,
        vec![FieldMapping {
            field_name: "name".to_string(),
            expression: MappingExpression::Direct
        }]
    );
}

#[test]
fn alias_field_name_identifier() {
    let result = selection_parser("id: account_number").unwrap();

    assert_eq!(
        result,
        vec![FieldMapping {
            field_name: "id".to_string(),
            expression: MappingExpression::Alias("account_number".to_string())
        }]
    );
}

#[test]
fn match_cases() {
    assert_eq!(
        map_match_case("[1 => online]").unwrap(),
        (Some("1".to_string()), "online".to_string())
    );
    assert_eq!(
        map_match_case("[0 => offline ]").unwrap(),
        (Some("0".to_string()), "offline".to_string())
    );
    assert_eq!(
        map_match_case("[ _ =>  suspended]").unwrap(),
        (None, "suspended".to_string())
    );
}

#[test]
fn multiple_match_cases() {
    let input = "
        [1 => online],
        [0 => offline ],
        [ _ =>  suspended] ";
    let val: Vec<(Option<String>, String)> = match_case_list(input).unwrap();

    assert_eq!(
        val,
        vec![
            (Some("1".to_string()), "online".to_string()),
            (Some("0".to_string()), "offline".to_string()),
            (None, "suspended".to_string()),
        ]
    );
}

#[test]
fn simple_match_exp() {
    let input = r#"match(@ => {
            [1 => "online"],
            [0  => "offline"],
            [_ => "suspended"],
        })"#;
    let result = match_expression(input);

    assert_eq!(
        result,
        Some(vec![
            (Some("1".to_string()), "\"online\"".to_string()),
            (Some("0".to_string()), "\"offline\"".to_string()),
            (None, "\"suspended\"".to_string()),
        ])
    );
}

#[test]
fn field_with_match_expression() {
    let input = r#"
status: status->match(@ => {
    [1 => "online"],
    [0 => "offline"],
    [_ => "suspended"],
})
"#;
    let result = selection_parser(input).unwrap();

    assert_eq!(
        result,
        vec![FieldMapping {
            field_name: "status".to_string(),
            expression: MappingExpression::Matcher {
                source: "status".to_string(),
                matchers: vec![
                    (Some("1".to_string()), "\"online\"".to_string()),
                    (Some("0".to_string()), "\"offline\"".to_string()),
                    (None, "\"suspended\"".to_string()),
                ]
            }
        }]
    );
}

#[test]
fn named_argument_field_name_identifier() {
    let result = selection_parser("bank: {$args.bank}").unwrap();

    assert_eq!(
        result,
        vec![FieldMapping {
            field_name: "bank".to_string(),
            expression: MappingExpression::NamedArgument(String::from("$args.bank"))
        }]
    );
}

#[test]
fn named_path_field_name_identifier() {
    let result = selection_parser("bank: data.result.bank").unwrap();

    assert_eq!(
        result,
        vec![FieldMapping {
            field_name: "bank".to_string(),
            expression: MappingExpression::NamedPath(String::from("data.result.bank"))
        }]
    );
}

#[test]
fn fn_first_with_path() {
    let result = selection_parser("bank: data.result.banks->first").unwrap();

    assert_eq!(
        result,
        vec![FieldMapping {
            field_name: "bank".to_string(),
            expression: MappingExpression::Transform {
                source: "data.result.banks".to_string(),
                transform: TransformFn::First
            }
        }]
    );
}

#[test]
fn fn_first_without_path() {
    let result = selection_parser("bank: banks->first").unwrap();

    assert_eq!(
        result,
        vec![FieldMapping {
            field_name: "bank".to_string(),
            expression: MappingExpression::Transform {
                source: "banks".to_string(),
                transform: TransformFn::First
            }
        }]
    );
}

#[test]
fn multiline() {
    let input = r#"
        id: account_number,
        name,
        bank: {$args.bank},
        account: data.users->first,
        status: status->match(
        @ => {
            [1 => "online"],
            [0 => "offline"],
            [_ => "suspended"],
        }),
"#;
    let result = selection_parser(input).unwrap();

    assert_eq!(
        result,
        vec![
            FieldMapping {
                field_name: "id".to_string(),
                expression: MappingExpression::Alias("account_number".to_string())
            },
            FieldMapping {
                field_name: "name".to_string(),
                expression: MappingExpression::Direct
            },
            FieldMapping {
                field_name: "bank".to_string(),
                expression: MappingExpression::NamedArgument("$args.bank".to_string())
            },
            FieldMapping {
                field_name: "account".to_string(),
                expression: MappingExpression::Transform {
                    source: "data.users".to_string(),
                    transform: TransformFn::First
                }
            },
            FieldMapping {
                field_name: "status".to_string(),
                expression: MappingExpression::Matcher {
                    source: "status".to_string(),
                    matchers: vec![
                        (Some("1".to_string()), "\"online\"".to_string()),
                        (Some("0".to_string()), "\"offline\"".to_string()),
                        (None, "\"suspended\"".to_string()),
                    ]
                }
            }
        ]
    );
}

#[test]
fn simple_nested_values() {
    let input = "
        variants {
          name,
          price
        }";

    let result = selection_parser(input).unwrap();

    assert_eq!(
        result,
        vec![FieldMapping {
            field_name: "variants".to_string(),
            expression: MappingExpression::Nested {
                fields: vec![
                    FieldMapping {
                        field_name: "name".to_string(),
                        expression: MappingExpression::Direct,
                    },
                    FieldMapping {
                        field_name: "price".to_string(),
                        expression: MappingExpression::Direct,
                    },
                ]
            }
        }]
    );
}

#[test]
fn multi_nested_values() {
    let input = "
        variants {
          name,
          tag: variant_tag,
          price {
            original,
            final
          }
        }";
    let result = selection_parser(input).unwrap();

    assert_eq!(
        result,
        vec![FieldMapping {
            field_name: "variants".to_string(),
            expression: MappingExpression::Nested {
                fields: vec![
                    FieldMapping {
                        field_name: "name".to_string(),
                        expression: MappingExpression::Direct,
                    },
                    FieldMapping {
                        field_name: "tag".to_string(),
                        expression: MappingExpression::Alias("variant_tag".to_string())
                    },
                    FieldMapping {
                        field_name: "price".to_string(),
                        expression: MappingExpression::Nested {
                            fields: vec![
                                FieldMapping {
                                    field_name: "original".to_string(),
                                    expression: MappingExpression::Direct,
                                },
                                FieldMapping {
                                    field_name: "final".to_string(),
                                    expression: MappingExpression::Direct,
                                },
                            ]
                        },
                    },
                ]
            }
        }]
    );
}

#[test]
fn empty_input_is_an_empty_selection() {
    assert_eq!(selection_parser("").unwrap(), vec![]);
    assert_eq!(selection_parser("   \n  ").unwrap(), vec![]);
}

#[test]
fn separators_are_interchangeable() {
    let by_comma = selection_parser("id: account_number, name, bank: {$args.bank}").unwrap();
    let by_semicolon = selection_parser("id: account_number; name; bank: {$args.bank}").unwrap();
    let by_newline = selection_parser("id: account_number\n name\n bank: {$args.bank}").unwrap();
    let trailing = selection_parser("id: account_number, name, bank: {$args.bank},").unwrap();
    let mixed = selection_parser("id: account_number; name\n bank: {$args.bank};\n").unwrap();

    assert_eq!(by_comma, by_semicolon);
    assert_eq!(by_comma, by_newline);
    assert_eq!(by_comma, trailing);
    assert_eq!(by_comma, mixed);
    assert_eq!(by_comma.len(), 3);
}

#[test]
fn newline_separated_cases_match_comma_separated() {
    let by_comma = match_expression("match(@ => {[1 => a],[0 => b]})").unwrap();
    let by_newline = match_expression("match(@ => {[1 => a]\n[0 => b]})").unwrap();

    assert_eq!(by_comma, by_newline);
    assert_eq!(by_comma.len(), 2);
}

#[test]
fn invalid_identifier_is_a_recoverable_error() {
    let result = selection_parser("9bad: account_number");
    assert_eq!(
        result,
        Err(ParseError::InvalidIdentifier("9bad".to_string()))
    );

    let aliased = selection_parser("id: 9bad");
    assert_eq!(
        aliased,
        Err(ParseError::InvalidIdentifier("9bad".to_string()))
    );
}

#[test]
fn unknown_transform_is_a_recoverable_error() {
    let result = selection_parser("bank: banks->second");
    assert_eq!(
        result,
        Err(ParseError::UnknownTransform("second".to_string()))
    );
}

#[test]
fn syntax_error_reports_a_position() {
    let result = selection_parser("a: !");
    assert!(matches!(result, Err(ParseError::Syntax { .. })));

    let leftover = selection_parser("name ? tail");
    assert!(matches!(leftover, Err(ParseError::Syntax { .. })));
}

#[test]
fn nesting_beyond_the_maximum_depth_is_rejected() {
    let mut input = String::new();
    for _ in 0..(MAX_DEPTH + 1) {
        input.push_str("a {");
    }
    input.push_str("b");
    for _ in 0..(MAX_DEPTH + 1) {
        input.push_str("}");
    }
    assert_eq!(selection_parser(&input), Err(ParseError::TooDeep));
}

#[test]
fn nesting_at_the_maximum_depth_is_accepted() {
    let mut input = String::new();
    for _ in 0..MAX_DEPTH {
        input.push_str("a {");
    }
    input.push_str("b");
    for _ in 0..MAX_DEPTH {
        input.push_str("}");
    }
    assert!(selection_parser(&input).is_ok());
}

#[test]
fn newline_after_colon_stays_inside_the_entry() {
    let result = selection_parser("a:\nb").unwrap();
    assert_eq!(
        result,
        vec![FieldMapping {
            field_name: "a".to_string(),
            expression: MappingExpression::Alias("b".to_string())
        }]
    );
}

#[test]
fn crlf_line_endings_separate_entries() {
    let result = selection_parser("a\r\nb").unwrap();
    assert_eq!(
        result,
        vec![
            FieldMapping {
                field_name: "a".to_string(),
                expression: MappingExpression::Direct
            },
            FieldMapping {
                field_name: "b".to_string(),
                expression: MappingExpression::Direct
            },
        ]
    );
}

#[test]
fn empty_argument_path_keeps_its_marker() {
    let result = selection_parser("b: {$}").unwrap();
    assert_eq!(
        result,
        vec![FieldMapping {
            field_name: "b".to_string(),
            expression: MappingExpression::NamedArgument("$".to_string())
        }]
    );
}

#[test]
fn transform_fn_lookup_fails_cleanly() {
    assert_eq!(TransformFn::from_name("first"), Some(TransformFn::First));
    assert_eq!(TransformFn::from_name("second"), None);
    assert_eq!(TransformFn::from_name(""), None);
}

#[test]
fn into_alias_composes_renames() {
    assert_eq!(
        MappingExpression::Direct.into_alias("src".to_string()),
        MappingExpression::Alias("src".to_string())
    );
    let nested = MappingExpression::Nested {
        fields: vec![FieldMapping {
            field_name: "name".to_string(),
            expression: MappingExpression::Direct,
        }],
    };
    assert_eq!(
        nested.into_alias("src".to_string()),
        MappingExpression::AliasNested {
            source: "src".to_string(),
            fields: vec![FieldMapping {
                field_name: "name".to_string(),
                expression: MappingExpression::Direct,
            }],
        }
    );
    let alias = MappingExpression::Alias("other".to_string());
    assert_eq!(
        alias.into_alias("src".to_string()),
        MappingExpression::Alias("other".to_string())
    );
}
