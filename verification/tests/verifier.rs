use selection_mapping::domain::FieldMapping;
use selection_mapping::domain::MappingExpression;
use selection_mapping::domain::SelectionFields;
use selection_mapping::parser::selection_parser;
use selection_mapping::verify::error::Error;
use selection_mapping::verify::verify;
use selection_mapping::verify::SchemaCapability;

fn schema(names: &[&str]) -> SchemaCapability {
    SchemaCapability {
        field_names: names.iter().map(|n| n.to_string()).collect(),
    }
}

#[test]
fn selection_within_schema_verifies() {
    let parsed = selection_parser("id: account_number, name").unwrap();
    let selection: SelectionFields = parsed.into();
    let cap = schema(&["id", "name", "status"]);
    assert_eq!(verify(&selection, &cap), Ok(()));
}

#[test]
fn missing_field_is_reported() {
    let parsed = selection_parser("id: account_number, bank: {$args.bank}").unwrap();
    let selection: SelectionFields = parsed.into();
    let cap = schema(&["id"]);
    assert_eq!(
        verify(&selection, &cap),
        Err(Error::MissingField("bank".to_string()))
    );
}

#[test]
fn nested_fields_are_walked() {
    let parsed = selection_parser("variants { name, price }").unwrap();
    let selection: SelectionFields = parsed.into();
    let cap = schema(&["variants", "name"]);
    assert_eq!(
        verify(&selection, &cap),
        Err(Error::MissingField("price".to_string()))
    );
}

#[test]
fn alias_nested_fields_are_walked() {
    let selection = SelectionFields {
        fields: vec![FieldMapping {
            field_name: "outer".to_string(),
            expression: MappingExpression::AliasNested {
                source: "renamed".to_string(),
                fields: vec![FieldMapping {
                    field_name: "inner".to_string(),
                    expression: MappingExpression::Direct,
                }],
            },
        }],
    };
    let cap = schema(&["outer"]);
    assert_eq!(
        verify(&selection, &cap),
        Err(Error::MissingField("inner".to_string()))
    );
}
