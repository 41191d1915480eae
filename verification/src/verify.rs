//! Checking a parsed selection against the field names of a schema type.
//!
//! The schema is consulted through a read-only capability that lists the
//! field names of the target type. The verifier walks every field mapping in
//! declaration order, recursing into nested blocks, and reports the first
//! referenced field that the schema type does not have.

use vstd::prelude::*;

use vstd::string::StrSliceExecFns;

use crate::domain::ExprV;
use crate::domain::FieldMapping;
use crate::domain::FieldV;
use crate::domain::MappingExpression;
use crate::domain::SelectionFields;
use crate::domain::view_field;
use crate::domain::view_fields;

use self::error::Error;

pub mod error;

verus! {

/// A read-only schema capability: the field names of one schema type.
#[derive(Debug, PartialEq, Eq)]
pub struct SchemaCapability {
    /// The names of the fields that the target type declares.
    pub field_names: Vec<String>,
}

impl View for SchemaCapability {
    type V = Seq<Seq<char>>;

    open spec fn view(&self) -> Seq<Seq<char>> {
        Seq::new(
            self.field_names@.len(),
            |i: int|
                if 0 <= i < self.field_names@.len() {
                    self.field_names@[i]@
                } else {
                    Seq::empty()
                },
        )
    }
}

/// Whether the schema type declares a field of the given name.
pub open spec fn schema_has(names: Seq<Seq<char>>, n: Seq<char>) -> bool {
    exists|i: int| 0 <= i < names.len() && names[i] == n
}

/// The first field name referenced below an expression that the schema type
/// does not declare, in depth-first declaration order.
pub open spec fn first_missing_expr(e: ExprV, names: Seq<Seq<char>>) -> Option<Seq<char>>
    decreases e,
{
    match e {
        ExprV::Nested { fields } => first_missing_fields(fields, names),
        ExprV::AliasNested { source, fields } => first_missing_fields(fields, names),
        _ => None,
    }
}

/// The first field name referenced by a field list that the schema type does
/// not declare, in depth-first declaration order.
pub open spec fn first_missing_fields(fs: Seq<FieldV>, names: Seq<Seq<char>>) -> Option<Seq<char>>
    decreases fs,
{
    if fs.len() == 0 {
        None
    } else if !schema_has(names, fs[0].field_name) {
        Some(fs[0].field_name)
    } else {
        match first_missing_expr(fs[0].expression, names) {
            Some(n) => Some(n),
            None => first_missing_fields(fs.drop_first(), names),
        }
    }
}

fn eq_string(a: &String, b: &String) -> (r: bool)
    ensures
        r == (a@ == b@),
{
    let an = a.as_str().unicode_len();
    let bn = b.as_str().unicode_len();
    if an != bn {
        proof {
            if a@ == b@ {
                assert(a@.len() == b@.len());
            }
        }
        return false;
    }
    let mut i: usize = 0;
    while i < an
        invariant
            i <= an,
            an == a@.len(),
            an == b@.len(),
            forall|m: int| 0 <= m < i ==> a@[m] == b@[m],
        decreases an - i,
    {
        if a.as_str().get_char(i) != b.as_str().get_char(i) {
            return false;
        }
        i = i + 1;
    }
    proof {
        assert(a@ =~= b@);
    }
    true
}

fn schema_contains(schema: &SchemaCapability, name: &String) -> (b: bool)
    ensures
        b == schema_has(schema@, name@),
{
    let n = schema.field_names.len();
    let mut i: usize = 0;
    while i < n
        invariant
            i <= n,
            n == schema.field_names@.len(),
            forall|m: int| 0 <= m < i ==> schema@[m] != name@,
        decreases n - i,
    {
        if eq_string(&schema.field_names[i], name) {
            proof {
                assert(schema@[i as int] == name@);
            }
            return true;
        }
        i = i + 1;
    }
    false
}

fn missing_in_fields(fs: &Vec<FieldMapping>, schema: &SchemaCapability) -> (r: Option<String>)
    ensures
        match r {
            Some(n) => first_missing_fields(view_fields(fs@), schema@) == Some(n@),
            None => first_missing_fields(view_fields(fs@), schema@) is None,
        },
    decreases fs@,
{
    let ghost v = view_fields(fs@);
    let n = fs.len();
    let mut i: usize = 0;
    proof {
        assert(v.skip(0) =~= v);
    }
    while i < n
        invariant
            i <= n,
            n == fs.len(),
            v == view_fields(fs@),
            first_missing_fields(v, schema@) == first_missing_fields(v.skip(i as int), schema@),
        decreases n - i,
    {
        proof {
            assert(v.skip(i as int)[0] == view_field(fs@[i as int]));
            assert(v.skip(i as int).drop_first() =~= v.skip(i as int + 1));
        }
        if !schema_contains(schema, &fs[i].field_name) {
            let name = fs[i].field_name.clone();
            proof {
                assert(name@ == fs@[i as int].field_name@);
            }
            return Some(name);
        }
        match &fs[i].expression {
            MappingExpression::Nested { fields } => {
                match missing_in_fields(fields, schema) {
                    Some(m) => {
                        proof {
                            assert(view_field(fs@[i as int]).expression == ExprV::Nested {
                                fields: view_fields(fields@),
                            });
                            assert(v.skip(i as int)[0] == view_field(fs@[i as int]));
                            assert(schema_has(schema@, v.skip(i as int)[0].field_name));
                            assert(first_missing_expr(
                                v.skip(i as int)[0].expression,
                                schema@,
                            ) == Some(m@));
                            assert(first_missing_fields(v.skip(i as int), schema@) == Some(m@));
                        }
                        return Some(m);
                    },
                    None => {},
                }
            },
            MappingExpression::AliasNested { source, fields } => {
                match missing_in_fields(fields, schema) {
                    Some(m) => {
                        proof {
                            assert(view_field(fs@[i as int]).expression == ExprV::AliasNested {
                                source: source@,
                                fields: view_fields(fields@),
                            });
                            assert(v.skip(i as int)[0] == view_field(fs@[i as int]));
                            assert(schema_has(schema@, v.skip(i as int)[0].field_name));
                            assert(first_missing_expr(
                                v.skip(i as int)[0].expression,
                                schema@,
                            ) == Some(m@));
                            assert(first_missing_fields(v.skip(i as int), schema@) == Some(m@));
                        }
                        return Some(m);
                    },
                    None => {},
                }
            },
            _ => {},
        }
        i = i + 1;
    }
    None
}

/// Walks every field mapping of the selection, recursing into nested blocks,
/// and reports the first referenced field that the schema type does not
/// declare; a selection whose every referenced field exists verifies.
pub fn verify(selection: &SelectionFields, schema: &SchemaCapability) -> (r: Result<(), Error>)
    ensures
        match r {
            Ok(u) => first_missing_fields(selection@, schema@) is None,
            Err(e) => match e {
                Error::MissingField(n) => first_missing_fields(selection@, schema@) == Some(n@),
            },
        },
{
    match missing_in_fields(&selection.fields, schema) {
        Some(n) => Err(Error::MissingField(n)),
        None => Ok(()),
    }
}

} // verus!
