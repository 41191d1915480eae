//! The abstract syntax tree produced by the mapping-language parser, together
//! with its mathematical model (deep views onto `Seq`-based ghost values) and
//! the well-formedness invariant that every parsed tree satisfies.

use vstd::prelude::*;

verus! {

/// Functions that transform a source value before it is assigned.
#[derive(Debug, Clone, Copy, PartialEq, Eq, Structural)]
pub enum TransformFn {
    /// Takes the first element of an array value.
    First,
}

/// How one target field derives its value.
#[derive(Debug, PartialEq, Eq)]
pub enum MappingExpression {
    /// The value is read from the source field of the same name.
    Direct,
    /// The value is read from a differently named source field, eg. `id: account_number`.
    Alias(String),
    /// The value is read from a call argument path, eg. `bank: {$args.bank}`.
    NamedArgument(String),
    /// The value is read from a dotted navigation path, eg. `bank: data.bank.name`.
    NamedPath(String),
    /// The value is a source path passed through a named transform, eg. `bank: banks->first`.
    Transform { source: String, transform: TransformFn },
    /// The value is a source path passed through an ordered match/case table.
    Matcher { source: String, matchers: Vec<(Option<String>, String)> },
    /// The value is itself an object described by a recursive field list.
    Nested { fields: Vec<FieldMapping> },
    /// Like `Nested`, but the source object field is renamed as well.
    AliasNested { source: String, fields: Vec<FieldMapping> },
}

/// One entry of a selection: a target field name and the rule for its value.
#[derive(Debug, PartialEq, Eq)]
pub struct FieldMapping {
    /// The target field name; a valid identifier of the schema language.
    pub field_name: String,
    /// The rule by which the field's value is derived.
    pub expression: MappingExpression,
}

/// The root value: an ordered sequence of field mappings, in declaration order.
#[derive(Debug, PartialEq, Eq)]
pub struct SelectionFields {
    /// The field mappings, in source declaration order.
    pub fields: Vec<FieldMapping>,
}

/// The mathematical model of a `MappingExpression`.
pub ghost enum ExprV {
    Direct,
    Alias(Seq<char>),
    NamedArgument(Seq<char>),
    NamedPath(Seq<char>),
    Transform { source: Seq<char>, transform: TransformFn },
    Matcher { source: Seq<char>, matchers: Seq<(Option<Seq<char>>, Seq<char>)> },
    Nested { fields: Seq<FieldV> },
    AliasNested { source: Seq<char>, fields: Seq<FieldV> },
}

/// The mathematical model of a `FieldMapping`.
pub ghost struct FieldV {
    pub field_name: Seq<char>,
    pub expression: ExprV,
}

/// The model of the expression held by a `MappingExpression` value.
pub open spec fn view_expr(e: MappingExpression) -> ExprV
    decreases e,
{
    match e {
        MappingExpression::Direct => ExprV::Direct,
        MappingExpression::Alias(n) => ExprV::Alias(n@),
        MappingExpression::NamedArgument(p) => ExprV::NamedArgument(p@),
        MappingExpression::NamedPath(p) => ExprV::NamedPath(p@),
        MappingExpression::Transform { source, transform } => ExprV::Transform {
            source: source@,
            transform,
        },
        MappingExpression::Matcher { source, matchers } => ExprV::Matcher {
            source: source@,
            matchers: view_cases(matchers@),
        },
        MappingExpression::Nested { fields } => ExprV::Nested { fields: view_fields(fields@) },
        MappingExpression::AliasNested { source, fields } => ExprV::AliasNested {
            source: source@,
            fields: view_fields(fields@),
        },
    }
}

/// The model of one match/case pair.
pub open spec fn view_case(c: (Option<String>, String)) -> (Option<Seq<char>>, Seq<char>) {
    (
        match c.0 {
            Some(p) => Some(p@),
            None => None,
        },
        c.1@,
    )
}

/// The model of a match/case table.
pub open spec fn view_cases(cs: Seq<(Option<String>, String)>) -> Seq<
    (Option<Seq<char>>, Seq<char>),
> {
    Seq::new(
        cs.len(),
        |i: int|
            if 0 <= i < cs.len() {
                view_case(cs[i])
            } else {
                (None, Seq::empty())
            },
    )
}

/// The model of a sequence of field mappings.
pub open spec fn view_fields(fs: Seq<FieldMapping>) -> Seq<FieldV>
    decreases fs,
{
    Seq::new(
        fs.len(),
        |i: int|
            if 0 <= i < fs.len() {
                view_field(fs[i])
            } else {
                FieldV { field_name: Seq::empty(), expression: ExprV::Direct }
            },
    )
}

/// The model of one field mapping.
pub open spec fn view_field(f: FieldMapping) -> FieldV
    decreases f,
{
    FieldV { field_name: f.field_name@, expression: view_expr(f.expression) }
}

impl View for FieldMapping {
    type V = FieldV;

    open spec fn view(&self) -> FieldV {
        view_field(*self)
    }
}

impl View for SelectionFields {
    type V = Seq<FieldV>;

    open spec fn view(&self) -> Seq<FieldV> {
        view_fields(self.fields@)
    }
}

/// An ASCII letter.
pub open spec fn is_letter(c: char) -> bool {
    (97 <= c as u32 && c as u32 <= 122) || (65 <= c as u32 && c as u32 <= 90)
}

/// An ASCII digit.
pub open spec fn is_digit(c: char) -> bool {
    48 <= c as u32 && c as u32 <= 57
}

/// A character allowed inside an identifier: letter, digit or underscore.
pub open spec fn is_ident_char(c: char) -> bool {
    is_letter(c) || is_digit(c) || c == '_'
}

/// Whitespace skipped by the parser.
pub open spec fn is_space(c: char) -> bool {
    c == ' ' || c == '\t' || c == '\n' || c == '\r'
}

/// A valid identifier of the schema language: one or more identifier
/// characters, not starting with a digit.
pub open spec fn is_valid_name(t: Seq<char>) -> bool {
    &&& t.len() > 0
    &&& (is_letter(t[0]) || t[0] == '_')
    &&& forall|i: int| 0 <= i < t.len() ==> is_ident_char(#[trigger] t[i])
}

/// A string free of whitespace and of the `]` delimiter; every string stored
/// in a well-formed tree is of this shape.
pub open spec fn is_clean(t: Seq<char>) -> bool {
    forall|i: int| 0 <= i < t.len() ==> !is_space(#[trigger] t[i]) && t[i] != ']'
}

/// Well-formedness of one match/case pair: a present pattern is a non-empty
/// clean string, and the result is clean.
pub open spec fn wf_case(c: (Option<Seq<char>>, Seq<char>)) -> bool {
    &&& match c.0 {
        Some(p) => p.len() > 0 && is_clean(p),
        None => true,
    }
    &&& is_clean(c.1)
}

/// Well-formedness of an expression: every stored name is a valid identifier,
/// every stored path or literal is a non-empty clean string, and nested field
/// lists are recursively well-formed.
pub open spec fn wf_expr(e: ExprV) -> bool
    decreases e,
{
    match e {
        ExprV::Direct => true,
        ExprV::Alias(n) => is_valid_name(n),
        ExprV::NamedArgument(p) => p.len() > 0 && p[0] == '$' && is_clean(p),
        ExprV::NamedPath(p) => p.len() > 0 && is_clean(p),
        ExprV::Transform { source, transform } => source.len() > 0 && is_clean(source),
        ExprV::Matcher { source, matchers } => {
            &&& source.len() > 0
            &&& is_clean(source)
            &&& forall|i: int| 0 <= i < matchers.len() ==> wf_case(#[trigger] matchers[i])
        },
        ExprV::Nested { fields } => wf_fields(fields),
        ExprV::AliasNested { source, fields } => is_valid_name(source) && wf_fields(fields),
    }
}

/// Well-formedness of one field mapping.
pub open spec fn wf_field(f: FieldV) -> bool
    decreases f,
{
    is_valid_name(f.field_name) && wf_expr(f.expression)
}

/// Well-formedness of a field list: every entry is well-formed.
pub open spec fn wf_fields(fs: Seq<FieldV>) -> bool
    decreases fs,
{
    forall|i: int| 0 <= i < fs.len() ==> wf_field(#[trigger] fs[i])
}

/// A valid identifier contains neither whitespace nor `]`.
pub proof fn lemma_valid_name_is_clean(t: Seq<char>)
    requires
        is_valid_name(t),
    ensures
        is_clean(t),
{
    assert forall|i: int| 0 <= i < t.len() implies !is_space(#[trigger] t[i]) && t[i] != ']' by {
        assert(is_ident_char(t[i]));
    }
}

/// Renaming on alias composition.
pub open spec fn spec_into_alias(e: ExprV, source: Seq<char>) -> ExprV {
    match e {
        ExprV::Direct => ExprV::Alias(source),
        ExprV::Nested { fields } => ExprV::AliasNested { source, fields },
        other => other,
    }
}

impl MappingExpression {
    /// Composes a source rename with an already parsed expression: `Direct`
    /// becomes `Alias`, a nested block becomes `AliasNested`, and every other
    /// variant passes through unchanged.
    pub fn into_alias(self, source: String) -> (r: Self)
        ensures
            view_expr(r) == spec_into_alias(view_expr(self), source@),
    {
        match self {
            Self::Direct => Self::Alias(source),
            Self::Nested { fields } => Self::AliasNested { source, fields },
            others => others,
        }
    }
}

impl TransformFn {
    /// Looks a transform function up by name; `None` for an unknown name.
    /// Today `first` is the only transform function.
    pub fn from_name(value: &str) -> (r: Option<TransformFn>)
        ensures
            r == if value@ =~= "first"@ {
                Some(TransformFn::First)
            } else {
                None::<TransformFn>
            },
    {
        proof {
            reveal_strlit("first");
        }
        let n = value.unicode_len();
        if n == 5 && value.get_char(0) == 'f' && value.get_char(1) == 'i' && value.get_char(2)
            == 'r' && value.get_char(3) == 's' && value.get_char(4) == 't' {
            proof {
                assert(value@ =~= "first"@);
            }
            Some(TransformFn::First)
        } else {
            proof {
                if value@ =~= "first"@ {
                    assert(value@.len() == 5);
                    assert(value@[0] == 'f' && value@[1] == 'i' && value@[2] == 'r' && value@[3]
                        == 's' && value@[4] == 't');
                }
            }
            None
        }
    }
}

impl From<Vec<FieldMapping>> for SelectionFields {
    fn from(fields: Vec<FieldMapping>) -> (r: SelectionFields) {
        SelectionFields { fields }
    }
}

impl vstd::std_specs::convert::FromSpecImpl<Vec<FieldMapping>> for SelectionFields {
    open spec fn obeys_from_spec() -> bool {
        true
    }

    open spec fn from_spec(fields: Vec<FieldMapping>) -> SelectionFields {
        SelectionFields { fields }
    }
}

} // verus!
