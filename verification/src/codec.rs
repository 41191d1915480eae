//! The interchange format: a lossless, order-preserving textual encoding of a
//! selection tree, with its exact inverse.
//!
//! The encoding is self-describing. A string is written as its characters
//! followed by the delimiter `]` (well-formed trees store no `]` anywhere); a
//! list writes `e` before each element and closes with `z`; every expression
//! variant opens with a one-letter tag (`D`irect, `A`lias, ar`G`ument,
//! `P`ath, `T`ransform, `M`atcher, `N`ested, alias-nested `B`), and a
//! transform function is a one-letter tag as well (`F`irst).

use vstd::prelude::*;

use vstd::string::StrSliceExecFns;

use crate::domain::ExprV;
use crate::domain::FieldMapping;
use crate::domain::FieldV;
use crate::domain::MappingExpression;
use crate::domain::SelectionFields;
use crate::domain::TransformFn;
use crate::domain::lemma_valid_name_is_clean;
use crate::domain::view_case;
use crate::domain::view_cases;
use crate::domain::view_expr;
use crate::domain::view_field;
use crate::domain::view_fields;
use crate::domain::wf_case;
use crate::domain::wf_expr;
use crate::domain::wf_field;
use crate::domain::wf_fields;

verus! {

/// The encoding of one stored string: its characters, closed by `]`.
pub open spec fn enc_str(t: Seq<char>) -> Seq<char> {
    t + seq![']']
}

/// The encoding of one match/case pair.
pub open spec fn enc_case(c: (Option<Seq<char>>, Seq<char>)) -> Seq<char> {
    (match c.0 {
        Some(p) => seq!['S'] + enc_str(p),
        None => seq!['U'],
    }) + enc_str(c.1)
}

/// The encoding of a match/case table, in declared order.
pub open spec fn enc_cases(cs: Seq<(Option<Seq<char>>, Seq<char>)>) -> Seq<char>
    decreases cs.len(),
{
    if cs.len() == 0 {
        seq!['z']
    } else {
        seq!['e'] + enc_case(cs[0]) + enc_cases(cs.drop_first())
    }
}

/// The encoding of a transform function.
pub open spec fn enc_transform(t: TransformFn) -> Seq<char> {
    match t {
        TransformFn::First => seq!['F'],
    }
}

/// The encoding of one expression.
pub open spec fn enc_expr(e: ExprV) -> Seq<char>
    decreases e,
{
    match e {
        ExprV::Direct => seq!['D'],
        ExprV::Alias(n) => seq!['A'] + enc_str(n),
        ExprV::NamedArgument(p) => seq!['G'] + enc_str(p),
        ExprV::NamedPath(p) => seq!['P'] + enc_str(p),
        ExprV::Transform { source, transform } => seq!['T'] + enc_str(source) + enc_transform(
            transform,
        ),
        ExprV::Matcher { source, matchers } => seq!['M'] + enc_str(source) + enc_cases(matchers),
        ExprV::Nested { fields } => seq!['N'] + enc_fields(fields),
        ExprV::AliasNested { source, fields } => seq!['B'] + enc_str(source) + enc_fields(fields),
    }
}

/// The encoding of one field mapping: its name, then its expression.
pub open spec fn enc_field(f: FieldV) -> Seq<char>
    decreases f,
{
    enc_str(f.field_name) + enc_expr(f.expression)
}

/// The encoding of a field list, in declaration order.
pub open spec fn enc_fields(fs: Seq<FieldV>) -> Seq<char>
    decreases fs,
{
    if fs.len() == 0 {
        seq!['z']
    } else {
        seq!['e'] + enc_field(fs[0]) + enc_fields(fs.drop_first())
    }
}

/// The encoding of a whole selection.
pub open spec fn enc_selection(fs: Seq<FieldV>) -> Seq<char> {
    enc_fields(fs)
}

/// Decodes one stored string: everything up to the first `]`.
pub open spec fn dec_str(s: Seq<char>) -> Option<(Seq<char>, Seq<char>)>
    decreases s.len(),
{
    if s.len() == 0 {
        None
    } else if s[0] == ']' {
        Some((Seq::empty(), s.drop_first()))
    } else {
        match dec_str(s.drop_first()) {
            Some((t, r)) => Some((seq![s[0]] + t, r)),
            None => None,
        }
    }
}

/// Decodes one match/case pair.
pub open spec fn dec_case(s: Seq<char>) -> Option<((Option<Seq<char>>, Seq<char>), Seq<char>)>
    decreases s.len(),
{
    if s.len() == 0 {
        None
    } else if s[0] == 'S' {
        match dec_str(s.drop_first()) {
            Some((p, r1)) => if r1.len() < s.len() {
                match dec_str(r1) {
                    Some((t, r2)) => Some(((Some(p), t), r2)),
                    None => None,
                }
            } else {
                None
            },
            None => None,
        }
    } else if s[0] == 'U' {
        match dec_str(s.drop_first()) {
            Some((t, r)) => Some(((None, t), r)),
            None => None,
        }
    } else {
        None
    }
}

/// Decodes a match/case table.
pub open spec fn dec_cases(s: Seq<char>) -> Option<
    (Seq<(Option<Seq<char>>, Seq<char>)>, Seq<char>),
>
    decreases s.len(),
{
    if s.len() == 0 {
        None
    } else if s[0] == 'z' {
        Some((Seq::empty(), s.drop_first()))
    } else if s[0] == 'e' {
        match dec_case(s.drop_first()) {
            Some((c, r1)) => if r1.len() < s.len() {
                match dec_cases(r1) {
                    Some((cs, r2)) => Some((seq![c] + cs, r2)),
                    None => None,
                }
            } else {
                None
            },
            None => None,
        }
    } else {
        None
    }
}

/// Decodes one expression, dispatching on the variant tag.
pub open spec fn dec_expr(s: Seq<char>) -> Option<(ExprV, Seq<char>)>
    decreases s.len(),
{
    if s.len() == 0 {
        None
    } else if s[0] == 'D' {
        Some((ExprV::Direct, s.drop_first()))
    } else if s[0] == 'A' {
        match dec_str(s.drop_first()) {
            Some((n, r)) => Some((ExprV::Alias(n), r)),
            None => None,
        }
    } else if s[0] == 'G' {
        match dec_str(s.drop_first()) {
            Some((p, r)) => Some((ExprV::NamedArgument(p), r)),
            None => None,
        }
    } else if s[0] == 'P' {
        match dec_str(s.drop_first()) {
            Some((p, r)) => Some((ExprV::NamedPath(p), r)),
            None => None,
        }
    } else if s[0] == 'T' {
        match dec_str(s.drop_first()) {
            Some((source, r1)) => if r1.len() > 0 && r1[0] == 'F' {
                Some((ExprV::Transform { source, transform: TransformFn::First }, r1.drop_first()))
            } else {
                None
            },
            None => None,
        }
    } else if s[0] == 'M' {
        match dec_str(s.drop_first()) {
            Some((source, r1)) => if r1.len() < s.len() {
                match dec_cases(r1) {
                    Some((matchers, r2)) => Some((ExprV::Matcher { source, matchers }, r2)),
                    None => None,
                }
            } else {
                None
            },
            None => None,
        }
    } else if s[0] == 'N' {
        match dec_fields(s.drop_first()) {
            Some((fields, r)) => Some((ExprV::Nested { fields }, r)),
            None => None,
        }
    } else if s[0] == 'B' {
        match dec_str(s.drop_first()) {
            Some((source, r1)) => if r1.len() < s.len() {
                match dec_fields(r1) {
                    Some((fields, r2)) => Some((ExprV::AliasNested { source, fields }, r2)),
                    None => None,
                }
            } else {
                None
            },
            None => None,
        }
    } else {
        None
    }
}

/// Decodes one field mapping.
pub open spec fn dec_field(s: Seq<char>) -> Option<(FieldV, Seq<char>)>
    decreases s.len(),
{
    match dec_str(s) {
        Some((name, r1)) => if r1.len() < s.len() {
            match dec_expr(r1) {
                Some((e, r2)) => Some((FieldV { field_name: name, expression: e }, r2)),
                None => None,
            }
        } else {
            None
        },
        None => None,
    }
}

/// Decodes a field list.
pub open spec fn dec_fields(s: Seq<char>) -> Option<(Seq<FieldV>, Seq<char>)>
    decreases s.len(),
{
    if s.len() == 0 {
        None
    } else if s[0] == 'z' {
        Some((Seq::empty(), s.drop_first()))
    } else if s[0] == 'e' {
        match dec_field(s.drop_first()) {
            Some((f, r1)) => if r1.len() < s.len() {
                match dec_fields(r1) {
                    Some((fs, r2)) => Some((seq![f] + fs, r2)),
                    None => None,
                }
            } else {
                None
            },
            None => None,
        }
    } else {
        None
    }
}

/// Decodes a whole selection; the text must hold exactly one field list.
pub open spec fn dec_selection(s: Seq<char>) -> Option<Seq<FieldV>> {
    match dec_fields(s) {
        Some((fs, r)) => if r.len() == 0 {
            Some(fs)
        } else {
            None
        },
        None => None,
    }
}

/// A text handed to `load` that is not the encoding of any selection.
#[derive(Debug, Clone, Copy, PartialEq, Eq, Structural)]
pub enum SerializationError {
    /// The text does not decode to a selection.
    Malformed,
}

/// A delimiter-free text decodes to no string at all.
proof fn lemma_dec_str_no_delim(s: Seq<char>)
    requires
        forall|i: int| 0 <= i < s.len() ==> #[trigger] s[i] != ']',
    ensures
        dec_str(s) is None,
    decreases s.len(),
{
    if s.len() > 0 {
        lemma_dec_str_no_delim(s.drop_first());
    }
}

/// Decoding an encoded string gives the string back, whatever follows it.
proof fn lemma_dec_enc_str(t: Seq<char>, rest: Seq<char>)
    requires
        forall|i: int| 0 <= i < t.len() ==> #[trigger] t[i] != ']',
    ensures
        dec_str(enc_str(t) + rest) == Some((t, rest)),
    decreases t.len(),
{
    let s = enc_str(t) + rest;
    if t.len() == 0 {
        assert(s[0] == ']');
        assert(s.drop_first() =~= rest);
        assert(dec_str(s) == Some((Seq::<char>::empty(), rest)));
        assert(Seq::<char>::empty() =~= t);
    } else {
        assert(s[0] == t[0]);
        assert(s[0] != ']');
        assert(s.drop_first() =~= enc_str(t.drop_first()) + rest);
        lemma_dec_enc_str(t.drop_first(), rest);
        assert(dec_str(s.drop_first()) == Some((t.drop_first(), rest)));
        assert(seq![s[0]] + t.drop_first() =~= t);
    }
}

/// Decoding an encoded match/case pair gives the pair back.
proof fn lemma_dec_enc_case(c: (Option<Seq<char>>, Seq<char>), rest: Seq<char>)
    requires
        wf_case(c),
    ensures
        dec_case(enc_case(c) + rest) == Some((c, rest)),
{
    let s = enc_case(c) + rest;
    match c.0 {
        Some(p) => {
            assert(s[0] == 'S');
            assert(s.drop_first() =~= enc_str(p) + (enc_str(c.1) + rest));
            lemma_dec_enc_str(p, enc_str(c.1) + rest);
            let r1 = enc_str(c.1) + rest;
            assert(dec_str(s.drop_first()) == Some((p, r1)));
            assert(r1.len() < s.len());
            lemma_dec_enc_str(c.1, rest);
            assert(dec_str(r1) == Some((c.1, rest)));
            assert(dec_case(s) == Some(((Some(p), c.1), rest)));
            assert((Some(p), c.1) == c);
        },
        None => {
            assert(s[0] == 'U');
            assert(s.drop_first() =~= enc_str(c.1) + rest);
            lemma_dec_enc_str(c.1, rest);
            assert(dec_case(s) == Some(((None::<Seq<char>>, c.1), rest)));
            assert((None::<Seq<char>>, c.1) == c);
        },
    }
}

/// Decoding an encoded match/case table gives the table back.
proof fn lemma_dec_enc_cases(cs: Seq<(Option<Seq<char>>, Seq<char>)>, rest: Seq<char>)
    requires
        forall|i: int| 0 <= i < cs.len() ==> wf_case(#[trigger] cs[i]),
    ensures
        dec_cases(enc_cases(cs) + rest) == Some((cs, rest)),
    decreases cs.len(),
{
    let s = enc_cases(cs) + rest;
    if cs.len() == 0 {
        assert(s[0] == 'z');
        assert(s.drop_first() =~= rest);
        assert(Seq::<(Option<Seq<char>>, Seq<char>)>::empty() =~= cs);
    } else {
        assert(s[0] == 'e');
        let tail = enc_cases(cs.drop_first()) + rest;
        assert(s.drop_first() =~= enc_case(cs[0]) + tail);
        assert(wf_case(cs[0]));
        lemma_dec_enc_case(cs[0], tail);
        assert(dec_case(s.drop_first()) == Some((cs[0], tail)));
        assert(tail.len() < s.len());
        assert(forall|i: int|
            0 <= i < cs.drop_first().len() ==> wf_case(#[trigger] cs.drop_first()[i]));
        lemma_dec_enc_cases(cs.drop_first(), rest);
        assert(dec_cases(tail) == Some((cs.drop_first(), rest)));
        assert(seq![cs[0]] + cs.drop_first() =~= cs);
    }
}

/// Decoding an encoded expression gives the expression back.
proof fn lemma_dec_enc_expr(e: ExprV, rest: Seq<char>)
    requires
        wf_expr(e),
    ensures
        dec_expr(enc_expr(e) + rest) == Some((e, rest)),
    decreases e,
{
    let s = enc_expr(e) + rest;
    match e {
        ExprV::Direct => {
            assert(s[0] == 'D');
            assert(s.drop_first() =~= rest);
        },
        ExprV::Alias(n) => {
            assert(s[0] == 'A');
            assert(s.drop_first() =~= enc_str(n) + rest);
            lemma_valid_name_is_clean(n);
            lemma_dec_enc_str(n, rest);
        },
        ExprV::NamedArgument(p) => {
            assert(s[0] == 'G');
            assert(s.drop_first() =~= enc_str(p) + rest);
            lemma_dec_enc_str(p, rest);
        },
        ExprV::NamedPath(p) => {
            assert(s[0] == 'P');
            assert(s.drop_first() =~= enc_str(p) + rest);
            lemma_dec_enc_str(p, rest);
        },
        ExprV::Transform { source, transform } => {
            assert(s[0] == 'T');
            let r1 = enc_transform(transform) + rest;
            assert(s.drop_first() =~= enc_str(source) + r1);
            lemma_dec_enc_str(source, r1);
            assert(dec_str(s.drop_first()) == Some((source, r1)));
            assert(r1[0] == 'F');
            assert(r1.drop_first() =~= rest);
        },
        ExprV::Matcher { source, matchers } => {
            assert(s[0] == 'M');
            let r1 = enc_cases(matchers) + rest;
            assert(s.drop_first() =~= enc_str(source) + r1);
            lemma_dec_enc_str(source, r1);
            assert(dec_str(s.drop_first()) == Some((source, r1)));
            assert(r1.len() < s.len());
            lemma_dec_enc_cases(matchers, rest);
            assert(dec_cases(r1) == Some((matchers, rest)));
        },
        ExprV::Nested { fields } => {
            assert(s[0] == 'N');
            assert(s.drop_first() =~= enc_fields(fields) + rest);
            lemma_dec_enc_fields(fields, rest);
        },
        ExprV::AliasNested { source, fields } => {
            assert(s[0] == 'B');
            let r1 = enc_fields(fields) + rest;
            assert(s.drop_first() =~= enc_str(source) + r1);
            lemma_valid_name_is_clean(source);
            lemma_dec_enc_str(source, r1);
            assert(dec_str(s.drop_first()) == Some((source, r1)));
            assert(r1.len() < s.len());
            lemma_dec_enc_fields(fields, rest);
            assert(dec_fields(r1) == Some((fields, rest)));
        },
    }
}

/// Decoding an encoded field mapping gives the mapping back.
proof fn lemma_dec_enc_field(f: FieldV, rest: Seq<char>)
    requires
        wf_field(f),
    ensures
        dec_field(enc_field(f) + rest) == Some((f, rest)),
    decreases f,
{
    let s = enc_field(f) + rest;
    let r1 = enc_expr(f.expression) + rest;
    assert(s =~= enc_str(f.field_name) + r1);
    lemma_valid_name_is_clean(f.field_name);
    lemma_dec_enc_str(f.field_name, r1);
    assert(dec_str(s) == Some((f.field_name, r1)));
    assert(enc_expr(f.expression).len() > 0);
    assert(r1.len() < s.len());
    lemma_dec_enc_expr(f.expression, rest);
    assert(dec_expr(r1) == Some((f.expression, rest)));
    assert(FieldV { field_name: f.field_name, expression: f.expression } == f);
}

/// Decoding an encoded field list gives the list back.
proof fn lemma_dec_enc_fields(fs: Seq<FieldV>, rest: Seq<char>)
    requires
        wf_fields(fs),
    ensures
        dec_fields(enc_fields(fs) + rest) == Some((fs, rest)),
    decreases fs,
{
    let s = enc_fields(fs) + rest;
    if fs.len() == 0 {
        assert(s[0] == 'z');
        assert(s.drop_first() =~= rest);
        assert(Seq::<FieldV>::empty() =~= fs);
    } else {
        assert(s[0] == 'e');
        let tail = enc_fields(fs.drop_first()) + rest;
        assert(s.drop_first() =~= enc_field(fs[0]) + tail);
        assert(wf_field(fs[0]));
        lemma_dec_enc_field(fs[0], tail);
        assert(dec_field(s.drop_first()) == Some((fs[0], tail)));
        assert(tail.len() < s.len());
        assert(forall|i: int|
            0 <= i < fs.drop_first().len() ==> wf_field(#[trigger] fs.drop_first()[i]));
        lemma_dec_enc_fields(fs.drop_first(), rest);
        assert(dec_fields(tail) == Some((fs.drop_first(), rest)));
        assert(seq![fs[0]] + fs.drop_first() =~= fs);
    }
}

/// The round-trip law: loading a saved well-formed selection gives the same
/// selection back, entry for entry.
pub proof fn lemma_save_load_roundtrip(fs: Seq<FieldV>)
    requires
        wf_fields(fs),
    ensures
        dec_selection(enc_selection(fs)) == Some(fs),
{
    lemma_dec_enc_fields(fs, Seq::empty());
    assert(enc_fields(fs) + Seq::<char>::empty() =~= enc_fields(fs));
}

/// Order preservation through a round trip: the decoded selection holds the
/// same entries at the same positions as the selection that was saved.
pub proof fn lemma_roundtrip_preserves_order(fs: Seq<FieldV>, i: int)
    requires
        wf_fields(fs),
        0 <= i < fs.len(),
    ensures
        dec_selection(enc_selection(fs)) is Some,
        dec_selection(enc_selection(fs)).unwrap().len() == fs.len(),
        dec_selection(enc_selection(fs)).unwrap()[i] == fs[i],
{
    lemma_save_load_roundtrip(fs);
}

/// Relies on String's FromIterator impl: the collected string holds exactly
/// the characters of the given range of the vector, in order.
#[verifier::external_body]
pub(crate) fn collect_range(s: &Vec<char>, from: usize, to: usize) -> (r: String)
    requires
        from <= to && to <= s.len(),
    ensures
        r@ == s@.subrange(from as int, to as int),
{
    s[from..to].iter().collect()
}

/// Reads a text into a vector of its characters.
pub(crate) fn str_to_chars(text: &str) -> (r: Vec<char>)
    ensures
        r@ == text@,
{
    let n = text.unicode_len();
    let mut out: Vec<char> = Vec::new();
    let mut i: usize = 0;
    proof {
        assert(out@ =~= text@.subrange(0, 0));
    }
    while i < n
        invariant
            i <= n,
            n == text@.len(),
            out@ == text@.subrange(0, i as int),
        decreases n - i,
    {
        out.push(text.get_char(i));
        i = i + 1;
        proof {
            assert(out@ =~= text@.subrange(0, i as int));
        }
    }
    proof {
        assert(text@.subrange(0, n as int) =~= text@);
    }
    out
}

/// Appends the encoding of one stored string.
fn push_str_enc(out: &mut Vec<char>, t: &String)
    ensures
        final(out)@ == old(out)@ + enc_str(t@),
{
    let s = t.as_str();
    let n = s.unicode_len();
    let mut i: usize = 0;
    proof {
        assert(out@ =~= old(out)@ + t@.subrange(0, 0));
    }
    while i < n
        invariant
            i <= n,
            n == t@.len(),
            s@ == t@,
            out@ == old(out)@ + t@.subrange(0, i as int),
        decreases n - i,
    {
        out.push(s.get_char(i));
        i = i + 1;
        proof {
            assert(out@ =~= old(out)@ + t@.subrange(0, i as int));
        }
    }
    out.push(']');
    proof {
        assert(t@.subrange(0, n as int) =~= t@);
        assert(out@ =~= old(out)@ + enc_str(t@));
    }
}

/// Appends the encoding of one match/case pair.
fn save_case(c: &(Option<String>, String), out: &mut Vec<char>)
    ensures
        final(out)@ == old(out)@ + enc_case(view_case(*c)),
{
    match &c.0 {
        Some(p) => {
            out.push('S');
            push_str_enc(out, p);
        },
        None => {
            out.push('U');
        },
    }
    push_str_enc(out, &c.1);
    proof {
        assert(out@ =~= old(out)@ + enc_case(view_case(*c)));
    }
}

/// Appends the encoding of a match/case table.
fn save_cases(cs: &Vec<(Option<String>, String)>, out: &mut Vec<char>)
    ensures
        final(out)@ == old(out)@ + enc_cases(view_cases(cs@)),
{
    let ghost v = view_cases(cs@);
    let n = cs.len();
    let mut i: usize = 0;
    proof {
        assert(v.skip(0) =~= v);
    }
    while i < n
        invariant
            i <= n,
            n == cs.len(),
            v == view_cases(cs@),
            old(out)@ + enc_cases(v) == out@ + enc_cases(v.skip(i as int)),
        decreases n - i,
    {
        proof {
            assert(v.skip(i as int).len() > 0);
            assert(v.skip(i as int)[0] == view_case(cs@[i as int]));
            assert(v.skip(i as int).drop_first() =~= v.skip(i as int + 1));
        }
        let ghost mid = out@;
        out.push('e');
        save_case(&cs[i], out);
        i = i + 1;
        proof {
            assert(out@ =~= mid + (seq!['e'] + enc_case(view_case(cs@[i - 1]))));
            assert(mid + enc_cases(v.skip(i - 1)) =~= out@ + enc_cases(v.skip(i as int)));
        }
    }
    out.push('z');
    proof {
        assert(v.skip(n as int) =~= Seq::<(Option<Seq<char>>, Seq<char>)>::empty());
        assert(out@ =~= old(out)@ + enc_cases(v));
    }
}

/// Appends the encoding of one expression.
fn save_expr(e: &MappingExpression, out: &mut Vec<char>)
    ensures
        final(out)@ == old(out)@ + enc_expr(view_expr(*e)),
    decreases *e,
{
    match e {
        MappingExpression::Direct => {
            out.push('D');
        },
        MappingExpression::Alias(n) => {
            out.push('A');
            push_str_enc(out, n);
        },
        MappingExpression::NamedArgument(p) => {
            out.push('G');
            push_str_enc(out, p);
        },
        MappingExpression::NamedPath(p) => {
            out.push('P');
            push_str_enc(out, p);
        },
        MappingExpression::Transform { source, transform } => {
            out.push('T');
            push_str_enc(out, source);
            match transform {
                TransformFn::First => out.push('F'),
            }
        },
        MappingExpression::Matcher { source, matchers } => {
            out.push('M');
            push_str_enc(out, source);
            save_cases(matchers, out);
        },
        MappingExpression::Nested { fields } => {
            out.push('N');
            save_fields(fields, out);
        },
        MappingExpression::AliasNested { source, fields } => {
            out.push('B');
            push_str_enc(out, source);
            save_fields(fields, out);
        },
    }
    proof {
        assert(out@ =~= old(out)@ + enc_expr(view_expr(*e)));
    }
}

/// Appends the encoding of one field mapping.
fn save_field(f: &FieldMapping, out: &mut Vec<char>)
    ensures
        final(out)@ == old(out)@ + enc_field(view_field(*f)),
    decreases *f,
{
    push_str_enc(out, &f.field_name);
    save_expr(&f.expression, out);
    proof {
        assert(out@ =~= old(out)@ + enc_field(view_field(*f)));
    }
}

/// Appends the encoding of a field list.
fn save_fields(fs: &Vec<FieldMapping>, out: &mut Vec<char>)
    ensures
        final(out)@ == old(out)@ + enc_fields(view_fields(fs@)),
    decreases fs@,
{
    let ghost v = view_fields(fs@);
    let n = fs.len();
    let mut i: usize = 0;
    proof {
        assert(v.skip(0) =~= v);
    }
    while i < n
        invariant
            i <= n,
            n == fs.len(),
            v == view_fields(fs@),
            old(out)@ + enc_fields(v) == out@ + enc_fields(v.skip(i as int)),
        decreases n - i,
    {
        proof {
            assert(v.skip(i as int).len() > 0);
            assert(v.skip(i as int)[0] == view_field(fs@[i as int]));
            assert(v.skip(i as int).drop_first() =~= v.skip(i as int + 1));
        }
        let ghost mid = out@;
        out.push('e');
        save_field(&fs[i], out);
        i = i + 1;
        proof {
            assert(out@ =~= mid + (seq!['e'] + enc_field(view_field(fs@[i - 1]))));
            assert(mid + enc_fields(v.skip(i - 1)) =~= out@ + enc_fields(v.skip(i as int)));
        }
    }
    out.push('z');
    proof {
        assert(v.skip(n as int) =~= Seq::<FieldV>::empty());
        assert(out@ =~= old(out)@ + enc_fields(v));
    }
}

/// Reads one stored string: everything up to the first `]`.
fn load_str(s: &Vec<char>, i: usize) -> (r: Option<(String, usize)>)
    requires
        i <= s.len(),
    ensures
        match r {
            Some(tj) => i < tj.1 <= s.len() && dec_str(s@.skip(i as int)) == Some(
                (tj.0@, s@.skip(tj.1 as int)),
            ),
            None => dec_str(s@.skip(i as int)) is None,
        },
{
    let n = s.len();
    let mut k: usize = i;
    while k < n && s[k] != ']'
        invariant
            i <= k <= n,
            n == s.len(),
            forall|m: int| i <= m < k ==> s@[m] != ']',
        decreases n - k,
    {
        k = k + 1;
    }
    if k == n {
        proof {
            lemma_dec_str_no_delim(s@.skip(i as int));
        }
        None
    } else {
        let t = collect_range(s, i, k);
        proof {
            assert(s@[k as int] == ']');
            assert(s@.skip(i as int) =~= enc_str(s@.subrange(i as int, k as int)) + s@.skip(
                k as int + 1,
            ));
            lemma_dec_enc_str(s@.subrange(i as int, k as int), s@.skip(k as int + 1));
        }
        Some((t, k + 1))
    }
}

/// Reads one match/case pair.
fn load_case(s: &Vec<char>, i: usize) -> (r: Option<((Option<String>, String), usize)>)
    requires
        i <= s.len(),
    ensures
        match r {
            Some(cj) => i < cj.1 <= s.len() && dec_case(s@.skip(i as int)) == Some(
                (view_case(cj.0), s@.skip(cj.1 as int)),
            ),
            None => dec_case(s@.skip(i as int)) is None,
        },
{
    let n = s.len();
    if i == n {
        return None;
    }
    proof {
        assert(s@.skip(i as int)[0] == s@[i as int]);
        assert(s@.skip(i as int).drop_first() =~= s@.skip(i as int + 1));
    }
    let c = s[i];
    if c == 'S' {
        match load_str(s, i + 1) {
            Some((p, j1)) => match load_str(s, j1) {
                Some((t, j2)) => Some(((Some(p), t), j2)),
                None => None,
            },
            None => None,
        }
    } else if c == 'U' {
        match load_str(s, i + 1) {
            Some((t, j)) => Some(((None, t), j)),
            None => None,
        }
    } else {
        None
    }
}

/// Reads a match/case table.
fn load_cases(s: &Vec<char>, i: usize) -> (r: Option<(Vec<(Option<String>, String)>, usize)>)
    requires
        i <= s.len(),
    ensures
        match r {
            Some(cj) => i < cj.1 <= s.len() && dec_cases(s@.skip(i as int)) == Some(
                (view_cases(cj.0@), s@.skip(cj.1 as int)),
            ),
            None => dec_cases(s@.skip(i as int)) is None,
        },
    decreases s.len() - i,
{
    let n = s.len();
    if i == n {
        return None;
    }
    proof {
        assert(s@.skip(i as int)[0] == s@[i as int]);
        assert(s@.skip(i as int).drop_first() =~= s@.skip(i as int + 1));
    }
    let c = s[i];
    if c == 'z' {
        let empty: Vec<(Option<String>, String)> = Vec::new();
        proof {
            assert(view_cases(empty@) =~= Seq::<(Option<Seq<char>>, Seq<char>)>::empty());
        }
        Some((empty, i + 1))
    } else if c == 'e' {
        match load_case(s, i + 1) {
            Some((one, j1)) => match load_cases(s, j1) {
                Some((mut cs, j2)) => {
                    let ghost tail = cs@;
                    cs.insert(0, one);
                    proof {
                        assert(view_cases(cs@) =~= seq![view_case(one)] + view_cases(tail));
                    }
                    Some((cs, j2))
                },
                None => None,
            },
            None => None,
        }
    } else {
        None
    }
}

/// Reads one expression, dispatching on the variant tag.
fn load_expr(s: &Vec<char>, i: usize) -> (r: Option<(MappingExpression, usize)>)
    requires
        i <= s.len(),
    ensures
        match r {
            Some(ej) => i < ej.1 <= s.len() && dec_expr(s@.skip(i as int)) == Some(
                (view_expr(ej.0), s@.skip(ej.1 as int)),
            ),
            None => dec_expr(s@.skip(i as int)) is None,
        },
    decreases s.len() - i,
{
    let n = s.len();
    if i == n {
        return None;
    }
    proof {
        assert(s@.skip(i as int)[0] == s@[i as int]);
        assert(s@.skip(i as int).drop_first() =~= s@.skip(i as int + 1));
    }
    let c = s[i];
    if c == 'D' {
        Some((MappingExpression::Direct, i + 1))
    } else if c == 'A' {
        match load_str(s, i + 1) {
            Some((name, j)) => Some((MappingExpression::Alias(name), j)),
            None => None,
        }
    } else if c == 'G' {
        match load_str(s, i + 1) {
            Some((p, j)) => Some((MappingExpression::NamedArgument(p), j)),
            None => None,
        }
    } else if c == 'P' {
        match load_str(s, i + 1) {
            Some((p, j)) => Some((MappingExpression::NamedPath(p), j)),
            None => None,
        }
    } else if c == 'T' {
        match load_str(s, i + 1) {
            Some((source, j1)) => {
                proof {
                    if j1 < s@.len() {
                        assert(s@.skip(j1 as int)[0] == s@[j1 as int]);
                        assert(s@.skip(j1 as int).drop_first() =~= s@.skip(j1 as int + 1));
                    }
                }
                if j1 < n && s[j1] == 'F' {
                    Some(
                        (
                            MappingExpression::Transform {
                                source,
                                transform: TransformFn::First,
                            },
                            j1 + 1,
                        ),
                    )
                } else {
                    None
                }
            },
            None => None,
        }
    } else if c == 'M' {
        match load_str(s, i + 1) {
            Some((source, j1)) => match load_cases(s, j1) {
                Some((matchers, j2)) => Some(
                    (MappingExpression::Matcher { source, matchers }, j2),
                ),
                None => None,
            },
            None => None,
        }
    } else if c == 'N' {
        match load_fields(s, i + 1) {
            Some((fields, j)) => Some((MappingExpression::Nested { fields }, j)),
            None => None,
        }
    } else if c == 'B' {
        match load_str(s, i + 1) {
            Some((source, j1)) => match load_fields(s, j1) {
                Some((fields, j2)) => Some(
                    (MappingExpression::AliasNested { source, fields }, j2),
                ),
                None => None,
            },
            None => None,
        }
    } else {
        None
    }
}

/// Reads one field mapping.
fn load_field(s: &Vec<char>, i: usize) -> (r: Option<(FieldMapping, usize)>)
    requires
        i <= s.len(),
    ensures
        match r {
            Some(fj) => i < fj.1 <= s.len() && dec_field(s@.skip(i as int)) == Some(
                (view_field(fj.0), s@.skip(fj.1 as int)),
            ),
            None => dec_field(s@.skip(i as int)) is None,
        },
    decreases s.len() - i,
{
    match load_str(s, i) {
        Some((name, j1)) => match load_expr(s, j1) {
            Some((e, j2)) => Some((FieldMapping { field_name: name, expression: e }, j2)),
            None => None,
        },
        None => None,
    }
}

/// Reads a field list.
fn load_fields(s: &Vec<char>, i: usize) -> (r: Option<(Vec<FieldMapping>, usize)>)
    requires
        i <= s.len(),
    ensures
        match r {
            Some(fj) => i < fj.1 <= s.len() && dec_fields(s@.skip(i as int)) == Some(
                (view_fields(fj.0@), s@.skip(fj.1 as int)),
            ),
            None => dec_fields(s@.skip(i as int)) is None,
        },
    decreases s.len() - i,
{
    let n = s.len();
    if i == n {
        return None;
    }
    proof {
        assert(s@.skip(i as int)[0] == s@[i as int]);
        assert(s@.skip(i as int).drop_first() =~= s@.skip(i as int + 1));
    }
    let c = s[i];
    if c == 'z' {
        let empty: Vec<FieldMapping> = Vec::new();
        proof {
            assert(view_fields(empty@) =~= Seq::<FieldV>::empty());
        }
        Some((empty, i + 1))
    } else if c == 'e' {
        match load_field(s, i + 1) {
            Some((one, j1)) => match load_fields(s, j1) {
                Some((mut fs, j2)) => {
                    let ghost tail = fs@;
                    fs.insert(0, one);
                    proof {
                        assert(view_fields(fs@) =~= seq![view_field(one)] + view_fields(tail));
                    }
                    Some((fs, j2))
                },
                None => None,
            },
            None => None,
        }
    } else {
        None
    }
}

impl SelectionFields {
    /// Saves the selection into its interchange text.
    pub fn save(&self) -> (r: String)
        ensures
            r@ == enc_selection(self@),
    {
        let mut out: Vec<char> = Vec::new();
        save_fields(&self.fields, &mut out);
        proof {
            assert(out@ =~= enc_selection(self@));
            assert(out@.subrange(0, out@.len() as int) =~= out@);
        }
        let n = out.len();
        collect_range(&out, 0, n)
    }

    /// Loads a selection from its interchange text; the exact inverse of
    /// `save`.
    pub fn load(text: &str) -> (r: Result<SelectionFields, SerializationError>)
        ensures
            match r {
                Ok(sel) => dec_selection(text@) == Some(sel@),
                Err(_) => dec_selection(text@) is None,
            },
    {
        let chars = str_to_chars(text);
        proof {
            assert(chars@.skip(0) =~= text@);
        }
        match load_fields(&chars, 0) {
            Some((fields, j)) => if j == chars.len() {
                proof {
                    assert(chars@.skip(j as int).len() == 0);
                }
                Ok(SelectionFields { fields })
            } else {
                proof {
                    assert(chars@.skip(j as int).len() > 0);
                }
                Err(SerializationError::Malformed)
            },
            None => Err(SerializationError::Malformed),
        }
    }
}

} // verus!
