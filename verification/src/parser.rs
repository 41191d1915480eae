//! The recursive-descent parser for the mapping language.
//!
//! The grammar is a list of entries separated by `,`, `;` or newline; an
//! entry is `name`, `name: expression` or `name { nested entries }`. The
//! right-hand side of `:` is disambiguated by a fixed priority order:
//! match-transform, transform, named argument, named path, alias. The
//! specification-level parser (`spec_selection` and its helpers) states the
//! grammar over a sequence of characters; the executable parser returns
//! exactly what the specification-level parser says, for every input.

use vstd::prelude::*;

use vstd::string::StrSliceExecFns;

use crate::codec::collect_range;
use crate::codec::str_to_chars;
use crate::domain::ExprV;
use crate::domain::FieldMapping;
use crate::domain::FieldV;
use crate::domain::MappingExpression;
use crate::domain::TransformFn;
use crate::domain::is_ident_char;
use crate::domain::is_space;
use crate::domain::is_valid_name;
use crate::domain::view_case;
use crate::domain::view_cases;
use crate::domain::view_expr;
use crate::domain::view_field;
use crate::domain::view_fields;
use crate::domain::wf_case;
use crate::domain::wf_expr;
use crate::domain::wf_field;
use crate::domain::wf_fields;

verus! {

/// The maximum nesting depth of `{ ... }` blocks the parser accepts.
pub const MAX_DEPTH: usize = 64;

/// A parse failure.
#[derive(Debug, PartialEq, Eq)]
pub enum ParseError {
    /// The input does not match the grammar at the given character position.
    Syntax { pos: usize },
    /// A captured name fails the identifier grammar of the schema language.
    InvalidIdentifier(String),
    /// A transform name matches no known transform function.
    UnknownTransform(String),
    /// Nested blocks beyond the maximum depth.
    TooDeep,
}

/// The mathematical model of a `ParseError`.
pub ghost enum PErrV {
    Syntax(int),
    InvalidIdentifier(Seq<char>),
    UnknownTransform(Seq<char>),
    TooDeep,
}

/// The model of the error held by a `ParseError` value.
pub open spec fn view_err(e: ParseError) -> PErrV {
    match e {
        ParseError::Syntax { pos } => PErrV::Syntax(pos as int),
        ParseError::InvalidIdentifier(t) => PErrV::InvalidIdentifier(t@),
        ParseError::UnknownTransform(t) => PErrV::UnknownTransform(t@),
        ParseError::TooDeep => PErrV::TooDeep,
    }
}

/// The outcome of one specification-level production: a value and the
/// position after it, a soft miss that lets the caller try another
/// alternative, or a hard failure.
pub ghost enum Parse<T> {
    Got(T, int),
    Miss,
    Fail(PErrV),
}

/// A horizontal whitespace character; a newline is not one, because a
/// newline separates entries.
pub open spec fn is_hspace(c: char) -> bool {
    c == ' ' || c == '\t' || c == '\r'
}

/// An entry separator.
pub open spec fn is_sep(c: char) -> bool {
    c == ',' || c == ';' || c == '\n'
}

/// The classes of characters the scanners accept.
#[derive(Debug, Clone, Copy)]
pub enum CharClass {
    /// Letters, digits and underscore.
    Ident,
    /// Identifier characters and the dot of an argument path.
    Arg,
    /// Any character of a match-case literal: not whitespace, not `]`.
    Lit,
}

/// Membership of a character in a scanner class.
pub open spec fn in_class(cls: CharClass, c: char) -> bool {
    match cls {
        CharClass::Ident => is_ident_char(c),
        CharClass::Arg => is_ident_char(c) || c == '.',
        CharClass::Lit => !is_space(c) && c != ']',
    }
}

/// The first position at or after `i` that does not hold whitespace.
pub open spec fn spec_skip_ws(s: Seq<char>, i: int) -> int
    decreases s.len() - i,
{
    if 0 <= i < s.len() && is_space(s[i]) {
        spec_skip_ws(s, i + 1)
    } else {
        i
    }
}

/// The first position at or after `i` that does not hold horizontal
/// whitespace.
pub open spec fn spec_skip_h(s: Seq<char>, i: int) -> int
    decreases s.len() - i,
{
    if 0 <= i < s.len() && is_hspace(s[i]) {
        spec_skip_h(s, i + 1)
    } else {
        i
    }
}

/// The end of the run of class characters that starts at `i`.
pub open spec fn spec_scan(s: Seq<char>, i: int, cls: CharClass) -> int
    decreases s.len() - i,
{
    if 0 <= i < s.len() && in_class(cls, s[i]) {
        spec_scan(s, i + 1, cls)
    } else {
        i
    }
}

fn is_space_c(c: char) -> (b: bool)
    ensures
        b == is_space(c),
{
    c == ' ' || c == '\t' || c == '\n' || c == '\r'
}

fn is_ident_char_c(c: char) -> (b: bool)
    ensures
        b == is_ident_char(c),
{
    let u = c as u32;
    (97 <= u && u <= 122) || (65 <= u && u <= 90) || (48 <= u && u <= 57) || c == '_'
}

fn in_class_c(cls: CharClass, c: char) -> (b: bool)
    ensures
        b == in_class(cls, c),
{
    match cls {
        CharClass::Ident => is_ident_char_c(c),
        CharClass::Arg => is_ident_char_c(c) || c == '.',
        CharClass::Lit => !is_space_c(c) && c != ']',
    }
}

fn skip_ws(s: &Vec<char>, i: usize) -> (r: usize)
    requires
        i <= s.len(),
    ensures
        i <= r <= s.len(),
        r == spec_skip_ws(s@, i as int),
{
    let n = s.len();
    let mut k: usize = i;
    while k < n && is_space_c(s[k])
        invariant
            i <= k <= n,
            n == s.len(),
            spec_skip_ws(s@, i as int) == spec_skip_ws(s@, k as int),
        decreases n - k,
    {
        k = k + 1;
    }
    k
}

fn skip_h(s: &Vec<char>, i: usize) -> (r: usize)
    requires
        i <= s.len(),
    ensures
        i <= r <= s.len(),
        r == spec_skip_h(s@, i as int),
{
    let n = s.len();
    let mut k: usize = i;
    while k < n && (s[k] == ' ' || s[k] == '\t' || s[k] == '\r')
        invariant
            i <= k <= n,
            n == s.len(),
            spec_skip_h(s@, i as int) == spec_skip_h(s@, k as int),
        decreases n - k,
    {
        k = k + 1;
    }
    k
}

fn scan(s: &Vec<char>, i: usize, cls: CharClass) -> (r: usize)
    requires
        i <= s.len(),
    ensures
        i <= r <= s.len(),
        r == spec_scan(s@, i as int, cls),
        forall|m: int| i <= m < r ==> in_class(cls, s@[m]),
{
    let n = s.len();
    let mut k: usize = i;
    while k < n && in_class_c(cls, s[k])
        invariant
            i <= k <= n,
            n == s.len(),
            spec_scan(s@, i as int, cls) == spec_scan(s@, k as int, cls),
            forall|m: int| i <= m < k ==> in_class(cls, s@[m]),
        decreases n - k,
    {
        k = k + 1;
    }
    k
}

/// The end of the dotted continuation of a path whose first segment ends at
/// `i`: each further segment is a dot followed by identifier characters.
pub open spec fn spec_path_rest(s: Seq<char>, i: int) -> int
    decreases s.len() - i,
{
    if 0 <= i < s.len() && s[i] == '.' {
        let k = spec_scan(s, i + 1, CharClass::Ident);
        if i + 1 < k && k <= s.len() {
            spec_path_rest(s, k)
        } else {
            i
        }
    } else {
        i
    }
}

fn path_rest(s: &Vec<char>, i: usize) -> (r: usize)
    requires
        i <= s.len(),
    ensures
        i <= r <= s.len(),
        r == spec_path_rest(s@, i as int),
        forall|m: int| i <= m < r ==> (is_ident_char(s@[m]) || s@[m] == '.'),
    decreases s.len() - i,
{
    if i < s.len() && s[i] == '.' {
        let k = scan(s, i + 1, CharClass::Ident);
        if i + 1 < k {
            path_rest(s, k)
        } else {
            i
        }
    } else {
        i
    }
}

/// One match/case pair: `[` pattern `=>` result `]`, the pattern `_`
/// standing for the wildcard.
pub open spec fn spec_match_case(s: Seq<char>, i: int) -> Option<
    ((Option<Seq<char>>, Seq<char>), int),
> {
    let a = spec_skip_ws(s, i);
    if a < s.len() && s[a] == '[' {
        let p0 = spec_skip_ws(s, a + 1);
        let p1 = spec_scan(s, p0, CharClass::Lit);
        if p1 > p0 {
            let pat = s.subrange(p0, p1);
            let q = spec_skip_ws(s, p1);
            if q + 1 < s.len() && s[q] == '=' && s[q + 1] == '>' {
                let r0 = spec_skip_ws(s, q + 2);
                let r1 = spec_scan(s, r0, CharClass::Lit);
                let res = s.subrange(r0, r1);
                let e0 = spec_skip_ws(s, r1);
                if e0 < s.len() && s[e0] == ']' {
                    Some(
                        (
                            (
                                if pat == seq!['_'] {
                                    None
                                } else {
                                    Some(pat)
                                },
                                res,
                            ),
                            e0 + 1,
                        ),
                    )
                } else {
                    None
                }
            } else {
                None
            }
        } else {
            None
        }
    } else {
        None
    }
}

/// A match/case table: zero or more cases separated by `,` or newline, a
/// trailing separator tolerated.
pub open spec fn spec_match_cases(s: Seq<char>, i: int) -> (
    Seq<(Option<Seq<char>>, Seq<char>)>,
    int,
)
    decreases s.len() - i,
{
    match spec_match_case(s, i) {
        None => (Seq::empty(), i),
        Some((c, j)) => {
            let k = spec_skip_h(s, j);
            if i <= k && k < s.len() && (s[k] == ',' || s[k] == '\n') {
                let rest = spec_match_cases(s, k + 1);
                (seq![c] + rest.0, rest.1)
            } else {
                (seq![c], j)
            }
        },
    }
}

/// The body of a match expression after `match(`: `@ => { cases } )`.
pub open spec fn spec_match_body(s: Seq<char>, i: int) -> Option<
    (Seq<(Option<Seq<char>>, Seq<char>)>, int),
> {
    let a = spec_skip_ws(s, i);
    if a < s.len() && s[a] == '@' {
        let b = spec_skip_ws(s, a + 1);
        if b + 1 < s.len() && s[b] == '=' && s[b + 1] == '>' {
            let c0 = spec_skip_ws(s, b + 2);
            if c0 < s.len() && s[c0] == '{' {
                let d = spec_skip_ws(s, c0 + 1);
                let cs = spec_match_cases(s, d);
                let g = spec_skip_ws(s, cs.1);
                if g < s.len() && s[g] == '}' {
                    let h = spec_skip_ws(s, g + 1);
                    if h < s.len() && s[h] == ')' {
                        Some((cs.0, h + 1))
                    } else {
                        None
                    }
                } else {
                    None
                }
            } else {
                None
            }
        } else {
            None
        }
    } else {
        None
    }
}

/// A whole match expression: the keyword `match(`, then its body.
pub open spec fn spec_match_expression(s: Seq<char>, i: int) -> Option<
    (Seq<(Option<Seq<char>>, Seq<char>)>, int),
> {
    let a = spec_skip_ws(s, i);
    if a + 6 <= s.len() && s[a] == 'm' && s[a + 1] == 'a' && s[a + 2] == 't' && s[a + 3] == 'c'
        && s[a + 4] == 'h' && s[a + 5] == '(' {
        spec_match_body(s, a + 6)
    } else {
        None
    }
}

/// The right-hand side of `name:`, tried in the fixed priority order:
/// match-transform, transform, named argument, named path, alias.
pub open spec fn spec_expression(s: Seq<char>, i: int) -> Parse<ExprV> {
    let j = spec_skip_ws(s, i);
    let k1 = spec_scan(s, j, CharClass::Ident);
    if k1 > j {
        let end = spec_path_rest(s, k1);
        let src = s.subrange(j, end);
        if end + 1 < s.len() && s[end] == '-' && s[end + 1] == '>' {
            let t0 = spec_skip_ws(s, end + 2);
            let t1 = spec_scan(s, t0, CharClass::Ident);
            if t1 > t0 {
                let fname = s.subrange(t0, t1);
                if fname == seq!['m', 'a', 't', 'c', 'h'] && t1 < s.len() && s[t1] == '(' {
                    match spec_match_body(s, t1 + 1) {
                        Some((cs, e)) => Parse::Got(
                            ExprV::Matcher { source: src, matchers: cs },
                            e,
                        ),
                        None => Parse::Fail(PErrV::Syntax(t1 + 1)),
                    }
                } else if fname == seq!['f', 'i', 'r', 's', 't'] {
                    Parse::Got(ExprV::Transform { source: src, transform: TransformFn::First }, t1)
                } else {
                    Parse::Fail(PErrV::UnknownTransform(fname))
                }
            } else {
                Parse::Miss
            }
        } else if k1 < end {
            Parse::Got(ExprV::NamedPath(src), end)
        } else if is_valid_name(src) {
            Parse::Got(ExprV::Alias(src), end)
        } else {
            Parse::Fail(PErrV::InvalidIdentifier(src))
        }
    } else if j + 1 < s.len() && s[j] == '{' && s[j + 1] == '$' {
        let a1 = spec_scan(s, j + 2, CharClass::Arg);
        if a1 < s.len() && s[a1] == '}' {
            Parse::Got(ExprV::NamedArgument(seq!['$'] + s.subrange(j + 2, a1)), a1 + 1)
        } else {
            Parse::Miss
        }
    } else {
        Parse::Miss
    }
}

fn is_match_kw(s: &Vec<char>, from: usize, to: usize) -> (b: bool)
    requires
        from <= to <= s.len(),
    ensures
        b == (s@.subrange(from as int, to as int) == seq!['m', 'a', 't', 'c', 'h']),
{
    let ghost t = s@.subrange(from as int, to as int);
    if to - from == 5 && s[from] == 'm' && s[from + 1] == 'a' && s[from + 2] == 't' && s[from + 3]
        == 'c' && s[from + 4] == 'h' {
        proof {
            assert(t =~= seq!['m', 'a', 't', 'c', 'h']);
        }
        true
    } else {
        proof {
            if t == seq!['m', 'a', 't', 'c', 'h'] {
                assert(t.len() == 5);
                assert(s@[from as int] == t[0]);
                assert(s@[from as int + 1] == t[1]);
                assert(s@[from as int + 2] == t[2]);
                assert(s@[from as int + 3] == t[3]);
                assert(s@[from as int + 4] == t[4]);
            }
        }
        false
    }
}

fn is_first_kw(s: &Vec<char>, from: usize, to: usize) -> (b: bool)
    requires
        from <= to <= s.len(),
    ensures
        b == (s@.subrange(from as int, to as int) == seq!['f', 'i', 'r', 's', 't']),
{
    let ghost t = s@.subrange(from as int, to as int);
    if to - from == 5 && s[from] == 'f' && s[from + 1] == 'i' && s[from + 2] == 'r' && s[from + 3]
        == 's' && s[from + 4] == 't' {
        proof {
            assert(t =~= seq!['f', 'i', 'r', 's', 't']);
        }
        true
    } else {
        proof {
            if t == seq!['f', 'i', 'r', 's', 't'] {
                assert(t.len() == 5);
                assert(s@[from as int] == t[0]);
                assert(s@[from as int + 1] == t[1]);
                assert(s@[from as int + 2] == t[2]);
                assert(s@[from as int + 3] == t[3]);
                assert(s@[from as int + 4] == t[4]);
            }
        }
        false
    }
}

fn match_case_at(s: &Vec<char>, i: usize) -> (r: Option<((Option<String>, String), usize)>)
    requires
        i <= s.len(),
    ensures
        match r {
            Some(cj) => i < cj.1 <= s.len() && spec_match_case(s@, i as int) == Some(
                (view_case(cj.0), cj.1 as int),
            ) && wf_case(view_case(cj.0)),
            None => spec_match_case(s@, i as int) is None,
        },
{
    let n = s.len();
    let a = skip_ws(s, i);
    if a < n && s[a] == '[' {
        let p0 = skip_ws(s, a + 1);
        let p1 = scan(s, p0, CharClass::Lit);
        if p1 > p0 {
            let q = skip_ws(s, p1);
            if q < n && q + 1 < n && s[q] == '=' && s[q + 1] == '>' {
                let r0 = skip_ws(s, q + 2);
                let r1 = scan(s, r0, CharClass::Lit);
                let e0 = skip_ws(s, r1);
                if e0 < n && s[e0] == ']' {
                    let res = collect_range(s, r0, r1);
                    proof {
                        let resv = s@.subrange(r0 as int, r1 as int);
                        assert forall|m: int| 0 <= m < resv.len() implies !is_space(
                            #[trigger] resv[m],
                        ) && resv[m] != ']' by {
                            assert(in_class(CharClass::Lit, s@[r0 + m]));
                        }
                    }
                    let wild = p1 - p0 == 1 && s[p0] == '_';
                    proof {
                        let pat = s@.subrange(p0 as int, p1 as int);
                        if wild {
                            assert(pat =~= seq!['_']);
                        } else if pat == seq!['_'] {
                            assert(pat.len() == 1);
                            assert(s@[p0 as int] == pat[0]);
                        }
                        assert forall|m: int| 0 <= m < pat.len() implies !is_space(
                            #[trigger] pat[m],
                        ) && pat[m] != ']' by {
                            assert(in_class(CharClass::Lit, s@[p0 + m]));
                        }
                    }
                    if wild {
                        Some(((None, res), e0 + 1))
                    } else {
                        let p = collect_range(s, p0, p1);
                        Some(((Some(p), res), e0 + 1))
                    }
                } else {
                    None
                }
            } else {
                None
            }
        } else {
            None
        }
    } else {
        None
    }
}

fn match_cases_at(s: &Vec<char>, i: usize) -> (r: (Vec<(Option<String>, String)>, usize))
    requires
        i <= s.len(),
    ensures
        i <= r.1 <= s.len(),
        spec_match_cases(s@, i as int) == (view_cases(r.0@), r.1 as int),
        forall|m: int| 0 <= m < r.0@.len() ==> wf_case(view_case(#[trigger] r.0@[m])),
    decreases s.len() - i,
{
    match match_case_at(s, i) {
        None => {
            let empty: Vec<(Option<String>, String)> = Vec::new();
            proof {
                assert(view_cases(empty@) =~= Seq::<(Option<Seq<char>>, Seq<char>)>::empty());
            }
            (empty, i)
        },
        Some((one, j)) => {
            let k = skip_h(s, j);
            if k < s.len() && (s[k] == ',' || s[k] == '\n') {
                let (mut rest, e) = match_cases_at(s, k + 1);
                let ghost tail = rest@;
                rest.insert(0, one);
                proof {
                    assert(view_cases(rest@) =~= seq![view_case(one)] + view_cases(tail));
                }
                (rest, e)
            } else {
                let mut single: Vec<(Option<String>, String)> = Vec::new();
                single.push(one);
                proof {
                    assert(view_cases(single@) =~= seq![view_case(one)]);
                }
                (single, j)
            }
        },
    }
}

fn match_body_at(s: &Vec<char>, i: usize) -> (r: Option<(Vec<(Option<String>, String)>, usize)>)
    requires
        i <= s.len(),
    ensures
        match r {
            Some(cj) => i < cj.1 <= s.len() && spec_match_body(s@, i as int) == Some(
                (view_cases(cj.0@), cj.1 as int),
            ) && (forall|m: int| 0 <= m < cj.0@.len() ==> wf_case(view_case(#[trigger] cj.0@[m]))),
            None => spec_match_body(s@, i as int) is None,
        },
{
    let n = s.len();
    let a = skip_ws(s, i);
    if a < n && s[a] == '@' {
        let b = skip_ws(s, a + 1);
        if b < n && b + 1 < n && s[b] == '=' && s[b + 1] == '>' {
            let c0 = skip_ws(s, b + 2);
            if c0 < n && s[c0] == '{' {
                let d = skip_ws(s, c0 + 1);
                let (cs, f) = match_cases_at(s, d);
                let g = skip_ws(s, f);
                if g < n && s[g] == '}' {
                    let h = skip_ws(s, g + 1);
                    if h < n && s[h] == ')' {
                        Some((cs, h + 1))
                    } else {
                        None
                    }
                } else {
                    None
                }
            } else {
                None
            }
        } else {
            None
        }
    } else {
        None
    }
}

fn expression_at(s: &Vec<char>, i: usize) -> (r: Result<
    Option<(MappingExpression, usize)>,
    ParseError,
>)
    requires
        i <= s.len(),
    ensures
        match r {
            Ok(Some(ej)) => i < ej.1 <= s.len() && spec_expression(s@, i as int) == Parse::Got(
                view_expr(ej.0),
                ej.1 as int,
            ) && wf_expr(view_expr(ej.0)),
            Ok(None) => spec_expression(s@, i as int) is Miss,
            Err(er) => spec_expression(s@, i as int) == Parse::<ExprV>::Fail(view_err(er)),
        },
{
    let n = s.len();
    let j = skip_ws(s, i);
    let k1 = scan(s, j, CharClass::Ident);
    if k1 > j {
        let end = path_rest(s, k1);
        let ghost srcv = s@.subrange(j as int, end as int);
        proof {
            assert forall|m: int| 0 <= m < srcv.len() implies !is_space(#[trigger] srcv[m])
                && srcv[m] != ']' by {
                let c = s@[j + m];
                assert(is_ident_char(c) || c == '.');
            }
        }
        if end < n && end + 1 < n && s[end] == '-' && s[end + 1] == '>' {
            let t0 = skip_ws(s, end + 2);
            let t1 = scan(s, t0, CharClass::Ident);
            if t1 > t0 {
                if is_match_kw(s, t0, t1) && t1 < n && s[t1] == '(' {
                    match match_body_at(s, t1 + 1) {
                        Some((matchers, e)) => {
                            let source = collect_range(s, j, end);
                            Ok(Some((MappingExpression::Matcher { source, matchers }, e)))
                        },
                        None => Err(ParseError::Syntax { pos: t1 + 1 }),
                    }
                } else if is_first_kw(s, t0, t1) {
                    let source = collect_range(s, j, end);
                    Ok(
                        Some(
                            (
                                MappingExpression::Transform {
                                    source,
                                    transform: TransformFn::First,
                                },
                                t1,
                            ),
                        ),
                    )
                } else {
                    let fname = collect_range(s, t0, t1);
                    Err(ParseError::UnknownTransform(fname))
                }
            } else {
                Ok(None)
            }
        } else if k1 < end {
            let source = collect_range(s, j, end);
            Ok(Some((MappingExpression::NamedPath(source), end)))
        } else {
            let name = collect_range(s, j, end);
            if end > j && !is_digit_c(s[j]) {
                proof {
                    assert forall|m: int| 0 <= m < srcv.len() implies is_ident_char(
                        #[trigger] srcv[m],
                    ) by {
                        assert(in_class(CharClass::Ident, s@[j + m]));
                    }
                    assert(srcv[0] == s@[j as int]);
                    assert(is_valid_name(srcv));
                }
                Ok(Some((MappingExpression::Alias(name), end)))
            } else {
                proof {
                    assert(srcv[0] == s@[j as int]);
                    assert(is_ident_char(srcv[0]));
                    assert(!is_valid_name(srcv));
                }
                Err(ParseError::InvalidIdentifier(name))
            }
        }
    } else if j < n && j + 1 < n && s[j] == '{' && s[j + 1] == '$' {
        let a1 = scan(s, j + 2, CharClass::Arg);
        if a1 < n && s[a1] == '}' {
            let body = collect_range(s, j + 1, a1);
            proof {
                let pv = seq!['$'] + s@.subrange(j as int + 2, a1 as int);
                assert(body@ =~= pv);
                assert forall|m: int| 0 <= m < pv.len() implies !is_space(#[trigger] pv[m])
                    && pv[m] != ']' by {
                    if m > 0 {
                        assert(in_class(CharClass::Arg, s@[j + 2 + (m - 1)]));
                    }
                }
                assert(pv[0] == '$');
            }
            Ok(Some((MappingExpression::NamedArgument(body), a1 + 1)))
        } else {
            Ok(None)
        }
    } else {
        Ok(None)
    }
}

fn is_digit_c(c: char) -> (b: bool)
    ensures
        b == crate::domain::is_digit(c),
{
    let u = c as u32;
    48 <= u && u <= 57
}

/// One entry: an identifier followed by a nested block, by `:` and an
/// expression, or by nothing (a direct field).
pub open spec fn spec_entry(s: Seq<char>, i: int, depth: nat) -> Parse<FieldV>
    decreases depth, s.len() - i, 0nat,
{
    let k = spec_scan(s, i, CharClass::Ident);
    if k <= i {
        Parse::Miss
    } else {
        let name = s.subrange(i, k);
        if !is_valid_name(name) {
            Parse::Fail(PErrV::InvalidIdentifier(name))
        } else {
            let j = spec_skip_h(s, k);
            if j < s.len() && s[j] == '{' {
                if depth == 0 {
                    Parse::Fail(PErrV::TooDeep)
                } else {
                    let b = spec_skip_ws(s, j + 1);
                    if i < b && b <= s.len() {
                        match spec_entries(s, b, (depth - 1) as nat) {
                            Parse::Got(fields, e) => {
                                let g = spec_skip_ws(s, e);
                                if g < s.len() && s[g] == '}' {
                                    Parse::Got(
                                        FieldV {
                                            field_name: name,
                                            expression: ExprV::Nested { fields },
                                        },
                                        g + 1,
                                    )
                                } else {
                                    Parse::Fail(PErrV::Syntax(g))
                                }
                            },
                            Parse::Miss => Parse::Miss,
                            Parse::Fail(er) => Parse::Fail(er),
                        }
                    } else {
                        Parse::Miss
                    }
                }
            } else if j < s.len() && s[j] == ':' {
                match spec_expression(s, j + 1) {
                    Parse::Got(e, m) => Parse::Got(FieldV { field_name: name, expression: e }, m),
                    Parse::Miss => Parse::Fail(PErrV::Syntax(spec_skip_ws(s, j + 1))),
                    Parse::Fail(er) => Parse::Fail(er),
                }
            } else {
                Parse::Got(FieldV { field_name: name, expression: ExprV::Direct }, k)
            }
        }
    }
}

/// A list of entries separated by `,`, `;` or newline, a trailing separator
/// tolerated; zero entries are a valid list.
pub open spec fn spec_entries(s: Seq<char>, i: int, depth: nat) -> Parse<Seq<FieldV>>
    decreases depth, s.len() - i, 1nat,
{
    match spec_entry(s, i, depth) {
        Parse::Miss => Parse::Got(Seq::empty(), i),
        Parse::Fail(er) => Parse::Fail(er),
        Parse::Got(f, j) => {
            let k = spec_skip_h(s, j);
            if i <= k && k < s.len() && is_sep(s[k]) {
                let m = spec_skip_ws(s, k + 1);
                if k < m && m <= s.len() {
                    match spec_entries(s, m, depth) {
                        Parse::Got(rest, e) => Parse::Got(seq![f] + rest, e),
                        Parse::Miss => Parse::Miss,
                        Parse::Fail(er) => Parse::Fail(er),
                    }
                } else {
                    Parse::Got(seq![f], k)
                }
            } else {
                Parse::Got(seq![f], k)
            }
        },
    }
}

/// The outcome of parsing a whole selection text.
pub ghost enum SelOut {
    Parsed(Seq<FieldV>),
    Rejected(PErrV),
}

/// The whole-input grammar: leading whitespace, an entry list, trailing
/// whitespace, and nothing else.
pub open spec fn spec_selection(s: Seq<char>) -> SelOut {
    let i0 = spec_skip_ws(s, 0);
    match spec_entries(s, i0, MAX_DEPTH as nat) {
        Parse::Got(fs, e) => {
            let g = spec_skip_ws(s, e);
            if g == s.len() {
                SelOut::Parsed(fs)
            } else {
                SelOut::Rejected(PErrV::Syntax(g))
            }
        },
        Parse::Fail(er) => SelOut::Rejected(er),
        Parse::Miss => SelOut::Rejected(PErrV::Syntax(0)),
    }
}

fn entry_at(s: &Vec<char>, i: usize, depth: usize) -> (r: Result<
    Option<(FieldMapping, usize)>,
    ParseError,
>)
    requires
        i <= s.len(),
    ensures
        match r {
            Ok(Some(fj)) => i < fj.1 <= s.len() && spec_entry(s@, i as int, depth as nat)
                == Parse::Got(view_field(fj.0), fj.1 as int) && wf_field(view_field(fj.0)),
            Ok(None) => spec_entry(s@, i as int, depth as nat) is Miss,
            Err(er) => spec_entry(s@, i as int, depth as nat) == Parse::<FieldV>::Fail(
                view_err(er),
            ),
        },
    decreases depth, s.len() - i, 0nat,
{
    let n = s.len();
    let k = scan(s, i, CharClass::Ident);
    if k <= i {
        return Ok(None);
    }
    let valid = !is_digit_c(s[i]);
    let name = collect_range(s, i, k);
    proof {
        let namev = s@.subrange(i as int, k as int);
        assert forall|m: int| 0 <= m < namev.len() implies is_ident_char(#[trigger] namev[m]) by {
            assert(in_class(CharClass::Ident, s@[i + m]));
        }
        assert(namev[0] == s@[i as int]);
        if valid {
            assert(is_valid_name(namev));
        } else {
            assert(!is_valid_name(namev));
        }
    }
    if !valid {
        return Err(ParseError::InvalidIdentifier(name));
    }
    let j = skip_h(s, k);
    if j < n && s[j] == '{' {
        if depth == 0 {
            Err(ParseError::TooDeep)
        } else {
            let b = skip_ws(s, j + 1);
            match entries_at(s, b, depth - 1) {
                Ok((fields, e)) => {
                    let g = skip_ws(s, e);
                    if g < n && s[g] == '}' {
                        Ok(
                            Some(
                                (
                                    FieldMapping {
                                        field_name: name,
                                        expression: MappingExpression::Nested { fields },
                                    },
                                    g + 1,
                                ),
                            ),
                        )
                    } else {
                        Err(ParseError::Syntax { pos: g })
                    }
                },
                Err(er) => Err(er),
            }
        }
    } else if j < n && s[j] == ':' {
        match expression_at(s, j + 1) {
            Ok(Some((e, m))) => Ok(
                Some((FieldMapping { field_name: name, expression: e }, m)),
            ),
            Ok(None) => {
                let p = skip_ws(s, j + 1);
                Err(ParseError::Syntax { pos: p })
            },
            Err(er) => Err(er),
        }
    } else {
        Ok(Some((FieldMapping { field_name: name, expression: MappingExpression::Direct }, k)))
    }
}

fn entries_at(s: &Vec<char>, i: usize, depth: usize) -> (r: Result<
    (Vec<FieldMapping>, usize),
    ParseError,
>)
    requires
        i <= s.len(),
    ensures
        match r {
            Ok(fj) => i <= fj.1 <= s.len() && spec_entries(s@, i as int, depth as nat)
                == Parse::Got(view_fields(fj.0@), fj.1 as int) && wf_fields(view_fields(fj.0@)),
            Err(er) => spec_entries(s@, i as int, depth as nat) == Parse::<Seq<FieldV>>::Fail(
                view_err(er),
            ),
        },
    decreases depth, s.len() - i, 1nat,
{
    match entry_at(s, i, depth) {
        Ok(None) => {
            let empty: Vec<FieldMapping> = Vec::new();
            proof {
                assert(view_fields(empty@) =~= Seq::<FieldV>::empty());
            }
            Ok((empty, i))
        },
        Err(er) => Err(er),
        Ok(Some((f, j))) => {
            let k = skip_h(s, j);
            if k < s.len() && (s[k] == ',' || s[k] == ';' || s[k] == '\n') {
                let m = skip_ws(s, k + 1);
                match entries_at(s, m, depth) {
                    Ok((mut rest, e)) => {
                        let ghost tail = rest@;
                        rest.insert(0, f);
                        proof {
                            assert(view_fields(rest@) =~= seq![view_field(f)] + view_fields(tail));
                        }
                        Ok((rest, e))
                    },
                    Err(er) => Err(er),
                }
            } else {
                let mut one: Vec<FieldMapping> = Vec::new();
                one.push(f);
                proof {
                    assert(view_fields(one@) =~= seq![view_field(f)]);
                }
                Ok((one, k))
            }
        },
    }
}

/// Parses a whole selection text into its field mappings. The result is
/// exactly what the grammar (`spec_selection`) says, for every input; a
/// parsed selection is well-formed.
pub fn selection_parser(input: &str) -> (r: Result<Vec<FieldMapping>, ParseError>)
    ensures
        match r {
            Ok(fs) => spec_selection(input@) == SelOut::Parsed(view_fields(fs@)) && wf_fields(
                view_fields(fs@),
            ),
            Err(e) => spec_selection(input@) == SelOut::Rejected(view_err(e)),
        },
{
    let s = str_to_chars(input);
    let i0 = skip_ws(&s, 0);
    match entries_at(&s, i0, MAX_DEPTH) {
        Ok((fs, e)) => {
            let g = skip_ws(&s, e);
            if g == s.len() {
                Ok(fs)
            } else {
                Err(ParseError::Syntax { pos: g })
            }
        },
        Err(er) => Err(er),
    }
}

/// The whole-input form of one match/case pair: the pair, then nothing but
/// whitespace.
pub open spec fn spec_map_match_case_full(s: Seq<char>) -> Option<(Option<Seq<char>>, Seq<char>)> {
    match spec_match_case(s, 0) {
        Some((c, j)) => if spec_skip_ws(s, j) == s.len() {
            Some(c)
        } else {
            None
        },
        None => None,
    }
}

/// Parses one match/case pair, such as `[1 => online]`; `_` as the pattern
/// stands for the wildcard and is returned as `None`.
pub fn map_match_case(input: &str) -> (r: Option<(Option<String>, String)>)
    ensures
        match r {
            Some(c) => spec_map_match_case_full(input@) == Some(view_case(c)),
            None => spec_map_match_case_full(input@) is None,
        },
{
    let s = str_to_chars(input);
    match match_case_at(&s, 0) {
        Some((c, j)) => {
            let g = skip_ws(&s, j);
            if g == s.len() {
                Some(c)
            } else {
                None
            }
        },
        None => None,
    }
}

/// The whole-input form of a match/case table.
pub open spec fn spec_match_case_list_full(s: Seq<char>) -> Option<
    Seq<(Option<Seq<char>>, Seq<char>)>,
> {
    let cs = spec_match_cases(s, 0);
    if spec_skip_ws(s, cs.1) == s.len() {
        Some(cs.0)
    } else {
        None
    }
}

/// Parses a list of match/case pairs separated by `,` or newline.
pub fn match_case_list(input: &str) -> (r: Option<Vec<(Option<String>, String)>>)
    ensures
        match r {
            Some(cs) => spec_match_case_list_full(input@) == Some(view_cases(cs@)),
            None => spec_match_case_list_full(input@) is None,
        },
{
    let s = str_to_chars(input);
    let (cs, j) = match_cases_at(&s, 0);
    let g = skip_ws(&s, j);
    if g == s.len() {
        Some(cs)
    } else {
        None
    }
}

/// The whole-input form of a match expression.
pub open spec fn spec_match_expression_full(s: Seq<char>) -> Option<
    Seq<(Option<Seq<char>>, Seq<char>)>,
> {
    match spec_match_expression(s, 0) {
        Some((cs, j)) => if spec_skip_ws(s, j) == s.len() {
            Some(cs)
        } else {
            None
        },
        None => None,
    }
}

/// Parses a whole match expression, `match(@ => { cases })`.
pub fn match_expression(input: &str) -> (r: Option<Vec<(Option<String>, String)>>)
    ensures
        match r {
            Some(cs) => spec_match_expression_full(input@) == Some(view_cases(cs@)),
            None => spec_match_expression_full(input@) is None,
        },
{
    let s = str_to_chars(input);
    let n = s.len();
    let a = skip_ws(&s, 0);
    if n - a >= 6 && s[a] == 'm' && s[a + 1] == 'a' && s[a + 2] == 't' && s[a + 3] == 'c' && s[a
        + 4] == 'h' && s[a + 5] == '(' {
        match match_body_at(&s, a + 6) {
            Some((cs, j)) => {
                let g = skip_ws(&s, j);
                if g == n {
                    Some(cs)
                } else {
                    None
                }
            },
            None => None,
        }
    } else {
        None
    }
}

} // verus!
