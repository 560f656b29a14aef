//! Expression grammar: the recursive-descent core. Every production takes a
//! character sequence and returns the parsed node with the unconsumed
//! remainder, or a structured failure. Whitespace is skipped only at
//! designated points between tokens.
//!
//! Alternatives are tried in this order: a numeral (so that a leading
//! recognized digit parses as a numeral expression), then a path (a call,
//! variable, tagged or record construction), then a parenthesized
//! expression. A soft "no match" is the `UnexpectedPrefix` failure; it is
//! downgraded to a bare variable only where a call argument fails to parse
//! after an unqualified snake path.

use vstd::prelude::*;
use crate::ident;
use crate::number;
use crate::path;
use crate::path::PathView;
use crate::ast::{Expression, SpecExpr, assoc_views, assoc_set, assoc_insert};
use crate::space::{space_char, spec_strip_space, lemma_strip_space_is};

verus! {

broadcast use
    vstd::std_specs::vec::group_vec_axioms,
    crate::ident::lemma_snake_ident_progress,
    crate::ident::lemma_pascal_ident_progress,
    crate::path::lemma_parse_path_progress,
    crate::space::lemma_strip_space_le;

/// Skips leading spaces and newlines.
pub fn strip_space<'a>(value: &'a [char]) -> (r: &'a [char])
    ensures
        r@ == spec_strip_space(value@),
{
    let mut i: usize = 0;
    while i < value.len() && (value[i] == ' ' || value[i] == '\n')
        invariant
            0 <= i <= value@.len(),
            forall|j: int| 0 <= j < i ==> space_char(value@[j]),
        decreases value@.len() - i,
    {
        i = i + 1;
    }
    proof {
        lemma_strip_space_is(value@, i as int);
    }
    let r = vstd::slice::slice_subrange(value, i, value.len());
    proof {
        assert(r@ =~= value@.skip(i as int));
    }
    r
}

/// How an expression parse can fail.
#[derive(Debug, PartialEq, Eq)]
pub enum ExpressionFromCharsPrefixError {
    CloseBracketExpected,
    UnexpectedPrefix,
    MulField(Box<MulFieldFromCharsPrefixError>),
    SumTagNameExpected,
    SumValue(Box<ExpressionFromCharsPrefixError>),
    UnexpectedTypeSuffix,
}

/// How one record-construction field parse can fail.
#[derive(Debug, PartialEq, Eq)]
pub enum MulFieldFromCharsPrefixError {
    NameExpected,
    EqualSignExpected,
    ExpressionExpected(ExpressionFromCharsPrefixError),
}

/// The expression grammar.
pub open spec fn spec_parse_expr(s: Seq<char>) -> Result<
    (SpecExpr, Seq<char>),
    ExpressionFromCharsPrefixError,
>
    decreases s.len(), 2int,
{
    match number::spec_number(s) {
        Some(npr) => Ok((SpecExpr::Number { digits: npr.0 }, npr.1)),
        None => match path::spec_parse_path(s) {
            Some(ppr) => {
                let p = ppr.0;
                let rest1 = spec_strip_space(ppr.1);
                if p.case is Snake {
                    match spec_parse_expr(rest1) {
                        Ok(ipr) => Ok(
                            (SpecExpr::Call { path: p, input: Box::new(ipr.0) }, ipr.1),
                        ),
                        Err(e) => {
                            if p.base.len() == 0 && e
                                == ExpressionFromCharsPrefixError::UnexpectedPrefix {
                                Ok((SpecExpr::Variable { name: p.name }, rest1))
                            } else {
                                Err(e)
                            }
                        },
                    }
                } else {
                    if rest1.len() >= 1 && rest1[0] == ':' {
                        let rest2 = spec_strip_space(rest1.skip(1));
                        match ident::spec_pascal_ident(rest2) {
                            Some(tpr) => {
                                let rest3 = spec_strip_space(tpr.1);
                                match spec_parse_expr(rest3) {
                                    Ok(bpr) => Ok(
                                        (
                                            SpecExpr::Sum {
                                                path: p,
                                                tag: tpr.0,
                                                body: Box::new(bpr.0),
                                            },
                                            bpr.1,
                                        ),
                                    ),
                                    Err(e) => Err(
                                        ExpressionFromCharsPrefixError::SumValue(Box::new(e)),
                                    ),
                                }
                            },
                            None => Err(ExpressionFromCharsPrefixError::SumTagNameExpected),
                        }
                    } else if rest1.len() >= 1 && rest1[0] == '{' {
                        spec_mul_fields(p, Seq::empty(), rest1.skip(1))
                    } else {
                        Err(ExpressionFromCharsPrefixError::UnexpectedTypeSuffix)
                    }
                }
            },
            None => {
                if s.len() >= 1 && s[0] == '(' {
                    match spec_parse_expr(s.skip(1)) {
                        Ok(ipr) => {
                            let rest1 = spec_strip_space(ipr.1);
                            if rest1.len() >= 1 && rest1[0] == ')' {
                                Ok((ipr.0, rest1.skip(1)))
                            } else {
                                Err(ExpressionFromCharsPrefixError::CloseBracketExpected)
                            }
                        },
                        Err(e) => Err(e),
                    }
                } else {
                    Err(ExpressionFromCharsPrefixError::UnexpectedPrefix)
                }
            },
        },
    }
}

/// One record-construction field: a Pascal field name, an equals sign, a
/// field expression, and an optional trailing comma.
pub open spec fn spec_mul_field(s: Seq<char>) -> Result<
    ((Seq<Seq<char>>, SpecExpr), Seq<char>),
    MulFieldFromCharsPrefixError,
>
    decreases s.len(), 0int,
{
    match ident::spec_pascal_ident(s) {
        None => Err(MulFieldFromCharsPrefixError::NameExpected),
        Some(npr) => {
            let r1 = spec_strip_space(npr.1);
            if r1.len() >= 1 && r1[0] == '=' {
                let r2 = spec_strip_space(r1.skip(1));
                match spec_parse_expr(r2) {
                    Ok(epr) => {
                        let r3 = if epr.1.len() >= 1 && epr.1[0] == ',' {
                            epr.1.skip(1)
                        } else {
                            epr.1
                        };
                        Ok(((npr.0, epr.0), r3))
                    },
                    Err(e) => Err(MulFieldFromCharsPrefixError::ExpressionExpected(e)),
                }
            } else {
                Err(MulFieldFromCharsPrefixError::EqualSignExpected)
            }
        },
    }
}

/// The record-construction field loop: skip whitespace; a closing brace ends
/// the construction; otherwise parse one field and fold it into the field
/// mapping.
pub open spec fn spec_mul_fields(
    p: PathView,
    acc: Seq<(Seq<Seq<char>>, SpecExpr)>,
    s: Seq<char>,
) -> Result<(SpecExpr, Seq<char>), ExpressionFromCharsPrefixError>
    decreases s.len(), 1int,
{
    let s1 = spec_strip_space(s);
    if s1.len() >= 1 && s1[0] == '}' {
        Ok((SpecExpr::Mul { path: p, fields: acc }, s1.skip(1)))
    } else {
        match spec_mul_field(s1) {
            Ok(fpr) => {
                if fpr.1.len() < s.len() {
                    spec_mul_fields(p, assoc_set(acc, fpr.0.0, fpr.0.1), fpr.1)
                } else {
                    // a matched field always consumes characters; never taken
                    Err(
                        ExpressionFromCharsPrefixError::MulField(
                            Box::new(MulFieldFromCharsPrefixError::NameExpected),
                        ),
                    )
                }
            },
            Err(e) => Err(ExpressionFromCharsPrefixError::MulField(Box::new(e))),
        }
    }
}

/// A successful expression parse consumes at least one character.
pub broadcast proof fn lemma_parse_expr_progress(s: Seq<char>)
    ensures
        (#[trigger] spec_parse_expr(s)) matches Ok(pr) ==> pr.1.len() < s.len(),
    decreases s.len(), 2int,
{
    number::lemma_digit_run_len(s);
    match number::spec_number(s) {
        Some(_) => {},
        None => match path::spec_parse_path(s) {
            Some(ppr) => {
                let p = ppr.0;
                let rest1 = spec_strip_space(ppr.1);
                if p.case is Snake {
                    lemma_parse_expr_progress(rest1);
                } else {
                    if rest1.len() >= 1 && rest1[0] == ':' {
                        let rest2 = spec_strip_space(rest1.skip(1));
                        match ident::spec_pascal_ident(rest2) {
                            Some(tpr) => {
                                let rest3 = spec_strip_space(tpr.1);
                                lemma_parse_expr_progress(rest3);
                            },
                            None => {},
                        }
                    } else if rest1.len() >= 1 && rest1[0] == '{' {
                        lemma_mul_fields_progress(p, Seq::empty(), rest1.skip(1));
                    }
                }
            },
            None => {
                if s.len() >= 1 && s[0] == '(' {
                    lemma_parse_expr_progress(s.skip(1));
                }
            },
        },
    }
}

/// A successful field parse consumes at least one character.
pub broadcast proof fn lemma_mul_field_progress(s: Seq<char>)
    ensures
        (#[trigger] spec_mul_field(s)) matches Ok(fpr) ==> fpr.1.len() < s.len(),
    decreases s.len(), 0int,
{
    match ident::spec_pascal_ident(s) {
        None => {},
        Some(npr) => {
            let r1 = spec_strip_space(npr.1);
            if r1.len() >= 1 && r1[0] == '=' {
                let r2 = spec_strip_space(r1.skip(1));
                lemma_parse_expr_progress(r2);
            }
        },
    }
}

/// A successful field loop consumes the closing brace.
pub broadcast proof fn lemma_mul_fields_progress(
    p: PathView,
    acc: Seq<(Seq<Seq<char>>, SpecExpr)>,
    s: Seq<char>,
)
    ensures
        (#[trigger] spec_mul_fields(p, acc, s)) matches Ok(pr) ==> pr.1.len() <= s.len(),
    decreases s.len(), 1int,
{
    let s1 = spec_strip_space(s);
    if s1.len() >= 1 && s1[0] == '}' {
    } else {
        match spec_mul_field(s1) {
            Ok(fpr) => {
                lemma_mul_field_progress(s1);
                if fpr.1.len() < s.len() {
                    lemma_mul_fields_progress(p, assoc_set(acc, fpr.0.0, fpr.0.1), fpr.1);
                }
            },
            Err(_) => {},
        }
    }
}

/// Law: every expression the grammar builds is well formed — each field
/// mapping in it has pairwise distinct keys, because a field under an
/// existing name replaces the earlier entry instead of adding a second one.
pub proof fn lemma_parse_expr_wf(s: Seq<char>)
    ensures
        spec_parse_expr(s) matches Ok(pr) ==> crate::ast::spec_expr_wf(pr.0),
    decreases s.len(), 2int,
{
    match number::spec_number(s) {
        Some(_) => {},
        None => match path::spec_parse_path(s) {
            Some(ppr) => {
                let p = ppr.0;
                let rest1 = spec_strip_space(ppr.1);
                if p.case is Snake {
                    lemma_parse_expr_wf(rest1);
                } else {
                    if rest1.len() >= 1 && rest1[0] == ':' {
                        let rest2 = spec_strip_space(rest1.skip(1));
                        match ident::spec_pascal_ident(rest2) {
                            Some(tpr) => {
                                let rest3 = spec_strip_space(tpr.1);
                                lemma_parse_expr_wf(rest3);
                            },
                            None => {},
                        }
                    } else if rest1.len() >= 1 && rest1[0] == '{' {
                        lemma_mul_fields_wf(p, Seq::empty(), rest1.skip(1));
                    }
                }
            },
            None => {
                if s.len() >= 1 && s[0] == '(' {
                    lemma_parse_expr_wf(s.skip(1));
                }
            },
        },
    }
}

/// Every field expression the field grammar builds is well formed.
pub proof fn lemma_mul_field_wf(s: Seq<char>)
    ensures
        spec_mul_field(s) matches Ok(fpr) ==> crate::ast::spec_expr_wf(fpr.0.1),
    decreases s.len(), 0int,
{
    match ident::spec_pascal_ident(s) {
        None => {},
        Some(npr) => {
            let r1 = spec_strip_space(npr.1);
            if r1.len() >= 1 && r1[0] == '=' {
                let r2 = spec_strip_space(r1.skip(1));
                lemma_parse_expr_wf(r2);
            }
        },
    }
}

/// The field loop keeps the accumulated field mapping well formed.
pub proof fn lemma_mul_fields_wf(
    p: PathView,
    acc: Seq<(Seq<Seq<char>>, SpecExpr)>,
    s: Seq<char>,
)
    requires
        crate::ast::keys_unique(acc),
        forall|i: int| 0 <= i < acc.len() ==> crate::ast::spec_expr_wf((#[trigger] acc[i]).1),
    ensures
        spec_mul_fields(p, acc, s) matches Ok(pr) ==> crate::ast::spec_expr_wf(pr.0),
    decreases s.len(), 1int,
{
    let s1 = spec_strip_space(s);
    if s1.len() >= 1 && s1[0] == '}' {
    } else {
        match spec_mul_field(s1) {
            Ok(fpr) => {
                lemma_mul_field_progress(s1);
                lemma_mul_field_wf(s1);
                if fpr.1.len() < s.len() {
                    crate::ast::lemma_assoc_set_keys_unique(acc, fpr.0.0, fpr.0.1);
                    crate::ast::lemma_assoc_set_wf_exprs(acc, fpr.0.0, fpr.0.1);
                    lemma_mul_fields_wf(p, assoc_set(acc, fpr.0.0, fpr.0.1), fpr.1);
                }
            },
            Err(_) => {},
        }
    }
}

impl Expression {
    /// Parses the longest expression prefix, or explains why none parses.
    pub fn from_chars_prefix<'a>(value: &'a [char]) -> (r: Result<
        (Expression, &'a [char]),
        ExpressionFromCharsPrefixError,
    >)
        ensures
            match r {
                Ok(pr) => spec_parse_expr(value@) matches Ok(sp) && sp.0 == pr.0@ && sp.1
                    == pr.1@,
                Err(e) => spec_parse_expr(value@) matches Err(se) && se == e,
            },
        decreases value@.len(), 2int,
    {
        match number::Instance::from_chars_prefix(value) {
            Some((num, rest)) => Ok((Expression::Number { value: num }, rest)),
            None => match path::Instance::from_char_prefix(value) {
                Some((p, rest0)) => {
                    let rest1 = strip_space(rest0);
                    if p.case.is_snake() {
                        match Expression::from_chars_prefix(rest1) {
                            Ok((input, rest2)) => Ok(
                                (Expression::Call { path: p, input: Box::new(input) }, rest2),
                            ),
                            Err(e) => {
                                let soft = matches!(
                                    &e,
                                    ExpressionFromCharsPrefixError::UnexpectedPrefix
                                );
                                if p.parts.len() == 0 && soft {
                                    Ok((Expression::Variable { name: p.name }, rest1))
                                } else {
                                    Err(e)
                                }
                            },
                        }
                    } else {
                        if rest1.len() >= 1 && rest1[0] == ':' {
                            let after_colon = vstd::slice::slice_subrange(rest1, 1, rest1.len());
                            proof {
                                assert(after_colon@ =~= rest1@.skip(1));
                            }
                            let rest2 = strip_space(after_colon);
                            match ident::Instance::from_chars_pascal_case_prefix(rest2) {
                                Some((tag, rest3a)) => {
                                    let rest3 = strip_space(rest3a);
                                    match Expression::from_chars_prefix(rest3) {
                                        Ok((body, rest4)) => Ok(
                                            (
                                                Expression::Sum {
                                                    path: p,
                                                    tag,
                                                    body: Box::new(body),
                                                },
                                                rest4,
                                            ),
                                        ),
                                        Err(e) => Err(
                                            ExpressionFromCharsPrefixError::SumValue(Box::new(e)),
                                        ),
                                    }
                                },
                                None => Err(ExpressionFromCharsPrefixError::SumTagNameExpected),
                            }
                        } else if rest1.len() >= 1 && rest1[0] == '{' {
                            let inner = vstd::slice::slice_subrange(rest1, 1, rest1.len());
                            proof {
                                assert(inner@ =~= rest1@.skip(1));
                            }
                            Expression::mul_fields_loop(p, inner, Ghost(value@))
                        } else {
                            Err(ExpressionFromCharsPrefixError::UnexpectedTypeSuffix)
                        }
                    }
                },
                None => {
                    if value.len() >= 1 && value[0] == '(' {
                        let inner = vstd::slice::slice_subrange(value, 1, value.len());
                        proof {
                            assert(inner@ =~= value@.skip(1));
                        }
                        match Expression::from_chars_prefix(inner) {
                            Ok((e, resta)) => {
                                let rest1 = strip_space(resta);
                                if rest1.len() >= 1 && rest1[0] == ')' {
                                    let after = vstd::slice::slice_subrange(
                                        rest1,
                                        1,
                                        rest1.len(),
                                    );
                                    proof {
                                        assert(after@ =~= rest1@.skip(1));
                                    }
                                    Ok((e, after))
                                } else {
                                    Err(ExpressionFromCharsPrefixError::CloseBracketExpected)
                                }
                            },
                            Err(e) => Err(e),
                        }
                    } else {
                        Err(ExpressionFromCharsPrefixError::UnexpectedPrefix)
                    }
                },
            },
        }
    }

    /// The record-construction field loop behind `{`.
    fn mul_fields_loop<'a>(p: path::Instance, value: &'a [char], Ghost(whole): Ghost<Seq<char>>) -> (r:
        Result<(Expression, &'a [char]), ExpressionFromCharsPrefixError>)
        requires
            value@.len() < whole.len(),
        ensures
            match r {
                Ok(pr) => spec_mul_fields(p@, Seq::empty(), value@) matches Ok(sp) && sp.0
                    == pr.0@ && sp.1 == pr.1@,
                Err(e) => spec_mul_fields(p@, Seq::empty(), value@) matches Err(se) && se == e,
            },
        decreases whole.len(), 1int,
    {
        let mut fields: Vec<(ident::Instance, Expression)> = Vec::new();
        let mut cur: &[char] = value;
        proof {
            assert(assoc_views(fields@) =~= Seq::<(Seq<Seq<char>>, SpecExpr)>::empty());
        }
        loop
            invariant
                cur@.len() <= value@.len(),
                value@.len() < whole.len(),
                spec_mul_fields(p@, Seq::empty(), value@) == spec_mul_fields(
                    p@,
                    assoc_views(fields@),
                    cur@,
                ),
            decreases cur@.len(),
        {
            let cur1 = strip_space(cur);
            if cur1.len() >= 1 && cur1[0] == '}' {
                let after = vstd::slice::slice_subrange(cur1, 1, cur1.len());
                proof {
                    assert(after@ =~= cur1@.skip(1));
                    let e = Expression::Mul { path: p, fields };
                    assert(e@ matches SpecExpr::Mul { path: pv, fields: fv } && pv == p@ && fv
                        =~= assoc_views(fields@));
                }
                return Ok((Expression::Mul { path: p, fields }, after));
            }
            match mul_field_from_chars_prefix(cur1) {
                Ok((name, expression, rest)) => {
                    proof {
                        lemma_mul_field_progress(cur1@);
                    }
                    assoc_insert(&mut fields, name, expression);
                    cur = rest;
                },
                Err(e) => {
                    return Err(ExpressionFromCharsPrefixError::MulField(Box::new(e)));
                },
            }
        }
    }
}

/// One record-construction field: a Pascal field name, `=`, an expression,
/// and an optional trailing comma.
pub fn mul_field_from_chars_prefix<'a>(value: &'a [char]) -> (r: Result<
    (ident::Instance, Expression, &'a [char]),
    MulFieldFromCharsPrefixError,
>)
    ensures
        match r {
            Ok(pr) => spec_mul_field(value@) matches Ok(sp) && sp.0.0 == pr.0@ && sp.0.1 == pr.1@
                && sp.1 == pr.2@,
            Err(e) => spec_mul_field(value@) matches Err(se) && se == e,
        },
    decreases value@.len(), 0int,
{
    let (name, resta) = match ident::Instance::from_chars_pascal_case_prefix(value) {
        Some(pr) => pr,
        None => {
            return Err(MulFieldFromCharsPrefixError::NameExpected);
        },
    };
    let r1 = strip_space(resta);
    if !(r1.len() >= 1 && r1[0] == '=') {
        return Err(MulFieldFromCharsPrefixError::EqualSignExpected);
    }
    let after_eq = vstd::slice::slice_subrange(r1, 1, r1.len());
    proof {
        assert(after_eq@ =~= r1@.skip(1));
    }
    let r2 = strip_space(after_eq);
    match Expression::from_chars_prefix(r2) {
        Ok((expression, r3)) => {
            if r3.len() >= 1 && r3[0] == ',' {
                let r4 = vstd::slice::slice_subrange(r3, 1, r3.len());
                proof {
                    assert(r4@ =~= r3@.skip(1));
                }
                Ok((name, expression, r4))
            } else {
                Ok((name, expression, r3))
            }
        },
        Err(e) => Err(MulFieldFromCharsPrefixError::ExpressionExpected(e)),
    }
}

} // verus!
