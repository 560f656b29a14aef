//! Pattern grammar. A pattern is, in this order of alternatives: a Pascal
//! identifier followed by a nested pattern (a tagged pattern) or by nothing
//! that matches (a catch-all binding); a `{`-delimited field-by-field record
//! pattern, written like a record construction with patterns as field
//! values (`{ Name = <pattern>, ... }`); or an expression, denoting an
//! exact-value comparison. No whitespace is skipped between a tag and its
//! nested pattern; inside the record form whitespace is skipped as in a
//! record construction.

use vstd::prelude::*;
use crate::ident;
use crate::ast::{Pattern, SpecPattern, assoc_views, assoc_set, assoc_insert};
use crate::space::spec_strip_space;
use crate::grammar::{spec_parse_expr, strip_space, ExpressionFromCharsPrefixError};
use crate::ast::Expression;

verus! {

broadcast use
    vstd::std_specs::vec::group_vec_axioms,
    crate::ident::lemma_pascal_ident_progress,
    crate::space::lemma_strip_space_le,
    crate::grammar::lemma_parse_expr_progress;

/// How a pattern parse can fail.
#[derive(Debug, PartialEq, Eq)]
pub enum PatternFromCharsPrefixError {
    UnknownPrefix,
    FieldNameExpected,
    EqualSignExpected,
    FieldPattern(Box<PatternFromCharsPrefixError>),
    EqualsExpression(ExpressionFromCharsPrefixError),
}

/// The pattern grammar.
pub open spec fn spec_parse_pattern(s: Seq<char>) -> Result<
    (SpecPattern, Seq<char>),
    PatternFromCharsPrefixError,
>
    decreases s.len(), 0int,
{
    match ident::spec_pascal_ident(s) {
        Some(npr) => match spec_parse_pattern(npr.1) {
            Ok(ipr) => Ok((SpecPattern::Tag(npr.0, Box::new(ipr.0)), ipr.1)),
            Err(e) => {
                if e == PatternFromCharsPrefixError::UnknownPrefix {
                    Ok((SpecPattern::Any(npr.0), npr.1))
                } else {
                    Err(e)
                }
            },
        },
        None => {
            if s.len() >= 1 && s[0] == '{' {
                spec_pattern_fields(Seq::empty(), s.skip(1))
            } else {
                match spec_parse_expr(s) {
                    Ok(epr) => Ok((SpecPattern::Equals(epr.0), epr.1)),
                    Err(e) => {
                        if e == ExpressionFromCharsPrefixError::UnexpectedPrefix {
                            Err(PatternFromCharsPrefixError::UnknownPrefix)
                        } else {
                            Err(PatternFromCharsPrefixError::EqualsExpression(e))
                        }
                    },
                }
            }
        },
    }
}

/// The record-pattern field loop: skip whitespace; a closing brace ends the
/// pattern; otherwise one field is a Pascal name, an equals sign, a nested
/// pattern, and an optional trailing comma.
pub open spec fn spec_pattern_fields(acc: Seq<(Seq<Seq<char>>, SpecPattern)>, s: Seq<char>) -> Result<
    (SpecPattern, Seq<char>),
    PatternFromCharsPrefixError,
>
    decreases s.len(), 1int,
{
    let s1 = spec_strip_space(s);
    if s1.len() >= 1 && s1[0] == '}' {
        Ok((SpecPattern::Fields(acc), s1.skip(1)))
    } else {
        match ident::spec_pascal_ident(s1) {
            None => Err(PatternFromCharsPrefixError::FieldNameExpected),
            Some(npr) => {
                let r1 = spec_strip_space(npr.1);
                if r1.len() >= 1 && r1[0] == '=' {
                    let r2 = spec_strip_space(r1.skip(1));
                    match spec_parse_pattern(r2) {
                        Ok(ppr) => {
                            let r3 = if ppr.1.len() >= 1 && ppr.1[0] == ',' {
                                ppr.1.skip(1)
                            } else {
                                ppr.1
                            };
                            if r3.len() < s.len() {
                                spec_pattern_fields(assoc_set(acc, npr.0, ppr.0), r3)
                            } else {
                                // a matched field always consumes characters; never taken
                                Err(PatternFromCharsPrefixError::FieldNameExpected)
                            }
                        },
                        Err(e) => Err(PatternFromCharsPrefixError::FieldPattern(Box::new(e))),
                    }
                } else {
                    Err(PatternFromCharsPrefixError::EqualSignExpected)
                }
            },
        }
    }
}

/// A successful pattern parse consumes at least one character.
pub broadcast proof fn lemma_parse_pattern_progress(s: Seq<char>)
    ensures
        (#[trigger] spec_parse_pattern(s)) matches Ok(pr) ==> pr.1.len() < s.len(),
    decreases s.len(), 0int,
{
    match ident::spec_pascal_ident(s) {
        Some(npr) => {
            lemma_parse_pattern_progress(npr.1);
        },
        None => {
            if s.len() >= 1 && s[0] == '{' {
                lemma_pattern_fields_progress(Seq::empty(), s.skip(1));
            }
        },
    }
}

/// A successful record-pattern loop consumes its closing brace.
pub broadcast proof fn lemma_pattern_fields_progress(
    acc: Seq<(Seq<Seq<char>>, SpecPattern)>,
    s: Seq<char>,
)
    ensures
        (#[trigger] spec_pattern_fields(acc, s)) matches Ok(pr) ==> pr.1.len() <= s.len(),
    decreases s.len(), 1int,
{
    let s1 = spec_strip_space(s);
    if s1.len() >= 1 && s1[0] == '}' {
    } else {
        match ident::spec_pascal_ident(s1) {
            None => {},
            Some(npr) => {
                let r1 = spec_strip_space(npr.1);
                if r1.len() >= 1 && r1[0] == '=' {
                    let r2 = spec_strip_space(r1.skip(1));
                    match spec_parse_pattern(r2) {
                        Ok(ppr) => {
                            lemma_parse_pattern_progress(r2);
                            let r3 = if ppr.1.len() >= 1 && ppr.1[0] == ',' {
                                ppr.1.skip(1)
                            } else {
                                ppr.1
                            };
                            if r3.len() < s.len() {
                                lemma_pattern_fields_progress(assoc_set(acc, npr.0, ppr.0), r3);
                            }
                        },
                        Err(_) => {},
                    }
                }
            },
        }
    }
}

impl Pattern {
    /// Parses the longest pattern prefix, or explains why none parses.
    pub fn try_from_chars_prefix<'a>(value: &'a [char]) -> (r: Result<
        (Pattern, &'a [char]),
        PatternFromCharsPrefixError,
    >)
        ensures
            match r {
                Ok(pr) => spec_parse_pattern(value@) matches Ok(sp) && sp.0 == pr.0@ && sp.1
                    == pr.1@,
                Err(e) => spec_parse_pattern(value@) matches Err(se) && se == e,
            },
        decreases value@.len(), 1int,
    {
        match ident::Instance::from_chars_pascal_case_prefix(value) {
            Some((name, rest)) => match Pattern::try_from_chars_prefix(rest) {
                Ok((body, rest2)) => Ok((Pattern::Tag(name, Box::new(body)), rest2)),
                Err(e) => {
                    let soft = matches!(&e, PatternFromCharsPrefixError::UnknownPrefix);
                    if soft {
                        Ok((Pattern::Any(name), rest))
                    } else {
                        Err(e)
                    }
                },
            },
            None => {
                if value.len() >= 1 && value[0] == '{' {
                    let inner = vstd::slice::slice_subrange(value, 1, value.len());
                    proof {
                        assert(inner@ =~= value@.skip(1));
                    }
                    Pattern::pattern_fields_loop(inner, Ghost(value@))
                } else {
                    match Expression::from_chars_prefix(value) {
                        Ok((e, rest)) => Ok((Pattern::Equals(e), rest)),
                        Err(e) => {
                            let soft = matches!(&e, ExpressionFromCharsPrefixError::UnexpectedPrefix);
                            if soft {
                                Err(PatternFromCharsPrefixError::UnknownPrefix)
                            } else {
                                Err(PatternFromCharsPrefixError::EqualsExpression(e))
                            }
                        },
                    }
                }
            },
        }
    }

    /// The record-pattern field loop behind `{`.
    fn pattern_fields_loop<'a>(value: &'a [char], Ghost(whole): Ghost<Seq<char>>) -> (r: Result<
        (Pattern, &'a [char]),
        PatternFromCharsPrefixError,
    >)
        requires
            value@.len() < whole.len(),
        ensures
            match r {
                Ok(pr) => spec_pattern_fields(Seq::empty(), value@) matches Ok(sp) && sp.0
                    == pr.0@ && sp.1 == pr.1@,
                Err(e) => spec_pattern_fields(Seq::empty(), value@) matches Err(se) && se == e,
            },
        decreases whole.len(), 0int,
    {
        let mut fields: Vec<(ident::Instance, Pattern)> = Vec::new();
        let mut cur: &[char] = value;
        proof {
            assert(assoc_views(fields@) =~= Seq::<(Seq<Seq<char>>, SpecPattern)>::empty());
        }
        loop
            invariant
                cur@.len() <= value@.len(),
                value@.len() < whole.len(),
                spec_pattern_fields(Seq::empty(), value@) == spec_pattern_fields(
                    assoc_views(fields@),
                    cur@,
                ),
            decreases cur@.len(),
        {
            let cur1 = strip_space(cur);
            if cur1.len() >= 1 && cur1[0] == '}' {
                let after = vstd::slice::slice_subrange(cur1, 1, cur1.len());
                proof {
                    assert(after@ =~= cur1@.skip(1));
                    assert(Pattern::Fields(fields)@ matches SpecPattern::Fields(fv) && fv
                        =~= assoc_views(fields@));
                }
                return Ok((Pattern::Fields(fields), after));
            }
            let (name, r1rest) = match ident::Instance::from_chars_pascal_case_prefix(cur1) {
                Some(pr) => pr,
                None => {
                    return Err(PatternFromCharsPrefixError::FieldNameExpected);
                },
            };
            let r1 = strip_space(r1rest);
            if !(r1.len() >= 1 && r1[0] == '=') {
                return Err(PatternFromCharsPrefixError::EqualSignExpected);
            }
            let after_eq = vstd::slice::slice_subrange(r1, 1, r1.len());
            proof {
                assert(after_eq@ =~= r1@.skip(1));
            }
            let r2 = strip_space(after_eq);
            match Pattern::try_from_chars_prefix(r2) {
                Ok((inner, r2rest)) => {
                    proof {
                        lemma_parse_pattern_progress(r2@);
                    }
                    let r3 = if r2rest.len() >= 1 && r2rest[0] == ',' {
                        let r3a = vstd::slice::slice_subrange(r2rest, 1, r2rest.len());
                        proof {
                            assert(r3a@ =~= r2rest@.skip(1));
                        }
                        r3a
                    } else {
                        r2rest
                    };
                    assoc_insert(&mut fields, name, inner);
                    cur = r3;
                },
                Err(e) => {
                    return Err(PatternFromCharsPrefixError::FieldPattern(Box::new(e)));
                },
            }
        }
    }
}

} // verus!
