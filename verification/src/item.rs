//! Declaration grammar: `fn` and `mod` items. A function declaration is
//! `fn`, a snake name, and a braced body expression; a module declaration is
//! `mod`, a snake name, and a braced sequence of further declarations,
//! folded bottom-up into the module's mappings by their identifiers.

use vstd::prelude::*;
use crate::ident;
use crate::ast::{
    Function,
    SpecFunction,
    Module,
    SpecModule,
    Item,
    SpecItem,
    assoc_views,
    assoc_set,
    assoc_insert,
};
use crate::space::spec_strip_space;
use crate::grammar::{
    spec_parse_expr,
    strip_space,
    ExpressionFromCharsPrefixError,
    lemma_parse_expr_progress,
};
use crate::ast::Expression;

verus! {

broadcast use
    vstd::std_specs::vec::group_vec_axioms,
    crate::ident::lemma_snake_ident_progress,
    crate::space::lemma_strip_space_le,
    crate::grammar::lemma_parse_expr_progress;

/// How a declaration parse can fail.
#[derive(Debug, PartialEq, Eq)]
pub enum ItemFromCharsPrefixError {
    UnknownPrefix,
    FnNameExpected,
    OpenCurlyBraceExpected,
    CloseCurlyBraceExpected,
    FnExpression(ExpressionFromCharsPrefixError),
}

/// The declaration grammar: one `fn` or `mod` item and its identifier.
pub open spec fn spec_parse_item(s: Seq<char>) -> Result<
    ((Seq<Seq<char>>, SpecItem), Seq<char>),
    ItemFromCharsPrefixError,
>
    decreases s.len(), 0int,
{
    if s.len() >= 2 && s[0] == 'f' && s[1] == 'n' {
        let r1 = spec_strip_space(s.skip(2));
        match ident::spec_snake_ident(r1) {
            None => Err(ItemFromCharsPrefixError::FnNameExpected),
            Some(npr) => {
                let r2 = spec_strip_space(npr.1);
                if r2.len() >= 1 && r2[0] == '{' {
                    let r3 = spec_strip_space(r2.skip(1));
                    match spec_parse_expr(r3) {
                        Ok(epr) => {
                            let r4 = spec_strip_space(epr.1);
                            if r4.len() >= 1 && r4[0] == '}' {
                                Ok(
                                    (
                                        (
                                            npr.0,
                                            SpecItem::Function(
                                                SpecFunction {
                                                    is_external: false,
                                                    expression: epr.0,
                                                },
                                            ),
                                        ),
                                        r4.skip(1),
                                    ),
                                )
                            } else {
                                Err(ItemFromCharsPrefixError::CloseCurlyBraceExpected)
                            }
                        },
                        Err(e) => Err(ItemFromCharsPrefixError::FnExpression(e)),
                    }
                } else {
                    Err(ItemFromCharsPrefixError::OpenCurlyBraceExpected)
                }
            },
        }
    } else if s.len() >= 3 && s[0] == 'm' && s[1] == 'o' && s[2] == 'd' {
        let r1 = spec_strip_space(s.skip(3));
        match ident::spec_snake_ident(r1) {
            None => Err(ItemFromCharsPrefixError::FnNameExpected),
            Some(npr) => {
                let r2 = spec_strip_space(npr.1);
                if r2.len() >= 1 && r2[0] == '{' {
                    match spec_mod_items(Seq::empty(), Seq::empty(), r2.skip(1)) {
                        Ok(mpr) => Ok(
                            (
                                (
                                    npr.0,
                                    SpecItem::Module(
                                        SpecModule {
                                            functions: mpr.0.0,
                                            types: Seq::empty(),
                                            modules: mpr.0.1,
                                        },
                                    ),
                                ),
                                mpr.1,
                            ),
                        ),
                        Err(e) => Err(e),
                    }
                } else {
                    Err(ItemFromCharsPrefixError::OpenCurlyBraceExpected)
                }
            },
        }
    } else {
        Err(ItemFromCharsPrefixError::UnknownPrefix)
    }
}

/// The module body loop: skip whitespace; a closing brace ends the module;
/// otherwise parse one declaration and fold it into the accumulating
/// function and submodule mappings by its identifier.
pub open spec fn spec_mod_items(
    fns: Seq<(Seq<Seq<char>>, SpecFunction)>,
    mods: Seq<(Seq<Seq<char>>, SpecModule)>,
    s: Seq<char>,
) -> Result<
    ((Seq<(Seq<Seq<char>>, SpecFunction)>, Seq<(Seq<Seq<char>>, SpecModule)>), Seq<char>),
    ItemFromCharsPrefixError,
>
    decreases s.len(), 1int,
{
    let s1 = spec_strip_space(s);
    if s1.len() >= 1 && s1[0] == '}' {
        Ok(((fns, mods), s1.skip(1)))
    } else {
        match spec_parse_item(s1) {
            Ok(ipr) => {
                if ipr.1.len() < s.len() {
                    match ipr.0.1 {
                        SpecItem::Function(f) => spec_mod_items(
                            assoc_set(fns, ipr.0.0, f),
                            mods,
                            ipr.1,
                        ),
                        SpecItem::Module(m) => spec_mod_items(
                            fns,
                            assoc_set(mods, ipr.0.0, m),
                            ipr.1,
                        ),
                    }
                } else {
                    // a matched declaration always consumes characters; never taken
                    Err(ItemFromCharsPrefixError::UnknownPrefix)
                }
            },
            Err(e) => Err(e),
        }
    }
}

/// A successful declaration parse consumes at least one character.
pub broadcast proof fn lemma_parse_item_progress(s: Seq<char>)
    ensures
        (#[trigger] spec_parse_item(s)) matches Ok(pr) ==> pr.1.len() < s.len(),
    decreases s.len(), 0int,
{
    if s.len() >= 2 && s[0] == 'f' && s[1] == 'n' {
    } else if s.len() >= 3 && s[0] == 'm' && s[1] == 'o' && s[2] == 'd' {
        let r1 = spec_strip_space(s.skip(3));
        match ident::spec_snake_ident(r1) {
            None => {},
            Some(npr) => {
                let r2 = spec_strip_space(npr.1);
                if r2.len() >= 1 && r2[0] == '{' {
                    lemma_mod_items_progress(Seq::empty(), Seq::empty(), r2.skip(1));
                }
            },
        }
    }
}

/// A successful module body loop consumes its closing brace.
pub broadcast proof fn lemma_mod_items_progress(
    fns: Seq<(Seq<Seq<char>>, SpecFunction)>,
    mods: Seq<(Seq<Seq<char>>, SpecModule)>,
    s: Seq<char>,
)
    ensures
        (#[trigger] spec_mod_items(fns, mods, s)) matches Ok(pr) ==> pr.1.len() <= s.len(),
    decreases s.len(), 1int,
{
    let s1 = spec_strip_space(s);
    if s1.len() >= 1 && s1[0] == '}' {
    } else {
        match spec_parse_item(s1) {
            Ok(ipr) => {
                lemma_parse_item_progress(s1);
                if ipr.1.len() < s.len() {
                    match ipr.0.1 {
                        SpecItem::Function(f) => {
                            lemma_mod_items_progress(assoc_set(fns, ipr.0.0, f), mods, ipr.1);
                        },
                        SpecItem::Module(m) => {
                            lemma_mod_items_progress(fns, assoc_set(mods, ipr.0.0, m), ipr.1);
                        },
                    }
                }
            },
            Err(_) => {},
        }
    }
}

/// Law: every module the declaration grammar builds is well formed — each
/// of its mappings has pairwise distinct keys, at every level of the
/// ownership tree, because a declaration under an existing name replaces
/// the earlier entry instead of adding a second one.
pub proof fn lemma_parse_item_wf(s: Seq<char>)
    ensures
        spec_parse_item(s) matches Ok(pr) ==> (pr.0.1 matches SpecItem::Module(m)
            ==> crate::ast::spec_module_wf(m)),
    decreases s.len(), 0int,
{
    if s.len() >= 2 && s[0] == 'f' && s[1] == 'n' {
    } else if s.len() >= 3 && s[0] == 'm' && s[1] == 'o' && s[2] == 'd' {
        let r1 = spec_strip_space(s.skip(3));
        match ident::spec_snake_ident(r1) {
            None => {},
            Some(npr) => {
                let r2 = spec_strip_space(npr.1);
                if r2.len() >= 1 && r2[0] == '{' {
                    lemma_mod_items_wf(Seq::empty(), Seq::empty(), r2.skip(1));
                }
            },
        }
    }
}

/// The module body loop keeps every accumulated mapping well formed.
pub proof fn lemma_mod_items_wf(
    fns: Seq<(Seq<Seq<char>>, SpecFunction)>,
    mods: Seq<(Seq<Seq<char>>, SpecModule)>,
    s: Seq<char>,
)
    requires
        crate::ast::keys_unique(fns),
        crate::ast::keys_unique(mods),
        forall|i: int| 0 <= i < mods.len() ==> crate::ast::spec_module_wf((#[trigger] mods[i]).1),
    ensures
        spec_mod_items(fns, mods, s) matches Ok(pr) ==> crate::ast::keys_unique(pr.0.0)
            && crate::ast::keys_unique(pr.0.1) && (forall|i: int|
            0 <= i < pr.0.1.len() ==> crate::ast::spec_module_wf((#[trigger] pr.0.1[i]).1)),
    decreases s.len(), 1int,
{
    let s1 = spec_strip_space(s);
    if s1.len() >= 1 && s1[0] == '}' {
    } else {
        match spec_parse_item(s1) {
            Ok(ipr) => {
                lemma_parse_item_progress(s1);
                lemma_parse_item_wf(s1);
                if ipr.1.len() < s.len() {
                    match ipr.0.1 {
                        SpecItem::Function(f) => {
                            crate::ast::lemma_assoc_set_keys_unique(fns, ipr.0.0, f);
                            lemma_mod_items_wf(assoc_set(fns, ipr.0.0, f), mods, ipr.1);
                        },
                        SpecItem::Module(m) => {
                            crate::ast::lemma_assoc_set_keys_unique(mods, ipr.0.0, m);
                            crate::ast::lemma_assoc_set_wf_modules(mods, ipr.0.0, m);
                            lemma_mod_items_wf(fns, assoc_set(mods, ipr.0.0, m), ipr.1);
                        },
                    }
                }
            },
            Err(_) => {},
        }
    }
}

impl Item {
    /// Parses one `fn` or `mod` declaration prefix with its identifier, or
    /// explains why none parses.
    pub fn try_from_chars_prefix<'a>(value: &'a [char]) -> (r: Result<
        (ident::Instance, Item, &'a [char]),
        ItemFromCharsPrefixError,
    >)
        ensures
            match r {
                Ok(pr) => spec_parse_item(value@) matches Ok(sp) && sp.0.0 == pr.0@ && sp.0.1
                    == pr.1@ && sp.1 == pr.2@,
                Err(e) => spec_parse_item(value@) matches Err(se) && se == e,
            },
        decreases value@.len(), 1int,
    {
        if value.len() >= 2 && value[0] == 'f' && value[1] == 'n' {
            let after_kw = vstd::slice::slice_subrange(value, 2, value.len());
            proof {
                assert(after_kw@ =~= value@.skip(2));
            }
            let r1 = strip_space(after_kw);
            let (name, r1rest) = match ident::Instance::from_chars_snake_case_prefix(r1) {
                Some(pr) => pr,
                None => {
                    return Err(ItemFromCharsPrefixError::FnNameExpected);
                },
            };
            let r2 = strip_space(r1rest);
            if !(r2.len() >= 1 && r2[0] == '{') {
                return Err(ItemFromCharsPrefixError::OpenCurlyBraceExpected);
            }
            let after_brace = vstd::slice::slice_subrange(r2, 1, r2.len());
            proof {
                assert(after_brace@ =~= r2@.skip(1));
            }
            let r3 = strip_space(after_brace);
            match Expression::from_chars_prefix(r3) {
                Ok((expression, r3rest)) => {
                    let r4 = strip_space(r3rest);
                    if r4.len() >= 1 && r4[0] == '}' {
                        let after = vstd::slice::slice_subrange(r4, 1, r4.len());
                        proof {
                            assert(after@ =~= r4@.skip(1));
                        }
                        Ok((name, Item::Function(Function { is_external: false, expression }), after))
                    } else {
                        Err(ItemFromCharsPrefixError::CloseCurlyBraceExpected)
                    }
                },
                Err(e) => Err(ItemFromCharsPrefixError::FnExpression(e)),
            }
        } else if value.len() >= 3 && value[0] == 'm' && value[1] == 'o' && value[2] == 'd' {
            let after_kw = vstd::slice::slice_subrange(value, 3, value.len());
            proof {
                assert(after_kw@ =~= value@.skip(3));
            }
            let r1 = strip_space(after_kw);
            let (name, r1rest) = match ident::Instance::from_chars_snake_case_prefix(r1) {
                Some(pr) => pr,
                None => {
                    return Err(ItemFromCharsPrefixError::FnNameExpected);
                },
            };
            let r2 = strip_space(r1rest);
            if !(r2.len() >= 1 && r2[0] == '{') {
                return Err(ItemFromCharsPrefixError::OpenCurlyBraceExpected);
            }
            let body = vstd::slice::slice_subrange(r2, 1, r2.len());
            proof {
                assert(body@ =~= r2@.skip(1));
            }
            match Item::mod_items_loop(body, Ghost(value@)) {
                Ok((module, rest)) => Ok((name, Item::Module(module), rest)),
                Err(e) => Err(e),
            }
        } else {
            Err(ItemFromCharsPrefixError::UnknownPrefix)
        }
    }

    /// The module body loop behind `{`.
    fn mod_items_loop<'a>(value: &'a [char], Ghost(whole): Ghost<Seq<char>>) -> (r: Result<
        (Module, &'a [char]),
        ItemFromCharsPrefixError,
    >)
        requires
            value@.len() < whole.len(),
        ensures
            match r {
                Ok(pr) => spec_mod_items(Seq::empty(), Seq::empty(), value@) matches Ok(sp)
                    && pr.0@ == (SpecModule { functions: sp.0.0, types: Seq::empty(), modules: sp.0.1 })
                    && sp.1 == pr.1@,
                Err(e) => spec_mod_items(Seq::empty(), Seq::empty(), value@) matches Err(se) && se
                    == e,
            },
        decreases whole.len(), 0int,
    {
        let mut functions: Vec<(ident::Instance, Function)> = Vec::new();
        let mut modules: Vec<(ident::Instance, Module)> = Vec::new();
        let mut cur: &[char] = value;
        proof {
            assert(assoc_views(functions@) =~= Seq::<(Seq<Seq<char>>, SpecFunction)>::empty());
            assert(assoc_views(modules@) =~= Seq::<(Seq<Seq<char>>, SpecModule)>::empty());
        }
        loop
            invariant
                cur@.len() <= value@.len(),
                value@.len() < whole.len(),
                spec_mod_items(Seq::empty(), Seq::empty(), value@) == spec_mod_items(
                    assoc_views(functions@),
                    assoc_views(modules@),
                    cur@,
                ),
            decreases cur@.len(),
        {
            let cur1 = strip_space(cur);
            if cur1.len() >= 1 && cur1[0] == '}' {
                let after = vstd::slice::slice_subrange(cur1, 1, cur1.len());
                let types: Vec<(ident::Instance, crate::ast::Type)> = Vec::new();
                let m = Module { functions, types, modules };
                proof {
                    assert(after@ =~= cur1@.skip(1));
                    assert(m@.types =~= Seq::<(Seq<Seq<char>>, crate::ast::SpecType)>::empty());
                    assert(m@.modules =~= assoc_views(m.modules@));
                    assert(m@ =~= (SpecModule {
                        functions: assoc_views(m.functions@),
                        types: Seq::empty(),
                        modules: assoc_views(m.modules@),
                    }));
                }
                return Ok((m, after));
            }
            match Item::try_from_chars_prefix(cur1) {
                Ok((name, item, rest)) => {
                    proof {
                        lemma_parse_item_progress(cur1@);
                    }
                    match item {
                        Item::Function(function) => {
                            assoc_insert(&mut functions, name, function);
                        },
                        Item::Module(module) => {
                            assoc_insert(&mut modules, name, module);
                        },
                    }
                    cur = rest;
                },
                Err(e) => {
                    return Err(e);
                },
            }
        }
    }
}

} // verus!
