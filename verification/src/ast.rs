//! The tree the declaration grammar builds: expressions, functions, types,
//! patterns, and the module hierarchy, together with their mathematical
//! models and the identifier-keyed association lists the tree uses as its
//! mappings.
//!
//! Each mapping is an association list with the keys kept unique: inserting
//! under an existing key replaces the entry in place, so a later declaration
//! under the same name silently overwrites the earlier one.

use vstd::prelude::*;
use crate::ident;
use crate::number;
use crate::path;
use crate::path::PathView;

verus! {

broadcast use vstd::std_specs::vec::group_vec_axioms;

/// The mathematical value of an expression.
#[verifier::ext_equal]
pub enum SpecExpr {
    Mul { path: PathView, fields: Seq<(Seq<Seq<char>>, SpecExpr)> },
    Sum { path: PathView, tag: Seq<Seq<char>>, body: Box<SpecExpr> },
    Call { path: PathView, input: Box<SpecExpr> },
    Match { on: Box<SpecExpr>, variants: Seq<(Seq<Seq<char>>, SpecExpr)> },
    Member { of: Seq<Seq<char>>, name: Seq<Seq<char>> },
    Variable { name: Seq<Seq<char>> },
    Number { digits: Seq<char> },
}

/// An expression: a record or tagged construction, a call, a match
/// scaffold, a member access, a bare variable reference, or a numeral.
#[derive(Debug, PartialEq, Eq)]
pub enum Expression {
    Mul { path: path::Instance, fields: Vec<(ident::Instance, Expression)> },
    Sum { path: path::Instance, tag: ident::Instance, body: Box<Expression> },
    Call { path: path::Instance, input: Box<Expression> },
    Match { on: Box<Expression>, variants: Vec<(ident::Instance, Expression)> },
    Member { of: ident::Instance, name: ident::Instance },
    Variable { name: ident::Instance },
    Number { value: number::Instance },
}

/// The model of an expression.
pub open spec fn expr_view(e: Expression) -> SpecExpr
    decreases e,
{
    match e {
        Expression::Mul { path, fields } => SpecExpr::Mul {
            path: path@,
            fields: Seq::new(
                fields@.len(),
                |i: int|
                    if 0 <= i < fields@.len() {
                        (fields@[i].0@, expr_view(fields@[i].1))
                    } else {
                        arbitrary()
                    },
            ),
        },
        Expression::Sum { path, tag, body } => SpecExpr::Sum {
            path: path@,
            tag: tag@,
            body: Box::new(expr_view(*body)),
        },
        Expression::Call { path, input } => SpecExpr::Call {
            path: path@,
            input: Box::new(expr_view(*input)),
        },
        Expression::Match { on, variants } => SpecExpr::Match {
            on: Box::new(expr_view(*on)),
            variants: Seq::new(
                variants@.len(),
                |i: int|
                    if 0 <= i < variants@.len() {
                        (variants@[i].0@, expr_view(variants@[i].1))
                    } else {
                        arbitrary()
                    },
            ),
        },
        Expression::Member { of, name } => SpecExpr::Member { of: of@, name: name@ },
        Expression::Variable { name } => SpecExpr::Variable { name: name@ },
        Expression::Number { value } => SpecExpr::Number { digits: value@ },
    }
}

impl View for Expression {
    type V = SpecExpr;

    open spec fn view(&self) -> SpecExpr {
        expr_view(*self)
    }
}

/// The views of the entries of an identifier-keyed association list.
pub open spec fn assoc_views<V: View>(s: Seq<(ident::Instance, V)>) -> Seq<(Seq<Seq<char>>, V::V)> {
    Seq::new(s.len(), |i: int| (s[i].0@, s[i].1@))
}

/// Lookup in an association list: the first entry under the key.
pub open spec fn assoc_get<V>(s: Seq<(Seq<Seq<char>>, V)>, k: Seq<Seq<char>>) -> Option<V>
    decreases s.len(),
{
    if s.len() == 0 {
        None
    } else if s[0].0 == k {
        Some(s[0].1)
    } else {
        assoc_get(s.skip(1), k)
    }
}

/// Insertion into an association list: replaces the first entry under the
/// key in place, or appends a new entry.
pub open spec fn assoc_set<V>(s: Seq<(Seq<Seq<char>>, V)>, k: Seq<Seq<char>>, v: V) -> Seq<
    (Seq<Seq<char>>, V),
>
    decreases s.len(),
{
    if s.len() == 0 {
        seq![(k, v)]
    } else if s[0].0 == k {
        seq![(k, v)] + s.skip(1)
    } else {
        seq![s[0]] + assoc_set(s.skip(1), k, v)
    }
}

/// Law of the mappings: after inserting under a key, looking that key up
/// yields the new value, and every other key is untouched — a later entry
/// under the same name overwrites the earlier one and nothing else.
pub proof fn lemma_assoc_set_get<V>(s: Seq<(Seq<Seq<char>>, V)>, k: Seq<Seq<char>>, v: V, q: Seq<
    Seq<char>,
>)
    ensures
        assoc_get(assoc_set(s, k, v), q) == if q == k {
            Some(v)
        } else {
            assoc_get(s, q)
        },
    decreases s.len(),
{
    if s.len() == 0 {
        let t = assoc_set(s, k, v);
        assert(t == seq![(k, v)]);
        assert(t[0] == (k, v));
        assert(t.skip(1) =~= s);
        if q != k {
            assert(assoc_get(t, q) == assoc_get(s, q));
        }
    } else if s[0].0 == k {
        let t = seq![(k, v)] + s.skip(1);
        assert(t.skip(1) =~= s.skip(1));
    } else {
        lemma_assoc_set_get(s.skip(1), k, v, q);
        let t = seq![s[0]] + assoc_set(s.skip(1), k, v);
        assert(t.skip(1) =~= assoc_set(s.skip(1), k, v));
    }
}

/// A mapping's keys are pairwise distinct.
pub open spec fn keys_unique<V>(s: Seq<(Seq<Seq<char>>, V)>) -> bool {
    forall|i: int, j: int| 0 <= i < j < s.len() ==> (#[trigger] s[i]).0 != (#[trigger] s[j]).0
}

/// Insertion keeps the keys pairwise distinct, and introduces no key but
/// the inserted one.
pub proof fn lemma_assoc_set_keys_unique<V>(s: Seq<(Seq<Seq<char>>, V)>, k: Seq<Seq<char>>, v: V)
    requires
        keys_unique(s),
    ensures
        keys_unique(assoc_set(s, k, v)),
        forall|j: int|
            0 <= j < assoc_set(s, k, v).len() ==> (#[trigger] assoc_set(s, k, v)[j]).0 == k
                || exists|i: int| 0 <= i < s.len() && (#[trigger] s[i]).0 == assoc_set(s, k, v)[j].0,
    decreases s.len(),
{
    if s.len() == 0 {
    } else if s[0].0 == k {
        let t = seq![(k, v)] + s.skip(1);
        assert forall|j: int| 0 <= j < t.len() implies (#[trigger] t[j]).0 == k || exists|i: int|
            0 <= i < s.len() && (#[trigger] s[i]).0 == t[j].0 by {
            if j > 0 {
                assert(s[j].0 == t[j].0);
            }
        }
    } else {
        assert(keys_unique(s.skip(1))) by {
            assert forall|i: int, j: int|
                0 <= i < j < s.skip(1).len() implies (#[trigger] s.skip(1)[i]).0 != (#[trigger] s.skip(
                1,
            )[j]).0 by {
                assert(s[i + 1].0 == s.skip(1)[i].0);
                assert(s[j + 1].0 == s.skip(1)[j].0);
            }
        }
        lemma_assoc_set_keys_unique(s.skip(1), k, v);
        let rec = assoc_set(s.skip(1), k, v);
        let t = seq![s[0]] + rec;
        assert forall|j: int| 0 <= j < t.len() implies (#[trigger] t[j]).0 == k || exists|i: int|
            0 <= i < s.len() && (#[trigger] s[i]).0 == t[j].0 by {
            if j > 0 {
                assert(t[j] == rec[j - 1]);
                if rec[j - 1].0 != k {
                    let w = choose|i: int|
                        0 <= i < s.skip(1).len() && (#[trigger] s.skip(1)[i]).0 == rec[j - 1].0;
                    assert(s[w + 1].0 == rec[j - 1].0);
                }
            }
        }
        assert forall|a: int, b: int| 0 <= a < b < t.len() implies (#[trigger] t[a]).0 != (
        #[trigger] t[b]).0 by {
            if a == 0 {
                assert(t[b] == rec[b - 1]);
                if rec[b - 1].0 == k {
                } else {
                    let w = choose|i: int|
                        0 <= i < s.skip(1).len() && (#[trigger] s.skip(1)[i]).0 == rec[b - 1].0;
                    assert(s[w + 1].0 == rec[b - 1].0);
                    assert(s[0].0 != s[w + 1].0);
                }
            } else {
                assert(t[a] == rec[a - 1]);
                assert(t[b] == rec[b - 1]);
            }
        }
    }
}

/// A well-formed module tree: every mapping has pairwise distinct keys, at
/// every level of the ownership tree.
pub open spec fn spec_module_wf(m: SpecModule) -> bool
    decreases m,
{
    &&& keys_unique(m.functions)
    &&& keys_unique(m.types)
    &&& keys_unique(m.modules)
    &&& forall|i: int|
        0 <= i < m.modules.len() ==> spec_module_wf((#[trigger] m.modules[i]).1)
}

/// Insertion of a well-formed module keeps every entry well formed.
pub proof fn lemma_assoc_set_wf_modules(
    s: Seq<(Seq<Seq<char>>, SpecModule)>,
    k: Seq<Seq<char>>,
    v: SpecModule,
)
    requires
        forall|i: int| 0 <= i < s.len() ==> spec_module_wf((#[trigger] s[i]).1),
        spec_module_wf(v),
    ensures
        forall|i: int|
            0 <= i < assoc_set(s, k, v).len() ==> spec_module_wf(
                (#[trigger] assoc_set(s, k, v)[i]).1,
            ),
    decreases s.len(),
{
    if s.len() == 0 {
    } else if s[0].0 == k {
        let t = seq![(k, v)] + s.skip(1);
        assert forall|i: int| 0 <= i < t.len() implies spec_module_wf((#[trigger] t[i]).1) by {
            if i > 0 {
                assert(t[i] == s[i]);
            }
        }
    } else {
        assert forall|i: int|
            0 <= i < s.skip(1).len() implies spec_module_wf((#[trigger] s.skip(1)[i]).1) by {
            assert(s.skip(1)[i] == s[i + 1]);
        }
        lemma_assoc_set_wf_modules(s.skip(1), k, v);
        let rec = assoc_set(s.skip(1), k, v);
        let t = seq![s[0]] + rec;
        assert forall|i: int| 0 <= i < t.len() implies spec_module_wf((#[trigger] t[i]).1) by {
            if i > 0 {
                assert(t[i] == rec[i - 1]);
            }
        }
    }
}

/// A well-formed expression: every field and variant mapping in it has
/// pairwise distinct keys.
pub open spec fn spec_expr_wf(e: SpecExpr) -> bool
    decreases e,
{
    match e {
        SpecExpr::Mul { path, fields } => keys_unique(fields) && (forall|i: int|
            0 <= i < fields.len() ==> spec_expr_wf((#[trigger] fields[i]).1)),
        SpecExpr::Sum { path, tag, body } => spec_expr_wf(*body),
        SpecExpr::Call { path, input } => spec_expr_wf(*input),
        SpecExpr::Match { on, variants } => spec_expr_wf(*on) && keys_unique(variants) && (
        forall|i: int| 0 <= i < variants.len() ==> spec_expr_wf((#[trigger] variants[i]).1)),
        SpecExpr::Member { of, name } => true,
        SpecExpr::Variable { name } => true,
        SpecExpr::Number { digits } => true,
    }
}

/// Insertion of a well-formed expression keeps every entry well formed.
pub proof fn lemma_assoc_set_wf_exprs(
    s: Seq<(Seq<Seq<char>>, SpecExpr)>,
    k: Seq<Seq<char>>,
    v: SpecExpr,
)
    requires
        forall|i: int| 0 <= i < s.len() ==> spec_expr_wf((#[trigger] s[i]).1),
        spec_expr_wf(v),
    ensures
        forall|i: int|
            0 <= i < assoc_set(s, k, v).len() ==> spec_expr_wf((#[trigger] assoc_set(s, k, v)[i]).1),
    decreases s.len(),
{
    if s.len() == 0 {
    } else if s[0].0 == k {
        let t = seq![(k, v)] + s.skip(1);
        assert forall|i: int| 0 <= i < t.len() implies spec_expr_wf((#[trigger] t[i]).1) by {
            if i > 0 {
                assert(t[i] == s[i]);
            }
        }
    } else {
        assert forall|i: int|
            0 <= i < s.skip(1).len() implies spec_expr_wf((#[trigger] s.skip(1)[i]).1) by {
            assert(s.skip(1)[i] == s[i + 1]);
        }
        lemma_assoc_set_wf_exprs(s.skip(1), k, v);
        let rec = assoc_set(s.skip(1), k, v);
        let t = seq![s[0]] + rec;
        assert forall|i: int| 0 <= i < t.len() implies spec_expr_wf((#[trigger] t[i]).1) by {
            if i > 0 {
                assert(t[i] == rec[i - 1]);
            }
        }
    }
}

/// A function: an external flag and one owned body expression.
#[derive(Debug, PartialEq, Eq)]
pub struct Function {
    pub is_external: bool,
    pub expression: Expression,
}

#[verifier::ext_equal]
pub struct SpecFunction {
    pub is_external: bool,
    pub expression: SpecExpr,
}

impl View for Function {
    type V = SpecFunction;

    open spec fn view(&self) -> SpecFunction {
        SpecFunction { is_external: self.is_external, expression: self.expression@ }
    }
}

/// A type reference.
#[derive(Debug, PartialEq, Eq)]
pub enum Type {
    Path(path::Instance),
}

#[verifier::ext_equal]
pub enum SpecType {
    Path(PathView),
}

impl View for Type {
    type V = SpecType;

    open spec fn view(&self) -> SpecType {
        match self {
            Type::Path(p) => SpecType::Path(p@),
        }
    }
}

/// A named record type: a field-name-to-type mapping.
#[derive(Debug, PartialEq, Eq)]
pub struct Struct {
    pub fields: Vec<(ident::Instance, Type)>,
}

/// A type declaration.
#[derive(Debug, PartialEq, Eq)]
pub enum TypeItem {
    Struct(Struct),
}

/// A record construction, as a declaration-time initializer.
#[derive(Debug, PartialEq, Eq)]
pub enum Init {
    Struct { path: path::Instance, fields: Vec<(ident::Instance, Expression)> },
}

/// A module: a named container owning a function mapping, a type mapping and
/// a submodule mapping, forming a strict ownership tree.
#[derive(Debug, PartialEq, Eq)]
pub struct Module {
    pub functions: Vec<(ident::Instance, Function)>,
    pub types: Vec<(ident::Instance, Type)>,
    pub modules: Vec<(ident::Instance, Module)>,
}

#[verifier::ext_equal]
pub struct SpecModule {
    pub functions: Seq<(Seq<Seq<char>>, SpecFunction)>,
    pub types: Seq<(Seq<Seq<char>>, SpecType)>,
    pub modules: Seq<(Seq<Seq<char>>, SpecModule)>,
}

/// The model of a module.
pub open spec fn module_view(m: Module) -> SpecModule
    decreases m,
{
    SpecModule {
        functions: assoc_views(m.functions@),
        types: assoc_views(m.types@),
        modules: Seq::new(
            m.modules@.len(),
            |i: int|
                if 0 <= i < m.modules@.len() {
                    (m.modules@[i].0@, module_view(m.modules@[i].1))
                } else {
                    arbitrary()
                },
        ),
    }
}

impl View for Module {
    type V = SpecModule;

    open spec fn view(&self) -> SpecModule {
        module_view(*self)
    }
}

/// One parsed declaration: a function or a module, always paired with its
/// identifier by the declaration grammar.
#[derive(Debug, PartialEq, Eq)]
pub enum Item {
    Function(Function),
    Module(Module),
}

#[verifier::ext_equal]
pub enum SpecItem {
    Function(SpecFunction),
    Module(SpecModule),
}

impl View for Item {
    type V = SpecItem;

    open spec fn view(&self) -> SpecItem {
        match self {
            Item::Function(f) => SpecItem::Function(f@),
            Item::Module(m) => SpecItem::Module(m@),
        }
    }
}

/// A pattern: an exact-value comparison, a tagged pattern, a field-by-field
/// record pattern, or a catch-all binding.
#[derive(Debug, PartialEq, Eq)]
pub enum Pattern {
    Equals(Expression),
    Tag(ident::Instance, Box<Pattern>),
    Fields(Vec<(ident::Instance, Pattern)>),
    Any(ident::Instance),
}

#[verifier::ext_equal]
pub enum SpecPattern {
    Equals(SpecExpr),
    Tag(Seq<Seq<char>>, Box<SpecPattern>),
    Fields(Seq<(Seq<Seq<char>>, SpecPattern)>),
    Any(Seq<Seq<char>>),
}

/// The model of a pattern.
pub open spec fn pattern_view(p: Pattern) -> SpecPattern
    decreases p,
{
    match p {
        Pattern::Equals(e) => SpecPattern::Equals(e@),
        Pattern::Tag(name, inner) => SpecPattern::Tag(name@, Box::new(pattern_view(*inner))),
        Pattern::Fields(fields) => SpecPattern::Fields(
            Seq::new(
                fields@.len(),
                |i: int|
                    if 0 <= i < fields@.len() {
                        (fields@[i].0@, pattern_view(fields@[i].1))
                    } else {
                        arbitrary()
                    },
            ),
        ),
        Pattern::Any(name) => SpecPattern::Any(name@),
    }
}

impl View for Pattern {
    type V = SpecPattern;

    open spec fn view(&self) -> SpecPattern {
        pattern_view(*self)
    }
}

/// One navigation step: descend into a named submodule, or ascend to the
/// parent module.
#[derive(Debug, PartialEq, Eq)]
pub enum EnvIdent {
    Sub(ident::Instance),
    Super,
}

#[verifier::ext_equal]
pub enum EnvIdentView {
    Sub(Seq<Seq<char>>),
    Super,
}

impl View for EnvIdent {
    type V = EnvIdentView;

    open spec fn view(&self) -> EnvIdentView {
        match self {
            EnvIdent::Sub(n) => EnvIdentView::Sub(n@),
            EnvIdent::Super => EnvIdentView::Super,
        }
    }
}

/// One path-base step before normalization: ascend, or descend into a named
/// module.
#[derive(Debug, PartialEq, Eq)]
pub enum PathPart {
    Super,
    Module(ident::Instance),
}

#[verifier::ext_equal]
pub enum PathPartView {
    Super,
    Module(Seq<Seq<char>>),
}

impl View for PathPart {
    type V = PathPartView;

    open spec fn view(&self) -> PathPartView {
        match self {
            PathPart::Super => PathPartView::Super,
            PathPart::Module(n) => PathPartView::Module(n@),
        }
    }
}

/// Replaces the first entry under `key` in place, or appends a new entry;
/// the keys of a mapping built only by this insertion stay unique.
pub fn assoc_insert<V: View>(m: &mut Vec<(ident::Instance, V)>, key: ident::Instance, value: V)
    ensures
        assoc_views(final(m)@) == assoc_set(assoc_views(old(m)@), key@, value@),
{
    let ghost orig = m@;
    let ghost old_views = assoc_views(orig);
    let mut i: usize = 0;
    while i < m.len()
        invariant
            0 <= i <= m@.len(),
            m@ == orig,
            m@ == old(m)@,
            old_views == assoc_views(orig),
            forall|j: int| 0 <= j < i ==> assoc_views(m@)[j].0 != key@,
        decreases m@.len() - i,
    {
        if m[i].0.ident_eq(&key) {
            proof {
                assert(0 <= i < old_views.len());
                assert(old_views[i as int].0 == key@);
                lemma_assoc_set_prefix(old_views, key@, value@, i as int);
            }
            m.remove(i);
            m.insert(i, (key, value));
            proof {
                assert(m@ =~= orig.update(i as int, (key, value)));
                assert(assoc_views(m@) =~= old_views.update(i as int, (key@, value@)));
                assert(assoc_views(m@) =~= assoc_set(old_views, key@, value@));
            }
            return;
        }
        i = i + 1;
    }
    m.push((key, value));
    proof {
        lemma_assoc_set_append(old_views, key@, value@);
        assert(assoc_views(m@) =~= assoc_set(old_views, key@, value@));
    }
}

/// When the first `i` keys differ from `k` and entry `i` has key `k`,
/// insertion replaces exactly entry `i`.
proof fn lemma_assoc_set_prefix<V>(s: Seq<(Seq<Seq<char>>, V)>, k: Seq<Seq<char>>, v: V, i: int)
    requires
        0 <= i < s.len(),
        forall|j: int| 0 <= j < i ==> s[j].0 != k,
        s[i].0 == k,
    ensures
        assoc_set(s, k, v) =~= s.update(i, (k, v)),
    decreases i,
{
    if i == 0 {
        assert(assoc_set(s, k, v) =~= seq![(k, v)] + s.skip(1));
        assert(seq![(k, v)] + s.skip(1) =~= s.update(0, (k, v)));
    } else {
        assert(s.skip(1)[i - 1].0 == k);
        lemma_assoc_set_prefix(s.skip(1), k, v, i - 1);
        assert(seq![s[0]] + s.skip(1).update(i - 1, (k, v)) =~= s.update(i, (k, v)));
    }
}

/// When no key equals `k`, insertion appends.
proof fn lemma_assoc_set_append<V>(s: Seq<(Seq<Seq<char>>, V)>, k: Seq<Seq<char>>, v: V)
    requires
        forall|j: int| 0 <= j < s.len() ==> s[j].0 != k,
    ensures
        assoc_set(s, k, v) =~= s.push((k, v)),
    decreases s.len(),
{
    if s.len() == 0 {
    } else {
        lemma_assoc_set_append(s.skip(1), k, v);
        assert(seq![s[0]] + s.skip(1).push((k, v)) =~= s.push((k, v)));
    }
}

/// The first entry under `key`, if any.
pub fn assoc_find<'a, V: View>(m: &'a Vec<(ident::Instance, V)>, key: &ident::Instance) -> (r:
    Option<&'a V>)
    ensures
        match r {
            Some(v) => assoc_get(assoc_views(m@), key@) == Some(v@),
            None => assoc_get(assoc_views(m@), key@) is None,
        },
{
    let mut i: usize = 0;
    proof {
        assert(assoc_views(m@).skip(0) =~= assoc_views(m@));
    }
    while i < m.len()
        invariant
            0 <= i <= m@.len(),
            forall|j: int| 0 <= j < i ==> assoc_views(m@)[j].0 != key@,
            assoc_get(assoc_views(m@), key@) == assoc_get(assoc_views(m@).skip(i as int), key@),
        decreases m@.len() - i,
    {
        let ghost vs = assoc_views(m@);
        if m[i].0.ident_eq(key) {
            proof {
                assert(vs.skip(i as int)[0] == vs[i as int]);
            }
            return Some(&m[i].1);
        }
        proof {
            assert(vs.skip(i as int)[0] == vs[i as int]);
            assert(vs.skip(i as int).skip(1) =~= vs.skip(i + 1));
        }
        i = i + 1;
    }
    proof {
        assert(assoc_views(m@).skip(i as int) =~= Seq::<(Seq<Seq<char>>, V::V)>::empty());
    }
    None
}

} // verus!
