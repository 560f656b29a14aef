//! Name resolver: walks the module tree read-only. Navigation follows
//! descend and ascend steps; a descend into an absent submodule and an
//! ascend with no module left to ascend to both yield absence, never an
//! error. Ascending is resolved against the walk itself: the walker keeps
//! the modules it has descended through, since the ownership tree stores no
//! parent links.

use vstd::prelude::*;
use crate::ident;
use crate::path;
use crate::path::{PathView, idents_view};
use crate::ast::{
    Module,
    SpecModule,
    Function,
    SpecFunction,
    Type,
    SpecType,
    EnvIdent,
    EnvIdentView,
    PathPart,
    PathPartView,
    assoc_get,
    assoc_views,
    assoc_find,
};

verus! {

broadcast use vstd::std_specs::vec::group_vec_axioms;

/// The views of a sequence of navigation steps.
pub open spec fn env_views(s: Seq<EnvIdent>) -> Seq<EnvIdentView> {
    Seq::new(s.len(), |i: int| s[i]@)
}

/// The views of a sequence of path-base steps.
pub open spec fn path_part_views(s: Seq<PathPart>) -> Seq<PathPartView> {
    Seq::new(s.len(), |i: int| s[i]@)
}

/// The views of a stack of visited modules.
pub open spec fn stack_views(s: Seq<&Module>) -> Seq<SpecModule> {
    Seq::new(s.len(), |i: int| s[i]@)
}

/// A module's submodule mapping, viewed.
pub proof fn lemma_module_view_maps(m: Module)
    ensures
        m@.modules == assoc_views(m.modules@),
        m@.functions == assoc_views(m.functions@),
        m@.types == assoc_views(m.types@),
    decreases m,
{
    assert(m@.modules =~= assoc_views(m.modules@));
}

/// Walking the steps from a module: descend looks the name up in the
/// current module's submodules; ascend returns to the module most recently
/// descended from; either failing yields nothing.
pub open spec fn spec_navigate(
    stack: Seq<SpecModule>,
    cur: SpecModule,
    names: Seq<EnvIdentView>,
    i: int,
) -> Option<SpecModule>
    decreases names.len() - i,
{
    if i < 0 || i >= names.len() {
        Some(cur)
    } else {
        match names[i] {
            EnvIdentView::Sub(n) => match assoc_get(cur.modules, n) {
                Some(m) => spec_navigate(stack.push(cur), m, names, i + 1),
                None => None,
            },
            EnvIdentView::Super => {
                if stack.len() > 0 {
                    spec_navigate(stack.drop_last(), stack.last(), names, i + 1)
                } else {
                    None
                }
            },
        }
    }
}

/// Pure descent along a sequence of submodule names.
pub open spec fn spec_descend(cur: SpecModule, names: Seq<Seq<Seq<char>>>, i: int) -> Option<
    SpecModule,
>
    decreases names.len() - i,
{
    if i < 0 || i >= names.len() {
        Some(cur)
    } else {
        match assoc_get(cur.modules, names[i]) {
            Some(m) => spec_descend(m, names, i + 1),
            None => None,
        }
    }
}

/// Ascend-steps of a path base resolved against the preceding descend-steps:
/// an ascend pops the most recently pushed name, and one with nothing left
/// to pop silently does nothing.
pub open spec fn spec_normalize_from(
    acc: Seq<Seq<Seq<char>>>,
    parts: Seq<PathPartView>,
    i: int,
) -> Seq<Seq<Seq<char>>>
    decreases parts.len() - i,
{
    if i < 0 || i >= parts.len() {
        acc
    } else {
        match parts[i] {
            PathPartView::Super => {
                if acc.len() > 0 {
                    spec_normalize_from(acc.drop_last(), parts, i + 1)
                } else {
                    spec_normalize_from(acc, parts, i + 1)
                }
            },
            PathPartView::Module(n) => spec_normalize_from(acc.push(n), parts, i + 1),
        }
    }
}

/// What a function lookup by path returns: descend along the base, then the
/// entry under the terminal name.
pub open spec fn spec_resolve_function(m: SpecModule, p: PathView) -> Option<SpecFunction> {
    match spec_descend(m, p.base, 0) {
        Some(env) => assoc_get(env.functions, p.name),
        None => None,
    }
}

/// What a type lookup by path returns.
pub open spec fn spec_resolve_type(m: SpecModule, p: PathView) -> Option<SpecType> {
    match spec_descend(m, p.base, 0) {
        Some(env) => assoc_get(env.types, p.name),
        None => None,
    }
}

/// What a module lookup by path returns.
pub open spec fn spec_resolve_module(m: SpecModule, p: PathView) -> Option<SpecModule> {
    match spec_descend(m, p.base, 0) {
        Some(env) => assoc_get(env.modules, p.name),
        None => None,
    }
}

/// Normalizes a path base into an absolute sequence of submodule names:
/// a descend step pushes its name; an ascend step pops the most recently
/// pushed one, and does nothing at the root.
pub fn normalize_path_base(value: Vec<PathPart>) -> (r: Vec<ident::Instance>)
    ensures
        idents_view(r@) == spec_normalize_from(
            Seq::empty(),
            path_part_views(value@),
            0,
        ),
{
    let ghost all = path_part_views(value@);
    let mut rest = value;
    let mut parts: Vec<ident::Instance> = Vec::new();
    proof {
        assert(idents_view(parts@) =~= Seq::<Seq<Seq<char>>>::empty());
        assert(path_part_views(rest@) =~= all.skip(0));
    }
    while rest.len() > 0
        invariant
            rest@.len() <= all.len(),
            path_part_views(rest@) =~= all.skip(all.len() - rest@.len()),
            spec_normalize_from(Seq::empty(), all, 0) == spec_normalize_from(
                idents_view(parts@),
                all,
                all.len() - rest@.len(),
            ),
        decreases rest@.len(),
    {
        let ghost i = all.len() - rest@.len();
        let ghost old_parts = idents_view(parts@);
        let ghost old_rest = rest@;
        let part = rest.remove(0);
        proof {
            assert(path_part_views(old_rest)[0] == all[i]);
            assert(part@ == all[i]);
            assert(rest@ =~= old_rest.skip(1));
            assert forall|j: int| 0 <= j < rest@.len() implies path_part_views(rest@)[j]
                == all.skip(i + 1)[j] by {
                assert(rest@[j] == old_rest[j + 1]);
                assert(path_part_views(old_rest)[j + 1] == all.skip(i)[j + 1]);
            }
            assert(path_part_views(rest@) =~= all.skip(i + 1));
        }
        match part {
            PathPart::Super => {
                let _dropped = parts.pop();
                proof {
                    if old_parts.len() > 0 {
                        assert(idents_view(parts@) =~= old_parts.drop_last());
                    } else {
                        assert(idents_view(parts@) =~= old_parts);
                    }
                }
            },
            PathPart::Module(name) => {
                parts.push(name);
                proof {
                    assert(idents_view(parts@) =~= old_parts.push(parts@.last()@));
                }
            },
        }
    }
    proof {
        assert(all.len() - rest@.len() == all.len());
    }
    parts
}

impl Module {
    /// Walks navigation steps from this module as the walk's root; absence
    /// at any step, or ascending past this module, yields nothing.
    pub fn path<'a>(&'a self, names: &[EnvIdent]) -> (r: Option<&'a Module>)
        ensures
            match r {
                Some(m) => spec_navigate(Seq::empty(), self@, env_views(names@), 0) == Some(m@),
                None => spec_navigate(Seq::empty(), self@, env_views(names@), 0) is None,
            },
    {
        let mut stack: Vec<&Module> = Vec::new();
        let mut env: &Module = self;
        let mut i: usize = 0;
        proof {
            assert(stack_views(stack@) =~= Seq::<SpecModule>::empty());
        }
        while i < names.len()
            invariant
                0 <= i <= names@.len(),
                spec_navigate(Seq::empty(), self@, env_views(names@), 0) == spec_navigate(
                    stack_views(stack@),
                    env@,
                    env_views(names@),
                    i as int,
                ),
            decreases names@.len() - i,
        {
            let ghost old_stack = stack_views(stack@);
            match vstd::slice::slice_index_get(names, i) {
                EnvIdent::Sub(name) => {
                    proof {
                        lemma_module_view_maps(*env);
                    }
                    match assoc_find(&env.modules, name) {
                        Some(m) => {
                            stack.push(env);
                            proof {
                                assert(stack_views(stack@) =~= old_stack.push(env@));
                            }
                            env = m;
                        },
                        None => {
                            return None;
                        },
                    }
                },
                EnvIdent::Super => {
                    match stack.pop() {
                        Some(prev) => {
                            proof {
                                assert(stack_views(stack@) =~= old_stack.drop_last());
                                assert(prev@ == old_stack.last());
                            }
                            env = prev;
                        },
                        None => {
                            return None;
                        },
                    }
                },
            }
            i = i + 1;
        }
        Some(env)
    }

    /// Descends along a sequence of submodule names; absence anywhere
    /// yields nothing.
    pub fn module_of_path_base<'a>(&'a self, value: &[ident::Instance]) -> (r: Option<&'a Module>)
        ensures
            match r {
                Some(m) => spec_descend(self@, idents_view(value@), 0) == Some(m@),
                None => spec_descend(self@, idents_view(value@), 0) is None,
            },
    {
        let mut current: &Module = self;
        let mut i: usize = 0;
        while i < value.len()
            invariant
                0 <= i <= value@.len(),
                spec_descend(self@, idents_view(value@), 0) == spec_descend(
                    current@,
                    idents_view(value@),
                    i as int,
                ),
            decreases value@.len() - i,
        {
            proof {
                lemma_module_view_maps(*current);
            }
            match assoc_find(&current.modules, vstd::slice::slice_index_get(value, i)) {
                Some(m) => {
                    current = m;
                },
                None => {
                    return None;
                },
            }
            i = i + 1;
        }
        Some(current)
    }

    /// Looks a function up by path: descend along the base, then the entry
    /// under the terminal name; absence at any stage yields nothing.
    pub fn function<'a>(&'a self, path: &path::Instance) -> (r: Option<&'a Function>)
        ensures
            match r {
                Some(f) => spec_resolve_function(self@, path@) == Some(f@),
                None => spec_resolve_function(self@, path@) is None,
            },
    {
        match self.module_of_path_base(path.parts.as_slice()) {
            Some(env) => {
                proof {
                    lemma_module_view_maps(*env);
                }
                assoc_find(&env.functions, &path.name)
            },
            None => None,
        }
    }

    /// Looks a type up by path.
    pub fn type_<'a>(&'a self, path: &path::Instance) -> (r: Option<&'a Type>)
        ensures
            match r {
                Some(t) => spec_resolve_type(self@, path@) == Some(t@),
                None => spec_resolve_type(self@, path@) is None,
            },
    {
        match self.module_of_path_base(path.parts.as_slice()) {
            Some(env) => {
                proof {
                    lemma_module_view_maps(*env);
                }
                assoc_find(&env.types, &path.name)
            },
            None => None,
        }
    }

    /// Looks a submodule up by path.
    pub fn module<'a>(&'a self, path: &path::Instance) -> (r: Option<&'a Module>)
        ensures
            match r {
                Some(m) => spec_resolve_module(self@, path@) == Some(m@),
                None => spec_resolve_module(self@, path@) is None,
            },
    {
        match self.module_of_path_base(path.parts.as_slice()) {
            Some(env) => {
                proof {
                    lemma_module_view_maps(*env);
                }
                assoc_find(&env.modules, &path.name)
            },
            None => None,
        }
    }

    /// Looks a function up under navigation steps and a terminal name.
    pub fn function_at<'a>(&'a self, path: &[EnvIdent], name: &ident::Instance) -> (r: Option<
        &'a Function,
    >)
        ensures
            match r {
                Some(f) => (match spec_navigate(Seq::empty(), self@, env_views(path@), 0) {
                    Some(env) => assoc_get(env.functions, name@),
                    None => None,
                }) == Some(f@),
                None => (match spec_navigate(Seq::empty(), self@, env_views(path@), 0) {
                    Some(env) => assoc_get(env.functions, name@),
                    None => None,
                }) is None,
            },
    {
        match self.path(path) {
            Some(env) => {
                proof {
                    lemma_module_view_maps(*env);
                }
                assoc_find(&env.functions, name)
            },
            None => None,
        }
    }

    /// Looks a type up under navigation steps and a terminal name.
    pub fn type_at<'a>(&'a self, path: &[EnvIdent], name: &ident::Instance) -> (r: Option<
        &'a Type,
    >)
        ensures
            match r {
                Some(t) => (match spec_navigate(Seq::empty(), self@, env_views(path@), 0) {
                    Some(env) => assoc_get(env.types, name@),
                    None => None,
                }) == Some(t@),
                None => (match spec_navigate(Seq::empty(), self@, env_views(path@), 0) {
                    Some(env) => assoc_get(env.types, name@),
                    None => None,
                }) is None,
            },
    {
        match self.path(path) {
            Some(env) => {
                proof {
                    lemma_module_view_maps(*env);
                }
                assoc_find(&env.types, name)
            },
            None => None,
        }
    }
}

} // verus!
