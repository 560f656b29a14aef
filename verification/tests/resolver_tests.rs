use modlang::ast::{EnvIdent, Expression, Function, Item, Module, PathPart};
use modlang::ident::{Case, Instance as Ident};
use modlang::path::Instance as Path;
use modlang::resolver::normalize_path_base;

fn chars_of(s: &str) -> Vec<char> {
    s.chars().collect()
}

fn snake(s: &str) -> Ident {
    let input = chars_of(s);
    let (id, rest) = Ident::from_chars_snake_case_prefix(&input).unwrap();
    assert!(rest.is_empty());
    id
}

fn parse_module(text: &str) -> (Ident, Module) {
    let input = chars_of(text);
    let (name, item, rest) = Item::try_from_chars_prefix(&input).unwrap();
    assert!(rest.is_empty());
    match item {
        Item::Module(m) => (name, m),
        other => panic!("expected a module, got {:?}", other),
    }
}

fn nested_tree_root() -> Module {
    let (a_name, a_module) = parse_module("mod a { mod b { fn f { x } } }");
    Module { functions: vec![], types: vec![], modules: vec![(a_name, a_module)] }
}

#[test]
fn resolving_descend_steps_and_name_yields_the_function() {
    let root = nested_tree_root();
    let steps = vec![EnvIdent::Sub(snake("a")), EnvIdent::Sub(snake("b"))];
    let f = root.function_at(&steps, &snake("f")).unwrap();
    assert!(!f.is_external);
    assert_eq!(f.expression, Expression::Variable { name: snake("x") });
}

#[test]
fn ascending_from_a_submodule_yields_its_parent() {
    let root = nested_tree_root();
    let steps = vec![
        EnvIdent::Sub(snake("a")),
        EnvIdent::Sub(snake("b")),
        EnvIdent::Super,
    ];
    let reached = root.path(&steps).unwrap();
    let (_, expected_a) = parse_module("mod a { mod b { fn f { x } } }");
    assert_eq!(*reached, expected_a);
}

#[test]
fn ascending_past_the_walk_root_is_absence() {
    let root = nested_tree_root();
    assert!(root.path(&[EnvIdent::Super]).is_none());
}

#[test]
fn descending_into_an_absent_submodule_is_absence() {
    let root = nested_tree_root();
    let steps = vec![EnvIdent::Sub(snake("missing"))];
    assert!(root.path(&steps).is_none());
    assert!(root.function_at(&steps, &snake("f")).is_none());
}

#[test]
fn lookup_by_path_descends_the_base() {
    let root = nested_tree_root();
    let input = chars_of("a::b::f");
    let (p, rest) = Path::from_char_prefix(&input).unwrap();
    assert!(rest.is_empty());
    let f = root.function(&p).unwrap();
    assert_eq!(f.expression, Expression::Variable { name: snake("x") });

    let input = chars_of("a::b");
    let (p, _) = Path::from_char_prefix(&input).unwrap();
    let b = root.module(&p).unwrap();
    assert_eq!(b.functions.len(), 1);

    // nothing declares types, so a type lookup is absence
    let input = chars_of("a::b::f");
    let (p, _) = Path::from_char_prefix(&input).unwrap();
    assert!(root.type_(&p).is_none());
    assert!(root.type_at(&[], &snake("f")).is_none());
}

#[test]
fn module_of_path_base_walks_submodules() {
    let root = nested_tree_root();
    let base = vec![snake("a"), snake("b")];
    let b = root.module_of_path_base(&base).unwrap();
    assert_eq!(b.functions[0].0, snake("f"));
    assert!(root.module_of_path_base(&[snake("c")]).is_none());
}

#[test]
fn empty_navigation_stays_at_the_start_module() {
    let root = nested_tree_root();
    let here = root.path(&[]).unwrap();
    assert_eq!(*here, nested_tree_root());
    let (_, a) = parse_module("mod a { mod b { fn f { x } } }");
    assert!(a.function_at(&[], &snake("f")).is_none());
}

#[test]
fn ascend_resumes_against_the_walked_descends() {
    let root = nested_tree_root();
    let steps = vec![
        EnvIdent::Sub(snake("a")),
        EnvIdent::Super,
        EnvIdent::Sub(snake("a")),
        EnvIdent::Sub(snake("b")),
    ];
    let f = root.function_at(&steps, &snake("f")).unwrap();
    assert_eq!(f.expression, Expression::Variable { name: snake("x") });
}

#[test]
fn normalize_pops_descends_on_ascend() {
    let value = vec![
        PathPart::Module(snake("a")),
        PathPart::Module(snake("b")),
        PathPart::Super,
        PathPart::Module(snake("c")),
    ];
    assert_eq!(normalize_path_base(value), vec![snake("a"), snake("c")]);
}

#[test]
fn normalize_ascend_at_root_does_nothing() {
    let value = vec![PathPart::Super, PathPart::Module(snake("a"))];
    assert_eq!(normalize_path_base(value), vec![snake("a")]);
    assert_eq!(normalize_path_base(vec![]), vec![]);
}

fn hand_built_tree() -> Module {
    let main_body = Expression::Call {
        path: Path { parts: vec![], name: snake("print"), case: Case::Snake },
        input: Box::new(Expression::Variable { name: snake("hello") }),
    };
    let add_one_body = Expression::Call {
        path: Path { parts: vec![], name: snake("inc"), case: Case::Snake },
        input: Box::new(Expression::Variable { name: snake("x") }),
    };
    let util = Module {
        functions: vec![(
            snake("add_one"),
            Function { is_external: false, expression: add_one_body },
        )],
        types: vec![],
        modules: vec![],
    };
    Module {
        functions: vec![(
            snake("main"),
            Function { is_external: false, expression: main_body },
        )],
        types: vec![],
        modules: vec![(snake("util"), util)],
    }
}

#[test]
fn rendered_tree_reparses_to_a_structurally_equal_tree() {
    // the textual rendering of the hand-built tree, in the documented syntax
    let rendered = "mod root {\n fn main { print hello }\n mod util {\n  fn add_one { inc x }\n }\n}";
    let (name, reparsed) = parse_module(rendered);
    assert_eq!(name, snake("root"));
    assert_eq!(reparsed, hand_built_tree());
}
