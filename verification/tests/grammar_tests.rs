use modlang::ast::{Expression, Item, Pattern};
use modlang::grammar::{
    mul_field_from_chars_prefix, strip_space, ExpressionFromCharsPrefixError,
    MulFieldFromCharsPrefixError,
};
use modlang::ident::{Case, Instance as Ident};
use modlang::item::ItemFromCharsPrefixError;
use modlang::number::Instance as Number;
use modlang::path::Instance as Path;
use modlang::pattern::PatternFromCharsPrefixError;

fn chars_of(s: &str) -> Vec<char> {
    s.chars().collect()
}

fn snake(s: &str) -> Ident {
    let input = chars_of(s);
    let (id, rest) = Ident::from_chars_snake_case_prefix(&input).unwrap();
    assert!(rest.is_empty());
    id
}

fn pascal(s: &str) -> Ident {
    let input = chars_of(s);
    let (id, rest) = Ident::from_chars_pascal_case_prefix(&input).unwrap();
    assert!(rest.is_empty());
    id
}

fn number(s: &str) -> Number {
    let input = chars_of(s);
    let (n, rest) = Number::from_chars_prefix(&input).unwrap();
    assert!(rest.is_empty());
    n
}

#[test]
fn path_with_base_and_pascal_name() {
    let input = chars_of("a::b::Foo");
    let (p, rest) = Path::from_char_prefix(&input).unwrap();
    assert_eq!(p.parts, vec![snake("a"), snake("b")]);
    assert_eq!(p.name, pascal("Foo"));
    assert_eq!(p.case, Case::Pascal);
    assert!(rest.is_empty());
}

#[test]
fn path_of_one_snake_segment() {
    let input = chars_of("print hello");
    let (p, rest) = Path::from_char_prefix(&input).unwrap();
    assert!(p.parts.is_empty());
    assert_eq!(p.name, snake("print"));
    assert_eq!(p.case, Case::Snake);
    assert_eq!(rest, &chars_of(" hello")[..]);
}

#[test]
fn path_without_any_segment_is_no_match() {
    assert!(Path::from_char_prefix(&chars_of(" foo")).is_none());
    assert!(Path::from_char_prefix(&chars_of("")).is_none());
}

#[test]
fn call_of_variable() {
    let input = chars_of("print hello");
    let (e, rest) = Expression::from_chars_prefix(&input).unwrap();
    let expected = Expression::Call {
        path: Path { parts: vec![], name: snake("print"), case: Case::Snake },
        input: Box::new(Expression::Variable { name: snake("hello") }),
    };
    assert_eq!(e, expected);
    assert!(rest.is_empty());
}

#[test]
fn sum_construction() {
    let input = chars_of("Option:Some value");
    let (e, rest) = Expression::from_chars_prefix(&input).unwrap();
    let expected = Expression::Sum {
        path: Path { parts: vec![], name: pascal("Option"), case: Case::Pascal },
        tag: pascal("Some"),
        body: Box::new(Expression::Variable { name: snake("value") }),
    };
    assert_eq!(e, expected);
    assert!(rest.is_empty());
}

#[test]
fn mul_construction_with_two_fields() {
    let input = chars_of("Point{X=1,Y=2}");
    let (e, rest) = Expression::from_chars_prefix(&input).unwrap();
    match &e {
        Expression::Mul { path, fields } => {
            assert_eq!(path.name, pascal("Point"));
            assert_eq!(fields.len(), 2);
        },
        other => panic!("expected a record construction, got {:?}", other),
    }
    let expected = Expression::Mul {
        path: Path { parts: vec![], name: pascal("Point"), case: Case::Pascal },
        fields: vec![
            (pascal("X"), Expression::Number { value: number("1") }),
            (pascal("Y"), Expression::Number { value: number("2") }),
        ],
    };
    assert_eq!(e, expected);
    assert!(rest.is_empty());
}

#[test]
fn duplicate_field_overwrites_earlier_one() {
    let input = chars_of("Point{X=1,X=2}");
    let (e, _) = Expression::from_chars_prefix(&input).unwrap();
    let expected = Expression::Mul {
        path: Path { parts: vec![], name: pascal("Point"), case: Case::Pascal },
        fields: vec![(pascal("X"), Expression::Number { value: number("2") })],
    };
    assert_eq!(e, expected);
}

#[test]
fn parenthesized_expression_is_transparent() {
    let input = chars_of("(hello )rest");
    let (e, rest) = Expression::from_chars_prefix(&input).unwrap();
    assert_eq!(e, Expression::Variable { name: snake("hello") });
    assert_eq!(rest, &chars_of("rest")[..]);
}

#[test]
fn qualified_call_requires_argument() {
    let input = chars_of("a::print");
    let r = Expression::from_chars_prefix(&input);
    assert_eq!(r, Err(ExpressionFromCharsPrefixError::UnexpectedPrefix));
}

#[test]
fn qualified_call_with_argument() {
    let input = chars_of("a::print hello");
    let (e, rest) = Expression::from_chars_prefix(&input).unwrap();
    let expected = Expression::Call {
        path: Path { parts: vec![snake("a")], name: snake("print"), case: Case::Snake },
        input: Box::new(Expression::Variable { name: snake("hello") }),
    };
    assert_eq!(e, expected);
    assert!(rest.is_empty());
}

#[test]
fn expression_error_variants() {
    assert_eq!(
        Expression::from_chars_prefix(&chars_of(")")),
        Err(ExpressionFromCharsPrefixError::UnexpectedPrefix)
    );
    assert_eq!(
        Expression::from_chars_prefix(&chars_of("(hello")),
        Err(ExpressionFromCharsPrefixError::CloseBracketExpected)
    );
    assert_eq!(
        Expression::from_chars_prefix(&chars_of("Option: value")),
        Err(ExpressionFromCharsPrefixError::SumTagNameExpected)
    );
    assert_eq!(
        Expression::from_chars_prefix(&chars_of("Option:Some )")),
        Err(ExpressionFromCharsPrefixError::SumValue(Box::new(
            ExpressionFromCharsPrefixError::UnexpectedPrefix
        )))
    );
    assert_eq!(
        Expression::from_chars_prefix(&chars_of("Point{=1}")),
        Err(ExpressionFromCharsPrefixError::MulField(Box::new(
            MulFieldFromCharsPrefixError::NameExpected
        )))
    );
    assert_eq!(
        Expression::from_chars_prefix(&chars_of("Point{X 1}")),
        Err(ExpressionFromCharsPrefixError::MulField(Box::new(
            MulFieldFromCharsPrefixError::EqualSignExpected
        )))
    );
    assert_eq!(
        Expression::from_chars_prefix(&chars_of("Point{X=)}")),
        Err(ExpressionFromCharsPrefixError::MulField(Box::new(
            MulFieldFromCharsPrefixError::ExpressionExpected(
                ExpressionFromCharsPrefixError::UnexpectedPrefix
            )
        )))
    );
    assert_eq!(
        Expression::from_chars_prefix(&chars_of("Foo bar")),
        Err(ExpressionFromCharsPrefixError::UnexpectedTypeSuffix)
    );
}

#[test]
fn leading_digit_parses_as_numeral_expression() {
    let input = chars_of("42");
    let (e, rest) = Expression::from_chars_prefix(&input).unwrap();
    assert_eq!(e, Expression::Number { value: number("42") });
    assert!(rest.is_empty());
}

#[test]
fn one_mul_field_consumes_optional_comma() {
    let input = chars_of("X=1, Y=2}");
    let (name, e, rest) = mul_field_from_chars_prefix(&input).unwrap();
    assert_eq!(name, pascal("X"));
    assert_eq!(e, Expression::Number { value: number("1") });
    assert_eq!(rest, &chars_of(" Y=2}")[..]);
}

#[test]
fn strip_space_skips_spaces_and_newlines_only() {
    let input = chars_of(" \n x");
    assert_eq!(strip_space(&input), &chars_of("x")[..]);
    let input = chars_of("\tx");
    assert_eq!(strip_space(&input), &chars_of("\tx")[..]);
}

#[test]
fn function_item_parses() {
    let input = chars_of("fn main { print hello }rest");
    let (name, item, rest) = Item::try_from_chars_prefix(&input).unwrap();
    assert_eq!(name, snake("main"));
    let expected_body = Expression::Call {
        path: Path { parts: vec![], name: snake("print"), case: Case::Snake },
        input: Box::new(Expression::Variable { name: snake("hello") }),
    };
    match item {
        Item::Function(f) => {
            assert!(!f.is_external);
            assert_eq!(f.expression, expected_body);
        },
        other => panic!("expected a function item, got {:?}", other),
    }
    assert_eq!(rest, &chars_of("rest")[..]);
}

#[test]
fn module_item_collects_functions_and_submodules() {
    let input = chars_of("mod a { fn f { x } mod b { fn g { y } } }");
    let (name, item, rest) = Item::try_from_chars_prefix(&input).unwrap();
    assert_eq!(name, snake("a"));
    match item {
        Item::Module(m) => {
            assert_eq!(m.functions.len(), 1);
            assert_eq!(m.functions[0].0, snake("f"));
            assert!(m.types.is_empty());
            assert_eq!(m.modules.len(), 1);
            assert_eq!(m.modules[0].0, snake("b"));
            match &m.modules[0].1.functions[..] {
                [(g, f)] => {
                    assert_eq!(*g, snake("g"));
                    assert_eq!(f.expression, Expression::Variable { name: snake("y") });
                },
                other => panic!("expected one function, got {:?}", other),
            }
        },
        other => panic!("expected a module item, got {:?}", other),
    }
    assert!(rest.is_empty());
}

#[test]
fn duplicate_declaration_overwrites_earlier_one() {
    let input = chars_of("mod a { fn f { x } fn f { y } }");
    let (_, item, _) = Item::try_from_chars_prefix(&input).unwrap();
    match item {
        Item::Module(m) => {
            assert_eq!(m.functions.len(), 1);
            assert_eq!(
                m.functions[0].1.expression,
                Expression::Variable { name: snake("y") }
            );
        },
        other => panic!("expected a module item, got {:?}", other),
    }
}

#[test]
fn item_error_variants() {
    assert_eq!(
        Item::try_from_chars_prefix(&chars_of("zebra")),
        Err(ItemFromCharsPrefixError::UnknownPrefix)
    );
    assert_eq!(
        Item::try_from_chars_prefix(&chars_of("fn Foo {x}")),
        Err(ItemFromCharsPrefixError::FnNameExpected)
    );
    assert_eq!(
        Item::try_from_chars_prefix(&chars_of("fn foo x")),
        Err(ItemFromCharsPrefixError::OpenCurlyBraceExpected)
    );
    assert_eq!(
        Item::try_from_chars_prefix(&chars_of("fn foo { x")),
        Err(ItemFromCharsPrefixError::CloseCurlyBraceExpected)
    );
    assert_eq!(
        Item::try_from_chars_prefix(&chars_of("fn foo { ) }")),
        Err(ItemFromCharsPrefixError::FnExpression(
            ExpressionFromCharsPrefixError::UnexpectedPrefix
        ))
    );
    assert_eq!(
        Item::try_from_chars_prefix(&chars_of("mod a x")),
        Err(ItemFromCharsPrefixError::OpenCurlyBraceExpected)
    );
}

#[test]
fn pattern_tag_and_catch_all() {
    let input = chars_of("Some{X=1}");
    let (p, rest) = Pattern::try_from_chars_prefix(&input).unwrap();
    let expected = Pattern::Tag(
        pascal("Some"),
        Box::new(Pattern::Fields(vec![(
            pascal("X"),
            Pattern::Equals(Expression::Number { value: number("1") }),
        )])),
    );
    assert_eq!(p, expected);
    assert!(rest.is_empty());

    let input = chars_of("None rest");
    let (p, rest) = Pattern::try_from_chars_prefix(&input).unwrap();
    assert_eq!(p, Pattern::Any(pascal("None")));
    assert_eq!(rest, &chars_of(" rest")[..]);
}

#[test]
fn pattern_equals_expression() {
    let input = chars_of("hello");
    let (p, rest) = Pattern::try_from_chars_prefix(&input).unwrap();
    assert_eq!(p, Pattern::Equals(Expression::Variable { name: snake("hello") }));
    assert!(rest.is_empty());
}

#[test]
fn pattern_error_variants() {
    assert_eq!(
        Pattern::try_from_chars_prefix(&chars_of(" ")),
        Err(PatternFromCharsPrefixError::UnknownPrefix)
    );
    assert_eq!(
        Pattern::try_from_chars_prefix(&chars_of("{=1}")),
        Err(PatternFromCharsPrefixError::FieldNameExpected)
    );
    assert_eq!(
        Pattern::try_from_chars_prefix(&chars_of("{X}")),
        Err(PatternFromCharsPrefixError::EqualSignExpected)
    );
    assert_eq!(
        Pattern::try_from_chars_prefix(&chars_of("{X= }")),
        Err(PatternFromCharsPrefixError::FieldPattern(Box::new(
            PatternFromCharsPrefixError::UnknownPrefix
        )))
    );
    assert_eq!(
        Pattern::try_from_chars_prefix(&chars_of("(x")),
        Err(PatternFromCharsPrefixError::EqualsExpression(
            ExpressionFromCharsPrefixError::CloseBracketExpected
        ))
    );
}

#[test]
fn variable_downgrade_leaves_stripped_remainder() {
    let input = chars_of("hello ");
    let (e, rest) = Expression::from_chars_prefix(&input).unwrap();
    assert_eq!(e, Expression::Variable { name: snake("hello") });
    assert!(rest.is_empty());
}

#[test]
fn nested_parentheses_stay_transparent() {
    let input = chars_of("((hello))");
    let (e, rest) = Expression::from_chars_prefix(&input).unwrap();
    assert_eq!(e, Expression::Variable { name: snake("hello") });
    assert!(rest.is_empty());
}

#[test]
fn path_case_follows_the_last_segment() {
    let input = chars_of("Foo::bar");
    let (p, rest) = Path::from_char_prefix(&input).unwrap();
    assert_eq!(p.parts, vec![pascal("Foo")]);
    assert_eq!(p.name, snake("bar"));
    assert_eq!(p.case, Case::Snake);
    assert!(rest.is_empty());
}

#[test]
fn pattern_tag_takes_no_whitespace_before_its_body() {
    let input = chars_of("Some X");
    let (p, rest) = Pattern::try_from_chars_prefix(&input).unwrap();
    assert_eq!(p, Pattern::Any(pascal("Some")));
    assert_eq!(rest, &chars_of(" X")[..]);
}

#[test]
fn numeral_alternative_wins_over_an_identifier_with_a_digit_start() {
    let input = chars_of("1foo");
    let (e, rest) = Expression::from_chars_prefix(&input).unwrap();
    assert_eq!(e, Expression::Number { value: number("1") });
    assert_eq!(rest, &chars_of("foo")[..]);
}

#[test]
fn grammar_entry_points_are_repeatable() {
    let input = chars_of("Point{X=1,Y=2} rest");
    assert_eq!(
        Expression::from_chars_prefix(&input),
        Expression::from_chars_prefix(&input)
    );
    let input = chars_of("fn main { print hello }");
    assert_eq!(
        Item::try_from_chars_prefix(&input),
        Item::try_from_chars_prefix(&input)
    );
    let input = chars_of("Some{X=1}");
    assert_eq!(
        Pattern::try_from_chars_prefix(&input),
        Pattern::try_from_chars_prefix(&input)
    );
    let input = chars_of("a::b::Foo");
    assert_eq!(Path::from_char_prefix(&input), Path::from_char_prefix(&input));
}
