use modlang::chars::{get_char_type, CharType, LiteralVariant, ScopeVariant};
use modlang::ident::{Case, Char, Instance as Ident, Part};
use modlang::number::{Digit, Instance as Number};

fn chars_of(s: &str) -> Vec<char> {
    s.chars().collect()
}

fn part(first: Char, others: &[Char]) -> Part {
    Part { first, others: others.to_vec() }
}

#[test]
fn snake_parses_full_maximal_prefix() {
    let input = chars_of("foo_bar_baz");
    let (id, rest) = Ident::from_chars_snake_case_prefix(&input).unwrap();
    let expected = Ident {
        first: part(Char::F, &[Char::O, Char::O]),
        others: vec![
            part(Char::B, &[Char::A, Char::R]),
            part(Char::B, &[Char::A, Char::Z]),
        ],
    };
    assert_eq!(id, expected);
    assert_eq!(rest.len(), 0);
}

#[test]
fn snake_stops_before_non_extending_rest() {
    let input = chars_of("foo_bar baz");
    let (id, rest) = Ident::from_chars_snake_case_prefix(&input).unwrap();
    let expected = Ident {
        first: part(Char::F, &[Char::O, Char::O]),
        others: vec![part(Char::B, &[Char::A, Char::R])],
    };
    assert_eq!(id, expected);
    assert_eq!(rest, &chars_of(" baz")[..]);
}

#[test]
fn snake_rejects_trailing_underscore() {
    let input = chars_of("foo_");
    assert!(Ident::from_chars_snake_case_prefix(&input).is_none());
}

#[test]
fn snake_rejects_underscore_before_capital() {
    let input = chars_of("foo_Bar");
    assert!(Ident::from_chars_snake_case_prefix(&input).is_none());
}

#[test]
fn snake_rejects_empty_and_capital_start() {
    assert!(Ident::from_chars_snake_case_prefix(&chars_of("")).is_none());
    assert!(Ident::from_chars_snake_case_prefix(&chars_of("Foo")).is_none());
}

#[test]
fn pascal_parses_two_parts() {
    let input = chars_of("FooBar");
    let (id, rest) = Ident::from_chars_pascal_case_prefix(&input).unwrap();
    let expected = Ident {
        first: part(Char::F, &[Char::O, Char::O]),
        others: vec![part(Char::B, &[Char::A, Char::R])],
    };
    assert_eq!(id, expected);
    assert_eq!(rest.len(), 0);
}

#[test]
fn pascal_rejects_lowercase_start_but_snake_takes_prefix() {
    let input = chars_of("fooBar");
    assert!(Ident::from_chars_pascal_case_prefix(&input).is_none());
    let (id, rest) = Ident::from_chars_snake_case_prefix(&input).unwrap();
    let expected = Ident { first: part(Char::F, &[Char::O, Char::O]), others: vec![] };
    assert_eq!(id, expected);
    assert_eq!(rest, &chars_of("Bar")[..]);
}

#[test]
fn combined_ident_prefix_recognizes_only_pascal_and_tags_snake() {
    let input = chars_of("Foo");
    let (id, case, rest) = Ident::from_chars_prefix(&input).unwrap();
    assert_eq!(id, Ident { first: part(Char::F, &[Char::O, Char::O]), others: vec![] });
    assert!(case.is_snake());
    assert_eq!(rest.len(), 0);
    assert!(Ident::from_chars_prefix(&chars_of("foo")).is_none());
}

#[test]
fn ident_digits_one_two_three_are_word_characters() {
    let input = chars_of("a12_b3");
    let (id, rest) = Ident::from_chars_snake_case_prefix(&input).unwrap();
    let expected = Ident {
        first: part(Char::A, &[Char::One, Char::Two]),
        others: vec![part(Char::B, &[Char::Three])],
    };
    assert_eq!(id, expected);
    assert_eq!(rest.len(), 0);
    // the other digits are not recognized inside identifiers
    let narrow_input = chars_of("a4");
    let (_, rest) = Ident::from_chars_snake_case_prefix(&narrow_input).unwrap();
    assert_eq!(rest, &chars_of("4")[..]);
}

#[test]
fn char_tables_normalize_case() {
    assert_eq!(Char::from_lowercase_char('q'), Some(Char::Q));
    assert_eq!(Char::from_lowercase_char('Q'), None);
    assert_eq!(Char::from_char('Q'), Some(Char::Q));
    assert_eq!(Char::from_char('q'), Some(Char::Q));
    assert_eq!(Char::from_lowercase_char('4'), None);
    assert_eq!(Char::from_char('_'), None);
}

#[test]
fn case_predicates() {
    assert!(Case::Snake.is_snake());
    assert!(!Case::Snake.is_pascal());
    assert!(Case::Pascal.is_pascal());
    assert!(!Case::Pascal.is_snake());
}

#[test]
fn part_parsers_take_maximal_runs() {
    let lower_input = chars_of("abc_d");
    let (p, rest) = Part::from_chars_lowercase_prefix(&lower_input).unwrap();
    assert_eq!(p, part(Char::A, &[Char::B, Char::C]));
    assert_eq!(rest, &chars_of("_d")[..]);
    let pascal_input = chars_of("AbcDe");
    let (p, rest) = Part::from_chars_pascal_case_prefix(&pascal_input).unwrap();
    assert_eq!(p, part(Char::A, &[Char::B, Char::C]));
    assert_eq!(rest, &chars_of("De")[..]);
    assert!(Part::from_chars_pascal_case_prefix(&chars_of("abc")).is_none());
}

#[test]
fn number_parses_maximal_digit_prefix() {
    let digit_input = chars_of("0123x");
    let (n, rest) = Number::from_chars_prefix(&digit_input).unwrap();
    let expected = Number {
        first: Digit::Zero,
        others: vec![Digit::One, Digit::Two, Digit::Three],
    };
    assert_eq!(n, expected);
    assert_eq!(rest, &chars_of("x")[..]);
    assert!(Number::from_chars_prefix(&chars_of("x1")).is_none());
    assert!(Number::from_chars_prefix(&chars_of("")).is_none());
}

#[test]
fn digit_table_covers_all_ten() {
    assert_eq!(Digit::from_char('0'), Some(Digit::Zero));
    assert_eq!(Digit::from_char('9'), Some(Digit::Nine));
    assert_eq!(Digit::from_char('a'), None);
}

#[test]
fn classifier_gives_one_category_per_character() {
    assert_eq!(get_char_type('a'), Some(CharType::Alpha { value: 'a' }));
    assert_eq!(get_char_type('Z'), Some(CharType::Alpha { value: 'Z' }));
    assert_eq!(get_char_type('7'), Some(CharType::Numeric { value: '7' }));
    assert_eq!(get_char_type('+'), Some(CharType::Operator { value: '+' }));
    assert_eq!(get_char_type('\''), Some(CharType::Linear { variant: LiteralVariant::Single }));
    assert_eq!(get_char_type('"'), Some(CharType::Linear { variant: LiteralVariant::Double }));
    assert_eq!(get_char_type('['), Some(CharType::OpenScope { variant: ScopeVariant::Squared }));
    assert_eq!(get_char_type('}'), Some(CharType::CloseScope { variant: ScopeVariant::Curly }));
    assert_eq!(get_char_type(' '), Some(CharType::Whitespace));
    assert_eq!(get_char_type('\r'), Some(CharType::Whitespace));
    assert_eq!(get_char_type('\u{e9}'), None);
}

#[test]
fn ident_parses_are_repeatable() {
    let input = chars_of("foo_bar rest");
    let a = Ident::from_chars_snake_case_prefix(&input);
    let b = Ident::from_chars_snake_case_prefix(&input);
    assert_eq!(a, b);
    let input = chars_of("FooBar rest");
    let a = Ident::from_chars_pascal_case_prefix(&input);
    let b = Ident::from_chars_pascal_case_prefix(&input);
    assert_eq!(a, b);
}
