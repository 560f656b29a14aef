//! Character classifier: maps one character to exactly one typed category —
//! letter, digit, operator symbol, quote delimiter, open or close bracket
//! (with its kind), or whitespace — or signals that the character is not
//! recognized. The classification performs no lookahead; the category sets
//! are fixed and disjoint.

use vstd::prelude::*;

verus! {

/// The kind of a quote delimiter.
#[derive(Clone, Copy, Debug, PartialEq, Eq, Structural)]
pub enum LiteralVariant {
    Double,
    Single,
}

/// The kind of a bracket.
#[derive(Clone, Copy, Debug, PartialEq, Eq, Structural)]
pub enum ScopeVariant {
    Squared,
    Curly,
    Rounded,
}

/// The category of one character.
#[derive(Clone, Copy, Debug, PartialEq, Eq, Structural)]
pub enum CharType {
    Alpha { value: char },
    Numeric { value: char },
    Operator { value: char },
    Linear { variant: LiteralVariant },
    OpenScope { variant: ScopeVariant },
    CloseScope { variant: ScopeVariant },
    Whitespace,
}

/// A letter, in either case.
pub open spec fn alpha_char(c: char) -> bool {
    ('a' <= c && c <= 'z') || ('A' <= c && c <= 'Z')
}

/// A decimal digit.
pub open spec fn numeric_char(c: char) -> bool {
    '0' <= c && c <= '9'
}

/// An operator symbol.
pub open spec fn operator_char(c: char) -> bool {
    c == '`' || c == '~' || c == '!' || c == '@' || c == '#' || c == '$' || c == '%' || c == '^'
        || c == '&' || c == '*' || c == '-' || c == '_' || c == '=' || c == '+' || c == '|'
        || c == '\\' || c == ';' || c == ':' || c == ',' || c == '<' || c == '.' || c == '>'
        || c == '/' || c == '?'
}

/// A whitespace character the tokenizing layers recognize.
pub open spec fn whitespace_char(c: char) -> bool {
    c == ' ' || c == '\n' || c == '\r'
}

/// What `get_char_type` returns: exactly one category, or none for a
/// character outside every set.
pub open spec fn spec_char_type(c: char) -> Option<CharType> {
    if alpha_char(c) {
        Some(CharType::Alpha { value: c })
    } else if numeric_char(c) {
        Some(CharType::Numeric { value: c })
    } else if operator_char(c) {
        Some(CharType::Operator { value: c })
    } else if c == '\'' {
        Some(CharType::Linear { variant: LiteralVariant::Single })
    } else if c == '"' {
        Some(CharType::Linear { variant: LiteralVariant::Double })
    } else if c == '(' {
        Some(CharType::OpenScope { variant: ScopeVariant::Rounded })
    } else if c == '[' {
        Some(CharType::OpenScope { variant: ScopeVariant::Squared })
    } else if c == '{' {
        Some(CharType::OpenScope { variant: ScopeVariant::Curly })
    } else if c == ')' {
        Some(CharType::CloseScope { variant: ScopeVariant::Rounded })
    } else if c == ']' {
        Some(CharType::CloseScope { variant: ScopeVariant::Squared })
    } else if c == '}' {
        Some(CharType::CloseScope { variant: ScopeVariant::Curly })
    } else if whitespace_char(c) {
        Some(CharType::Whitespace)
    } else {
        None
    }
}

/// Classifies one character, or signals an unrecognized one.
pub fn get_char_type(character: char) -> (r: Option<CharType>)
    ensures
        r == spec_char_type(character),
{
    if (character >= 'a' && character <= 'z') || (character >= 'A' && character <= 'Z') {
        Some(CharType::Alpha { value: character })
    } else if character >= '0' && character <= '9' {
        Some(CharType::Numeric { value: character })
    } else {
        match character {
            '`' | '~' | '!' | '@' | '#' | '$' | '%' | '^' | '&' | '*' | '-' | '_' | '=' | '+'
                | '|' | '\\' | ';' | ':' | ',' | '<' | '.' | '>' | '/' | '?' => Some(
                CharType::Operator { value: character },
            ),
            '\'' => Some(CharType::Linear { variant: LiteralVariant::Single }),
            '"' => Some(CharType::Linear { variant: LiteralVariant::Double }),
            '(' => Some(CharType::OpenScope { variant: ScopeVariant::Rounded }),
            '[' => Some(CharType::OpenScope { variant: ScopeVariant::Squared }),
            '{' => Some(CharType::OpenScope { variant: ScopeVariant::Curly }),
            ')' => Some(CharType::CloseScope { variant: ScopeVariant::Rounded }),
            ']' => Some(CharType::CloseScope { variant: ScopeVariant::Squared }),
            '}' => Some(CharType::CloseScope { variant: ScopeVariant::Curly }),
            ' ' | '\n' | '\r' => Some(CharType::Whitespace),
            _ => None,
        }
    }
}

} // verus!
