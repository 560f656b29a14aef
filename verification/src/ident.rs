//! Identifier grammar: parses the longest valid prefix of a character
//! sequence as a snake_case or PascalCase identifier.
//!
//! An identifier is a non-empty sequence of word-parts; each word-part is a
//! non-empty sequence of recognized characters. The recognized characters are
//! the lower-case letters together with the digits `1`, `2` and `3`; the
//! digit subset is deliberately this narrow and is kept as a named alphabet
//! rather than silently widened. Case is a property of how an identifier was
//! recognized, not stored per character: a Pascal word-part's leading capital
//! is stored as the same `Char` as its lower-case form.

use vstd::prelude::*;

verus! {

/// One recognized identifier character: a lower-case letter or one of the
/// three recognized digits.
#[derive(Clone, Copy, Debug, PartialEq, Eq, Hash, Structural)]
pub enum Char {
    Q, W, E, R, T, Y, U, I, O, P,
    A, S, D, F, G, H, J, K, L,
    Z, X, C, V, B, N, M,
    One, Two, Three,
}

/// The canonical character a `Char` stands for.
pub open spec fn char_value(k: Char) -> char {
    match k {
        Char::Q => 'q', Char::W => 'w', Char::E => 'e', Char::R => 'r',
        Char::T => 't', Char::Y => 'y', Char::U => 'u', Char::I => 'i',
        Char::O => 'o', Char::P => 'p', Char::A => 'a', Char::S => 's',
        Char::D => 'd', Char::F => 'f', Char::G => 'g', Char::H => 'h',
        Char::J => 'j', Char::K => 'k', Char::L => 'l', Char::Z => 'z',
        Char::X => 'x', Char::C => 'c', Char::V => 'v', Char::B => 'b',
        Char::N => 'n', Char::M => 'm',
        Char::One => '1', Char::Two => '2', Char::Three => '3',
    }
}

impl View for Char {
    type V = char;

    open spec fn view(&self) -> char {
        char_value(*self)
    }
}

/// A character that may stand inside a word-part: a lower-case letter or a
/// recognized digit.
pub open spec fn word_char(c: char) -> bool {
    ('a' <= c && c <= 'z') || c == '1' || c == '2' || c == '3'
}

/// An upper-case letter, which may open a Pascal word-part.
pub open spec fn upper_char(c: char) -> bool {
    'A' <= c && c <= 'Z'
}

/// What `Char::from_lowercase_char` recognizes.
pub open spec fn spec_char_from_lower(c: char) -> Option<Char> {
    if c == 'q' { Some(Char::Q) } else if c == 'w' { Some(Char::W) }
    else if c == 'e' { Some(Char::E) } else if c == 'r' { Some(Char::R) }
    else if c == 't' { Some(Char::T) } else if c == 'y' { Some(Char::Y) }
    else if c == 'u' { Some(Char::U) } else if c == 'i' { Some(Char::I) }
    else if c == 'o' { Some(Char::O) } else if c == 'p' { Some(Char::P) }
    else if c == 'a' { Some(Char::A) } else if c == 's' { Some(Char::S) }
    else if c == 'd' { Some(Char::D) } else if c == 'f' { Some(Char::F) }
    else if c == 'g' { Some(Char::G) } else if c == 'h' { Some(Char::H) }
    else if c == 'j' { Some(Char::J) } else if c == 'k' { Some(Char::K) }
    else if c == 'l' { Some(Char::L) } else if c == 'z' { Some(Char::Z) }
    else if c == 'x' { Some(Char::X) } else if c == 'c' { Some(Char::C) }
    else if c == 'v' { Some(Char::V) } else if c == 'b' { Some(Char::B) }
    else if c == 'n' { Some(Char::N) } else if c == 'm' { Some(Char::M) }
    else if c == '1' { Some(Char::One) } else if c == '2' { Some(Char::Two) }
    else if c == '3' { Some(Char::Three) } else { None }
}

/// What an upper-case letter is recognized as: the `Char` of its lower-case
/// form.
pub open spec fn spec_char_from_upper(c: char) -> Option<Char> {
    if c == 'Q' { Some(Char::Q) } else if c == 'W' { Some(Char::W) }
    else if c == 'E' { Some(Char::E) } else if c == 'R' { Some(Char::R) }
    else if c == 'T' { Some(Char::T) } else if c == 'Y' { Some(Char::Y) }
    else if c == 'U' { Some(Char::U) } else if c == 'I' { Some(Char::I) }
    else if c == 'O' { Some(Char::O) } else if c == 'P' { Some(Char::P) }
    else if c == 'A' { Some(Char::A) } else if c == 'S' { Some(Char::S) }
    else if c == 'D' { Some(Char::D) } else if c == 'F' { Some(Char::F) }
    else if c == 'G' { Some(Char::G) } else if c == 'H' { Some(Char::H) }
    else if c == 'J' { Some(Char::J) } else if c == 'K' { Some(Char::K) }
    else if c == 'L' { Some(Char::L) } else if c == 'Z' { Some(Char::Z) }
    else if c == 'X' { Some(Char::X) } else if c == 'C' { Some(Char::C) }
    else if c == 'V' { Some(Char::V) } else if c == 'B' { Some(Char::B) }
    else if c == 'N' { Some(Char::N) } else if c == 'M' { Some(Char::M) }
    else { None }
}

/// What `Char::from_char` recognizes: a character in either case.
pub open spec fn spec_char_from_any(c: char) -> Option<Char> {
    match spec_char_from_lower(c) {
        Some(k) => Some(k),
        None => spec_char_from_upper(c),
    }
}

/// The lower-case form of an upper-case letter, as the grammar stores it.
pub open spec fn lower_of_upper(c: char) -> char
    recommends
        upper_char(c),
{
    match spec_char_from_upper(c) {
        Some(k) => char_value(k),
        None => c,
    }
}

pub proof fn lemma_char_from_lower_iff_word(c: char)
    ensures
        spec_char_from_lower(c) is Some <==> word_char(c),
        spec_char_from_lower(c) matches Some(k) ==> char_value(k) == c,
{
}

pub proof fn lemma_char_from_upper_iff_upper(c: char)
    ensures
        spec_char_from_upper(c) is Some <==> upper_char(c),
        spec_char_from_upper(c) matches Some(k) ==> word_char(char_value(k)),
{
}

pub proof fn lemma_char_value_injective(a: Char, b: Char)
    ensures
        char_value(a) == char_value(b) ==> a == b,
{
}

impl Char {
    /// Recognizes a lower-case letter or one of the recognized digits.
    pub fn from_lowercase_char(value: char) -> (r: Option<Char>)
        ensures
            r == spec_char_from_lower(value),
    {
        match value {
            'q' => Some(Char::Q), 'w' => Some(Char::W), 'e' => Some(Char::E),
            'r' => Some(Char::R), 't' => Some(Char::T), 'y' => Some(Char::Y),
            'u' => Some(Char::U), 'i' => Some(Char::I), 'o' => Some(Char::O),
            'p' => Some(Char::P), 'a' => Some(Char::A), 's' => Some(Char::S),
            'd' => Some(Char::D), 'f' => Some(Char::F), 'g' => Some(Char::G),
            'h' => Some(Char::H), 'j' => Some(Char::J), 'k' => Some(Char::K),
            'l' => Some(Char::L), 'z' => Some(Char::Z), 'x' => Some(Char::X),
            'c' => Some(Char::C), 'v' => Some(Char::V), 'b' => Some(Char::B),
            'n' => Some(Char::N), 'm' => Some(Char::M),
            '1' => Some(Char::One), '2' => Some(Char::Two), '3' => Some(Char::Three),
            _ => None,
        }
    }

    /// Recognizes a character in either case, normalizing to lower case.
    pub fn from_char(value: char) -> (r: Option<Char>)
        ensures
            r == spec_char_from_any(value),
    {
        match Char::from_lowercase_char(value) {
            Some(k) => Some(k),
            None => match value {
                'Q' => Some(Char::Q), 'W' => Some(Char::W), 'E' => Some(Char::E),
                'R' => Some(Char::R), 'T' => Some(Char::T), 'Y' => Some(Char::Y),
                'U' => Some(Char::U), 'I' => Some(Char::I), 'O' => Some(Char::O),
                'P' => Some(Char::P), 'A' => Some(Char::A), 'S' => Some(Char::S),
                'D' => Some(Char::D), 'F' => Some(Char::F), 'G' => Some(Char::G),
                'H' => Some(Char::H), 'J' => Some(Char::J), 'K' => Some(Char::K),
                'L' => Some(Char::L), 'Z' => Some(Char::Z), 'X' => Some(Char::X),
                'C' => Some(Char::C), 'V' => Some(Char::V), 'B' => Some(Char::B),
                'N' => Some(Char::N), 'M' => Some(Char::M),
                _ => None,
            },
        }
    }
}

/// Whether an identifier was recognized in snake or Pascal form.
#[derive(Clone, Copy, Debug, PartialEq, Eq, Structural)]
pub enum Case {
    Snake,
    Pascal,
}

impl Case {
    pub fn is_snake(&self) -> (r: bool)
        ensures
            r == (*self is Snake),
    {
        matches!(self, Case::Snake)
    }

    pub fn is_pascal(&self) -> (r: bool)
        ensures
            r == (*self is Pascal),
    {
        matches!(self, Case::Pascal)
    }
}

/// One word-part: a non-empty run of recognized characters.
#[derive(Clone, Debug, PartialEq, Eq, Hash)]
pub struct Part {
    pub first: Char,
    pub others: Vec<Char>,
}

impl View for Part {
    type V = Seq<char>;

    open spec fn view(&self) -> Seq<char> {
        Seq::new(
            self.others@.len() + 1,
            |i: int| if i == 0 { char_value(self.first) } else { char_value(self.others@[i - 1]) },
        )
    }
}

/// Length of the longest prefix of `s` made of recognized word characters.
pub open spec fn word_run_len(s: Seq<char>) -> nat
    decreases s.len(),
{
    if s.len() > 0 && word_char(s[0]) {
        (1 + word_run_len(s.skip(1))) as nat
    } else {
        0
    }
}

pub proof fn lemma_word_run_len(s: Seq<char>)
    ensures
        word_run_len(s) <= s.len(),
        forall|i: int| 0 <= i < word_run_len(s) ==> word_char(s[i]),
        word_run_len(s) < s.len() ==> !word_char(s[word_run_len(s) as int]),
    decreases s.len(),
{
    if s.len() > 0 && word_char(s[0]) {
        lemma_word_run_len(s.skip(1));
        assert forall|i: int| 0 <= i < word_run_len(s) implies word_char(s[i]) by {
            if i > 0 {
                assert(word_char(s.skip(1)[i - 1]));
            }
        }
        if word_run_len(s) < s.len() {
            assert(s[word_run_len(s) as int] == s.skip(1)[word_run_len(s.skip(1)) as int]);
        }
    }
}

pub proof fn lemma_word_run_len_is(s: Seq<char>, n: int)
    requires
        0 <= n <= s.len(),
        forall|i: int| 0 <= i < n ==> word_char(s[i]),
        n < s.len() ==> !word_char(s[n]),
    ensures
        word_run_len(s) == n,
    decreases s.len(),
{
    if n == 0 {
    } else {
        lemma_word_run_len_is(s.skip(1), n - 1);
    }
}

/// The snake word-part grammar: the maximal non-empty prefix of recognized
/// word characters, or no match.
pub open spec fn spec_lower_part(s: Seq<char>) -> Option<(Seq<char>, Seq<char>)> {
    let n = word_run_len(s) as int;
    if n == 0 {
        None
    } else {
        Some((s.take(n), s.skip(n)))
    }
}

/// The Pascal word-part grammar: one upper-case letter (stored lower-cased),
/// then the maximal run of recognized word characters.
pub open spec fn spec_pascal_part(s: Seq<char>) -> Option<(Seq<char>, Seq<char>)> {
    if s.len() > 0 && upper_char(s[0]) {
        let n = word_run_len(s.skip(1)) as int;
        Some((seq![lower_of_upper(s[0])] + s.skip(1).take(n), s.skip(1 + n)))
    } else {
        None
    }
}

impl Part {
    /// Parses the maximal prefix of recognized word characters as one snake
    /// word-part; no match when the first character is not recognized.
    pub fn from_chars_lowercase_prefix<'a>(value: &'a [char]) -> (r: Option<(Part, &'a [char])>)
        ensures
            match r {
                Some(pr) => spec_lower_part(value@) == Some((pr.0@, pr.1@)),
                None => spec_lower_part(value@) is None,
            },
    {
        proof {
            lemma_word_run_len(value@);
        }
        if value.len() == 0 {
            return None;
        }
        let first = match Char::from_lowercase_char(value[0]) {
            Some(k) => k,
            None => {
                proof {
                    lemma_char_from_lower_iff_word(value@[0]);
                }
                return None;
            },
        };
        proof {
            lemma_char_from_lower_iff_word(value@[0]);
        }
        let mut others: Vec<Char> = Vec::new();
        let mut i: usize = 1;
        while i < value.len() && Char::from_lowercase_char(value[i]).is_some()
            invariant
                1 <= i <= value@.len(),
                forall|j: int| 0 <= j < i ==> word_char(value@[j]),
                others@.len() == i - 1,
                forall|j: int| 0 <= j < i - 1 ==> char_value(others@[j]) == value@[j + 1],
                char_value(first) == value@[0],
            decreases value@.len() - i,
        {
            proof {
                lemma_char_from_lower_iff_word(value@[i as int]);
            }
            let k = Char::from_lowercase_char(value[i]).unwrap();
            others.push(k);
            i = i + 1;
        }
        proof {
            if i < value.len() {
                lemma_char_from_lower_iff_word(value@[i as int]);
            }
            lemma_word_run_len_is(value@, i as int);
        }
        let part = Part { first, others };
        let rest = vstd::slice::slice_subrange(value, i, value.len());
        proof {
            assert(part@ =~= value@.take(i as int));
            assert(rest@ =~= value@.skip(i as int));
        }
        Some((part, rest))
    }

    /// Parses one Pascal word-part: an upper-case letter, then the maximal
    /// run of recognized word characters; no match otherwise.
    pub fn from_chars_pascal_case_prefix<'a>(value: &'a [char]) -> (r: Option<(Part, &'a [char])>)
        ensures
            match r {
                Some(pr) => spec_pascal_part(value@) == Some((pr.0@, pr.1@)),
                None => spec_pascal_part(value@) is None,
            },
    {
        if value.len() == 0 {
            return None;
        }
        let c0 = value[0];
        if !(c0 >= 'A' && c0 <= 'Z') {
            return None;
        }
        let first = match Char::from_char(c0) {
            Some(k) => k,
            None => {
                proof {
                    lemma_char_from_upper_iff_upper(c0);
                    lemma_char_from_lower_iff_word(c0);
                    assert(false);
                }
                return None;
            },
        };
        proof {
            lemma_char_from_upper_iff_upper(c0);
            lemma_char_from_lower_iff_word(c0);
            assert(char_value(first) == lower_of_upper(c0));
        }
        let mut others: Vec<Char> = Vec::new();
        let mut i: usize = 1;
        while i < value.len() && Char::from_lowercase_char(value[i]).is_some()
            invariant
                1 <= i <= value@.len(),
                forall|j: int| 1 <= j < i ==> word_char(value@[j]),
                others@.len() == i - 1,
                forall|j: int| 0 <= j < i - 1 ==> char_value(others@[j]) == value@[j + 1],
                char_value(first) == lower_of_upper(value@[0]),
                upper_char(value@[0]),
            decreases value@.len() - i,
        {
            proof {
                lemma_char_from_lower_iff_word(value@[i as int]);
            }
            let k = Char::from_lowercase_char(value[i]).unwrap();
            others.push(k);
            i = i + 1;
        }
        proof {
            if i < value.len() {
                lemma_char_from_lower_iff_word(value@[i as int]);
            }
            lemma_word_run_len_is(value@.skip(1), i - 1);
        }
        let part = Part { first, others };
        let rest = vstd::slice::slice_subrange(value, i, value.len());
        proof {
            let s = value@;
            let n = word_run_len(s.skip(1)) as int;
            assert(part@ =~= seq![lower_of_upper(s[0])] + s.skip(1).take(n));
            assert(rest@ =~= s.skip(1 + n));
        }
        Some((part, rest))
    }
}

impl Part {
    /// Whether two word-parts stand for the same character sequence.
    pub fn part_eq(&self, other: &Part) -> (r: bool)
        ensures
            r == (self@ == other@),
    {
        proof {
            lemma_char_value_injective(self.first, other.first);
        }
        if self.first != other.first {
            assert(self@[0] != other@[0]);
            return false;
        }
        if self.others.len() != other.others.len() {
            assert(self@.len() != other@.len());
            return false;
        }
        let mut i: usize = 0;
        while i < self.others.len()
            invariant
                0 <= i <= self.others@.len(),
                self.others@.len() == other.others@.len(),
                self.first == other.first,
                forall|j: int| 0 <= j < i ==> self.others@[j] == other.others@[j],
            decreases self.others@.len() - i,
        {
            proof {
                lemma_char_value_injective(self.others@[i as int], other.others@[i as int]);
            }
            if self.others[i] != other.others[i] {
                assert(self@[i + 1] != other@[i + 1]);
                return false;
            }
            i = i + 1;
        }
        proof {
            assert(self@ =~= other@);
        }
        true
    }
}

/// An identifier: a non-empty sequence of word-parts, all recognized under
/// one case rule.
#[derive(Clone, Debug, PartialEq, Eq, Hash)]
pub struct Instance {
    pub first: Part,
    pub others: Vec<Part>,
}

impl View for Instance {
    type V = Seq<Seq<char>>;

    open spec fn view(&self) -> Seq<Seq<char>> {
        Seq::new(
            self.others@.len() + 1,
            |i: int| if i == 0 { self.first@ } else { self.others@[i - 1]@ },
        )
    }
}

/// The underscore-and-word-part groups of a snake identifier after its
/// first part. Stops before any character that is not an underscore; fails
/// when an underscore is not followed by a word-part.
pub open spec fn spec_snake_tail(acc: Seq<Seq<char>>, s: Seq<char>) -> Option<
    (Seq<Seq<char>>, Seq<char>),
>
    decreases s.len(),
{
    if s.len() > 0 && s[0] == '_' {
        match spec_lower_part(s.skip(1)) {
            Some(pr) => if pr.1.len() < s.len() {
                spec_snake_tail(acc.push(pr.0), pr.1)
            } else {
                // a matched word-part always consumes characters; never taken
                None
            },
            None => None,
        }
    } else {
        Some((acc, s))
    }
}

/// The snake identifier grammar: one word-part, then zero or more groups of
/// an underscore and another word-part; maximal; a lone trailing underscore
/// is no match.
pub open spec fn spec_snake_ident(s: Seq<char>) -> Option<(Seq<Seq<char>>, Seq<char>)> {
    match spec_lower_part(s) {
        Some(pr) => spec_snake_tail(seq![pr.0], pr.1),
        None => None,
    }
}

/// The Pascal tail: zero or more further Pascal word-parts, maximal.
pub open spec fn spec_pascal_tail(acc: Seq<Seq<char>>, s: Seq<char>) -> (Seq<Seq<char>>, Seq<char>)
    decreases s.len(),
{
    match spec_pascal_part(s) {
        Some(pr) => if pr.1.len() < s.len() {
            spec_pascal_tail(acc.push(pr.0), pr.1)
        } else {
            // a matched word-part always consumes characters; never taken
            (acc, s)
        },
        None => (acc, s),
    }
}

/// The Pascal identifier grammar: one or more Pascal word-parts, maximal.
pub open spec fn spec_pascal_ident(s: Seq<char>) -> Option<(Seq<Seq<char>>, Seq<char>)> {
    match spec_pascal_part(s) {
        Some(pr) => Some(spec_pascal_tail(seq![pr.0], pr.1)),
        None => None,
    }
}

pub proof fn lemma_snake_tail_progress(acc: Seq<Seq<char>>, s: Seq<char>)
    ensures
        spec_snake_tail(acc, s) matches Some(pr) ==> pr.1.len() <= s.len(),
    decreases s.len(),
{
    if s.len() > 0 && s[0] == '_' {
        lemma_word_run_len(s.skip(1));
        match spec_lower_part(s.skip(1)) {
            Some(pr) => {
                if pr.1.len() < s.len() {
                    lemma_snake_tail_progress(acc.push(pr.0), pr.1);
                }
            },
            None => {},
        }
    }
}

/// A successful snake identifier parse consumes at least one character.
pub broadcast proof fn lemma_snake_ident_progress(s: Seq<char>)
    ensures
        (#[trigger] spec_snake_ident(s)) matches Some(pr) ==> pr.1.len() < s.len(),
{
    lemma_word_run_len(s);
    match spec_lower_part(s) {
        Some(pr) => {
            lemma_snake_tail_progress(seq![pr.0], pr.1);
        },
        None => {},
    }
}

pub proof fn lemma_pascal_tail_progress(acc: Seq<Seq<char>>, s: Seq<char>)
    ensures
        spec_pascal_tail(acc, s).1.len() <= s.len(),
    decreases s.len(),
{
    match spec_pascal_part(s) {
        Some(pr) => {
            lemma_word_run_len(s.skip(1));
            if pr.1.len() < s.len() {
                lemma_pascal_tail_progress(acc.push(pr.0), pr.1);
            }
        },
        None => {},
    }
}

/// A successful Pascal identifier parse consumes at least one character.
pub broadcast proof fn lemma_pascal_ident_progress(s: Seq<char>)
    ensures
        (#[trigger] spec_pascal_ident(s)) matches Some(pr) ==> pr.1.len() < s.len(),
{
    match spec_pascal_part(s) {
        Some(pr) => {
            lemma_word_run_len(s.skip(1));
            lemma_pascal_tail_progress(seq![pr.0], pr.1);
        },
        None => {},
    }
}

impl Instance {
    /// Parses the longest snake-case identifier prefix: word-parts joined by
    /// single underscores. An underscore not followed by a word-part makes
    /// the whole identifier no match.
    pub fn from_chars_snake_case_prefix<'a>(value: &'a [char]) -> (r: Option<
        (Instance, &'a [char]),
    >)
        ensures
            match r {
                Some(pr) => spec_snake_ident(value@) == Some((pr.0@, pr.1@)),
                None => spec_snake_ident(value@) is None,
            },
    {
        let (first, mut rest) = match Part::from_chars_lowercase_prefix(value) {
            Some(pr) => pr,
            None => {
                return None;
            },
        };
        let mut others: Vec<Part> = Vec::new();
        proof {
            assert((Instance { first, others })@ =~= seq![first@]);
        }
        loop
            invariant
                spec_snake_ident(value@) == spec_snake_tail(
                    (Instance { first, others })@,
                    rest@,
                ),
            decreases rest@.len(),
        {
            if rest.len() > 0 && rest[0] == '_' {
                let after = vstd::slice::slice_subrange(rest, 1, rest.len());
                proof {
                    assert(after@ =~= rest@.skip(1));
                    lemma_word_run_len(after@);
                }
                match Part::from_chars_lowercase_prefix(after) {
                    Some(pr) => {
                        let ghost old_view = (Instance { first, others })@;
                        let (part, next_rest) = pr;
                        others.push(part);
                        proof {
                            assert((Instance { first, others })@ =~= old_view.push(part@));
                        }
                        rest = next_rest;
                    },
                    None => {
                        return None;
                    },
                }
            } else {
                return Some((Instance { first, others }, rest));
            }
        }
    }

    /// Parses the longest Pascal-case identifier prefix: one or more
    /// capital-initial word-parts; stops at the first position that cannot
    /// open a new word-part.
    pub fn from_chars_pascal_case_prefix<'a>(value: &'a [char]) -> (r: Option<
        (Instance, &'a [char]),
    >)
        ensures
            match r {
                Some(pr) => spec_pascal_ident(value@) == Some((pr.0@, pr.1@)),
                None => spec_pascal_ident(value@) is None,
            },
    {
        let (first, mut rest) = match Part::from_chars_pascal_case_prefix(value) {
            Some(pr) => pr,
            None => {
                return None;
            },
        };
        proof {
            lemma_word_run_len(value@.skip(1));
        }
        let mut others: Vec<Part> = Vec::new();
        proof {
            assert((Instance { first, others })@ =~= seq![first@]);
        }
        loop
            invariant
                spec_pascal_ident(value@) == Some(
                    spec_pascal_tail((Instance { first, others })@, rest@),
                ),
            decreases rest@.len(),
        {
            match Part::from_chars_pascal_case_prefix(rest) {
                Some(pr) => {
                    proof {
                        lemma_word_run_len(rest@.skip(1));
                    }
                    let ghost old_view = (Instance { first, others })@;
                    let (part, next_rest) = pr;
                    others.push(part);
                    proof {
                        assert((Instance { first, others })@ =~= old_view.push(part@));
                    }
                    rest = next_rest;
                },
                None => {
                    return Some((Instance { first, others }, rest));
                },
            }
        }
    }

    /// Whether two identifiers stand for the same word-part sequence.
    /// Identifier equality is equality of the part sequences.
    pub fn ident_eq(&self, other: &Instance) -> (r: bool)
        ensures
            r == (self@ == other@),
    {
        if !self.first.part_eq(&other.first) {
            assert(self@[0] != other@[0]);
            return false;
        }
        if self.others.len() != other.others.len() {
            assert(self@.len() != other@.len());
            return false;
        }
        let mut i: usize = 0;
        while i < self.others.len()
            invariant
                0 <= i <= self.others@.len(),
                self.others@.len() == other.others@.len(),
                self.first@ == other.first@,
                forall|j: int| 0 <= j < i ==> self.others@[j]@ == other.others@[j]@,
            decreases self.others@.len() - i,
        {
            if !self.others[i].part_eq(&other.others[i]) {
                assert(self@[i + 1] != other@[i + 1]);
                return false;
            }
            i = i + 1;
        }
        proof {
            assert(self@ =~= other@);
        }
        true
    }

    /// Tries the Pascal form for either alternative and tags the result as
    /// snake case; an identifier in snake form therefore never matches here,
    /// and the Pascal tag is never produced.
    pub fn from_chars_prefix<'a>(value: &'a [char]) -> (r: Option<(Instance, Case, &'a [char])>)
        ensures
            match r {
                Some(pr) => spec_pascal_ident(value@) == Some((pr.0@, pr.2@)) && pr.1 is Snake,
                None => spec_pascal_ident(value@) is None,
            },
    {
        if let Some((instance, rest)) = Instance::from_chars_pascal_case_prefix(value) {
            Some((instance, Case::Snake, rest))
        } else if let Some((instance, rest)) = Instance::from_chars_pascal_case_prefix(value) {
            Some((instance, Case::Pascal, rest))
        } else {
            None
        }
    }
}

} // verus!
