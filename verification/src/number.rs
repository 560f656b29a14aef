//! Numeral grammar: parses the maximal prefix of recognized digit characters
//! into a numeral value. At least one digit is required; there is no
//! leading-zero restriction and no fractional or exponent form here.

use vstd::prelude::*;

verus! {

/// One recognized decimal digit.
#[derive(Clone, Copy, Debug, PartialEq, Eq, Structural)]
pub enum Digit {
    Zero,
    One, Two, Three,
    Four, Five, Six,
    Seven, Eight, Nine,
}

/// The canonical character a `Digit` stands for.
pub open spec fn digit_value(d: Digit) -> char {
    match d {
        Digit::Zero => '0', Digit::One => '1', Digit::Two => '2',
        Digit::Three => '3', Digit::Four => '4', Digit::Five => '5',
        Digit::Six => '6', Digit::Seven => '7', Digit::Eight => '8',
        Digit::Nine => '9',
    }
}

impl View for Digit {
    type V = char;

    open spec fn view(&self) -> char {
        digit_value(*self)
    }
}

/// A decimal digit character.
pub open spec fn digit_char(c: char) -> bool {
    '0' <= c && c <= '9'
}

/// What `Digit::from_char` recognizes.
pub open spec fn spec_digit_from_char(c: char) -> Option<Digit> {
    if c == '0' { Some(Digit::Zero) } else if c == '1' { Some(Digit::One) }
    else if c == '2' { Some(Digit::Two) } else if c == '3' { Some(Digit::Three) }
    else if c == '4' { Some(Digit::Four) } else if c == '5' { Some(Digit::Five) }
    else if c == '6' { Some(Digit::Six) } else if c == '7' { Some(Digit::Seven) }
    else if c == '8' { Some(Digit::Eight) } else if c == '9' { Some(Digit::Nine) }
    else { None }
}

pub proof fn lemma_digit_from_char_iff(c: char)
    ensures
        spec_digit_from_char(c) is Some <==> digit_char(c),
        spec_digit_from_char(c) matches Some(d) ==> digit_value(d) == c,
{
}

impl Digit {
    /// Recognizes one decimal digit character.
    pub fn from_char(value: char) -> (r: Option<Digit>)
        ensures
            r == spec_digit_from_char(value),
    {
        match value {
            '0' => Some(Digit::Zero),
            '1' => Some(Digit::One),
            '2' => Some(Digit::Two),
            '3' => Some(Digit::Three),
            '4' => Some(Digit::Four),
            '5' => Some(Digit::Five),
            '6' => Some(Digit::Six),
            '7' => Some(Digit::Seven),
            '8' => Some(Digit::Eight),
            '9' => Some(Digit::Nine),
            _ => None,
        }
    }
}

/// A numeral: a non-empty sequence of digits.
#[derive(Clone, Debug, PartialEq, Eq)]
pub struct Instance {
    pub first: Digit,
    pub others: Vec<Digit>,
}

impl View for Instance {
    type V = Seq<char>;

    open spec fn view(&self) -> Seq<char> {
        Seq::new(
            self.others@.len() + 1,
            |i: int| if i == 0 { digit_value(self.first) } else { digit_value(self.others@[i - 1]) },
        )
    }
}

/// Length of the longest prefix of `s` made of digit characters.
pub open spec fn digit_run_len(s: Seq<char>) -> nat
    decreases s.len(),
{
    if s.len() > 0 && digit_char(s[0]) {
        (1 + digit_run_len(s.skip(1))) as nat
    } else {
        0
    }
}

pub proof fn lemma_digit_run_len(s: Seq<char>)
    ensures
        digit_run_len(s) <= s.len(),
        forall|i: int| 0 <= i < digit_run_len(s) ==> digit_char(s[i]),
        digit_run_len(s) < s.len() ==> !digit_char(s[digit_run_len(s) as int]),
    decreases s.len(),
{
    if s.len() > 0 && digit_char(s[0]) {
        lemma_digit_run_len(s.skip(1));
        assert forall|i: int| 0 <= i < digit_run_len(s) implies digit_char(s[i]) by {
            if i > 0 {
                assert(digit_char(s.skip(1)[i - 1]));
            }
        }
        if digit_run_len(s) < s.len() {
            assert(s[digit_run_len(s) as int] == s.skip(1)[digit_run_len(s.skip(1)) as int]);
        }
    }
}

pub proof fn lemma_digit_run_len_is(s: Seq<char>, n: int)
    requires
        0 <= n <= s.len(),
        forall|i: int| 0 <= i < n ==> digit_char(s[i]),
        n < s.len() ==> !digit_char(s[n]),
    ensures
        digit_run_len(s) == n,
    decreases s.len(),
{
    if n == 0 {
    } else {
        lemma_digit_run_len_is(s.skip(1), n - 1);
    }
}

/// The numeral grammar: the maximal non-empty prefix of digit characters, or
/// no match.
pub open spec fn spec_number(s: Seq<char>) -> Option<(Seq<char>, Seq<char>)> {
    let n = digit_run_len(s) as int;
    if n == 0 {
        None
    } else {
        Some((s.take(n), s.skip(n)))
    }
}

impl Instance {
    /// Parses the maximal prefix of digit characters as one numeral; no
    /// match when the first character is not a digit.
    pub fn from_chars_prefix<'a>(value: &'a [char]) -> (r: Option<(Instance, &'a [char])>)
        ensures
            match r {
                Some(pr) => spec_number(value@) == Some((pr.0@, pr.1@)),
                None => spec_number(value@) is None,
            },
    {
        proof {
            lemma_digit_run_len(value@);
        }
        if value.len() == 0 {
            return None;
        }
        let first = match Digit::from_char(value[0]) {
            Some(d) => d,
            None => {
                proof {
                    lemma_digit_from_char_iff(value@[0]);
                }
                return None;
            },
        };
        proof {
            lemma_digit_from_char_iff(value@[0]);
        }
        let mut others: Vec<Digit> = Vec::new();
        let mut i: usize = 1;
        while i < value.len() && Digit::from_char(value[i]).is_some()
            invariant
                1 <= i <= value@.len(),
                forall|j: int| 0 <= j < i ==> digit_char(value@[j]),
                others@.len() == i - 1,
                forall|j: int| 0 <= j < i - 1 ==> digit_value(others@[j]) == value@[j + 1],
                digit_value(first) == value@[0],
            decreases value@.len() - i,
        {
            proof {
                lemma_digit_from_char_iff(value@[i as int]);
            }
            let d = Digit::from_char(value[i]).unwrap();
            others.push(d);
            i = i + 1;
        }
        proof {
            if i < value.len() {
                lemma_digit_from_char_iff(value@[i as int]);
            }
            lemma_digit_run_len_is(value@, i as int);
        }
        let number = Instance { first, others };
        let rest = vstd::slice::slice_subrange(value, i, value.len());
        proof {
            assert(number@ =~= value@.take(i as int));
            assert(rest@ =~= value@.skip(i as int));
        }
        Some((number, rest))
    }
}

} // verus!
