//! Path grammar: a `::`-separated sequence of identifiers, split into a
//! leading base and a terminal name, with a case tag recording whether the
//! terminal segment was recognized in snake or Pascal form.

use vstd::prelude::*;
use crate::ident;
use crate::ident::Case;

verus! {

/// The mathematical value of a parsed path.
#[verifier::ext_equal]
pub struct PathView {
    pub base: Seq<Seq<Seq<char>>>,
    pub name: Seq<Seq<char>>,
    pub case: Case,
}

/// A module-qualified reference: base segments, a terminal name, and the
/// case of the terminal segment.
#[derive(Clone, Debug, PartialEq, Eq)]
pub struct Instance {
    pub parts: Vec<ident::Instance>,
    pub name: ident::Instance,
    pub case: Case,
}

/// The views of a sequence of identifiers.
pub open spec fn idents_view(s: Seq<ident::Instance>) -> Seq<Seq<Seq<char>>> {
    Seq::new(s.len(), |i: int| s[i]@)
}

impl View for Instance {
    type V = PathView;

    open spec fn view(&self) -> PathView {
        PathView { base: idents_view(self.parts@), name: self.name@, case: self.case }
    }
}

/// One path segment: a snake identifier, or else a Pascal identifier,
/// together with the case it was recognized under.
pub open spec fn spec_path_seg(s: Seq<char>) -> Option<(Seq<Seq<char>>, Case, Seq<char>)> {
    match ident::spec_snake_ident(s) {
        Some(pr) => Some((pr.0, Case::Snake, pr.1)),
        None => match ident::spec_pascal_ident(s) {
            Some(pr) => Some((pr.0, Case::Pascal, pr.1)),
            None => None,
        },
    }
}

/// The segment loop: parse segments while each is followed by a literal
/// `::`, which is consumed; the case tag follows the last segment parsed.
pub open spec fn spec_path_segs(acc: Seq<Seq<Seq<char>>>, case: Case, s: Seq<char>) -> (
    Seq<Seq<Seq<char>>>,
    Case,
    Seq<char>,
)
    decreases s.len(),
{
    match spec_path_seg(s) {
        None => (acc, case, s),
        Some((id, c, rest)) => {
            if rest.len() >= 2 && rest[0] == ':' && rest[1] == ':' {
                let next = rest.skip(2);
                if next.len() < s.len() {
                    spec_path_segs(acc.push(id), c, next)
                } else {
                    // a matched segment always consumes characters; never taken
                    (acc.push(id), c, rest)
                }
            } else {
                (acc.push(id), c, rest)
            }
        },
    }
}

/// The path grammar: at least one segment; the last segment is the name and
/// the earlier ones the base. No segments at all is no match.
pub open spec fn spec_parse_path(s: Seq<char>) -> Option<(PathView, Seq<char>)> {
    let (segs, case, rest) = spec_path_segs(Seq::empty(), Case::Snake, s);
    if segs.len() == 0 {
        None
    } else {
        Some((PathView { base: segs.drop_last(), name: segs.last(), case }, rest))
    }
}

pub proof fn lemma_path_segs_progress(acc: Seq<Seq<Seq<char>>>, case: Case, s: Seq<char>)
    ensures
        spec_path_segs(acc, case, s).2.len() <= s.len(),
        spec_path_segs(acc, case, s).0.len() >= acc.len(),
        spec_path_segs(acc, case, s).0.len() > acc.len() ==> spec_path_segs(
            acc,
            case,
            s,
        ).2.len() < s.len(),
    decreases s.len(),
{
    ident::lemma_snake_ident_progress(s);
    ident::lemma_pascal_ident_progress(s);
    match spec_path_seg(s) {
        None => {},
        Some((id, c, rest)) => {
            if rest.len() >= 2 && rest[0] == ':' && rest[1] == ':' {
                let next = rest.skip(2);
                if next.len() < s.len() {
                    lemma_path_segs_progress(acc.push(id), c, next);
                }
            }
        },
    }
}

/// A successful path parse consumes at least one character.
pub broadcast proof fn lemma_parse_path_progress(s: Seq<char>)
    ensures
        (#[trigger] spec_parse_path(s)) matches Some(pr) ==> pr.1.len() < s.len(),
{
    lemma_path_segs_progress(Seq::empty(), Case::Snake, s);
}

impl Instance {
    /// Parses the longest `::`-separated identifier path prefix; no match
    /// when not even one segment is recognized.
    pub fn from_char_prefix<'a>(value: &'a [char]) -> (r: Option<(Instance, &'a [char])>)
        ensures
            match r {
                Some(pr) => spec_parse_path(value@) == Some((pr.0@, pr.1@)),
                None => spec_parse_path(value@) is None,
            },
    {
        let mut parts: Vec<ident::Instance> = Vec::new();
        let mut case = Case::Snake;
        let mut cur: &[char] = value;
        proof {
            assert(idents_view(parts@) =~= Seq::<Seq<Seq<char>>>::empty());
        }
        loop
            invariant_except_break
                spec_path_segs(Seq::empty(), Case::Snake, value@) == spec_path_segs(
                    idents_view(parts@),
                    case,
                    cur@,
                ),
            ensures
                spec_path_segs(Seq::empty(), Case::Snake, value@) == (
                    idents_view(parts@),
                    case,
                    cur@,
                ),
            decreases cur@.len(),
        {
            proof {
                ident::lemma_snake_ident_progress(cur@);
                ident::lemma_pascal_ident_progress(cur@);
            }
            let ghost old_parts = idents_view(parts@);
            let (seg, seg_case, rest): (ident::Instance, Case, &[char]) =
                match ident::Instance::from_chars_snake_case_prefix(cur) {
                Some(pr) => (pr.0, Case::Snake, pr.1),
                None => match ident::Instance::from_chars_pascal_case_prefix(cur) {
                    Some(pr) => (pr.0, Case::Pascal, pr.1),
                    None => {
                        break;
                    },
                },
            };
            parts.push(seg);
            case = seg_case;
            proof {
                assert(idents_view(parts@) =~= old_parts.push(parts@.last()@));
            }
            if rest.len() >= 2 && rest[0] == ':' && rest[1] == ':' {
                let next = vstd::slice::slice_subrange(rest, 2, rest.len());
                proof {
                    assert(next@ =~= rest@.skip(2));
                }
                cur = next;
            } else {
                cur = rest;
                break;
            }
        }
        if parts.len() == 0 {
            return None;
        }
        let name = match parts.pop() {
            Some(n) => n,
            None => {
                proof {
                    assert(false);
                }
                return None;
            },
        };
        let ghost segs = spec_path_segs(Seq::empty(), Case::Snake, value@).0;
        proof {
            assert(idents_view(parts@) =~= segs.drop_last());
        }
        Some((Instance { parts, name, case }, cur))
    }
}

} // verus!
