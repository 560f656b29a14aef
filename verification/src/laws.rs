//! Laws of the identifier and path grammars: rendering an identifier or a
//! path in the documented syntax and re-parsing it yields the value back,
//! with the rest of the text untouched. In particular, on any text that
//! begins with a well-formed snake-case identifier the snake parse consumes
//! exactly that maximal prefix and returns its word-parts.

use vstd::prelude::*;
use crate::ident::{
    word_char,
    upper_char,
    lower_of_upper,
    word_run_len,
    lemma_word_run_len_is,
    spec_lower_part,
    spec_pascal_part,
    spec_snake_ident,
    spec_snake_tail,
    spec_pascal_ident,
    spec_pascal_tail,
};
use crate::ident::Case;
use crate::path::{PathView, spec_path_seg, spec_path_segs, spec_parse_path};

verus! {

/// A well-formed snake identifier value: at least one part, every part
/// non-empty and made of recognized word characters.
pub open spec fn snake_wf(parts: Seq<Seq<char>>) -> bool {
    &&& parts.len() > 0
    &&& forall|i: int|
        0 <= i < parts.len() ==> (#[trigger] parts[i]).len() > 0 && (forall|j: int|
            0 <= j < parts[i].len() ==> word_char(#[trigger] parts[i][j]))
}

/// The text of the word-parts after the first, each preceded by an
/// underscore.
pub open spec fn snake_tail_text(parts: Seq<Seq<char>>) -> Seq<char>
    decreases parts.len(),
{
    if parts.len() == 0 {
        Seq::empty()
    } else {
        seq!['_'] + parts[0] + snake_tail_text(parts.skip(1))
    }
}

/// The snake-case text of an identifier: its word-parts joined by single
/// underscores.
pub open spec fn snake_text(parts: Seq<Seq<char>>) -> Seq<char>
    recommends
        parts.len() > 0,
{
    parts[0] + snake_tail_text(parts.skip(1))
}

/// A character sequence that cannot extend a snake identifier: empty, or
/// opening with neither a word character nor an underscore.
pub open spec fn snake_boundary(s: Seq<char>) -> bool {
    s.len() > 0 ==> !word_char(s[0]) && s[0] != '_'
}

/// The maximal word run at the head of `w + rest` is exactly `w` when `w` is
/// all word characters and `rest` cannot extend it.
proof fn lemma_word_run_concat(w: Seq<char>, rest: Seq<char>)
    requires
        forall|j: int| 0 <= j < w.len() ==> word_char(w[j]),
        rest.len() > 0 ==> !word_char(rest[0]),
    ensures
        word_run_len(w + rest) == w.len(),
{
    lemma_word_run_len_is(w + rest, w.len() as int);
}

/// One word-part followed by a non-extending rest parses as exactly that
/// part.
proof fn lemma_lower_part_round_trip(w: Seq<char>, rest: Seq<char>)
    requires
        w.len() > 0,
        forall|j: int| 0 <= j < w.len() ==> word_char(w[j]),
        rest.len() > 0 ==> !word_char(rest[0]),
    ensures
        spec_lower_part(w + rest) == Some((w, rest)),
{
    lemma_word_run_concat(w, rest);
    assert((w + rest).take(w.len() as int) =~= w);
    assert((w + rest).skip(w.len() as int) =~= rest);
}

proof fn lemma_snake_tail_round_trip(acc: Seq<Seq<char>>, parts: Seq<Seq<char>>, suffix: Seq<char>)
    requires
        forall|i: int|
            0 <= i < parts.len() ==> (#[trigger] parts[i]).len() > 0 && (forall|j: int|
                0 <= j < parts[i].len() ==> word_char(#[trigger] parts[i][j])),
        snake_boundary(suffix),
    ensures
        spec_snake_tail(acc, snake_tail_text(parts) + suffix) == Some((acc + parts, suffix)),
    decreases parts.len(),
{
    let s = snake_tail_text(parts) + suffix;
    if parts.len() == 0 {
        assert(s =~= suffix);
        assert(acc + parts =~= acc);
    } else {
        let p0 = parts[0];
        let more = snake_tail_text(parts.skip(1)) + suffix;
        assert(s =~= seq!['_'] + (p0 + more));
        assert(s[0] == '_');
        assert(s.skip(1) =~= p0 + more);
        if parts.len() == 1 {
            assert(more =~= suffix);
        } else {
            assert(parts.skip(1)[0] == parts[1]);
            assert(more[0] == '_');
        }
        lemma_lower_part_round_trip(p0, more);
        assert(spec_lower_part(s.skip(1)) == Some((p0, more)));
        assert(more.len() < s.len());
        lemma_snake_tail_round_trip(acc.push(p0), parts.skip(1), suffix);
        assert(acc.push(p0) + parts.skip(1) =~= acc + parts);
    }
}

/// Law: for every well-formed snake identifier value, its rendered text
/// followed by any non-extending rest parses back to exactly that
/// identifier, consuming the entire maximal prefix and leaving the rest.
pub proof fn lemma_snake_round_trip(parts: Seq<Seq<char>>, suffix: Seq<char>)
    requires
        snake_wf(parts),
        snake_boundary(suffix),
    ensures
        spec_snake_ident(snake_text(parts) + suffix) == Some((parts, suffix)),
{
    let p0 = parts[0];
    let more = snake_tail_text(parts.skip(1)) + suffix;
    let s = snake_text(parts) + suffix;
    assert(s =~= p0 + more);
    if parts.len() == 1 {
        assert(more =~= suffix);
    } else {
        assert(parts.skip(1)[0] == parts[1]);
        assert(more[0] == '_');
    }
    lemma_lower_part_round_trip(p0, more);
    lemma_snake_tail_round_trip(seq![p0], parts.skip(1), suffix);
    assert(seq![p0] + parts.skip(1) =~= parts);
}

/// A well-formed Pascal identifier rendering: for each part, an upper-case
/// letter whose stored lower-case form opens the part, then the part's
/// remaining word characters, none of which may itself be extended by what
/// follows. The rendered text of one part.
pub open spec fn pascal_part_text(u: char, p: Seq<char>) -> Seq<char> {
    seq![u] + p.skip(1)
}

/// One Pascal word-part followed by a non-extending rest parses as exactly
/// that part.
proof fn lemma_pascal_part_round_trip(u: char, p: Seq<char>, rest: Seq<char>)
    requires
        upper_char(u),
        p.len() > 0,
        lower_of_upper(u) == p[0],
        forall|j: int| 0 <= j < p.len() ==> word_char(p[j]),
        rest.len() > 0 ==> !word_char(rest[0]),
    ensures
        spec_pascal_part(pascal_part_text(u, p) + rest) == Some((p, rest)),
{
    let s = pascal_part_text(u, p) + rest;
    assert(s[0] == u);
    assert(s.skip(1) =~= p.skip(1) + rest);
    lemma_word_run_concat(p.skip(1), rest);
    let n = (p.len() - 1) as int;
    assert(word_run_len(s.skip(1)) == n);
    assert(seq![lower_of_upper(s[0])] + s.skip(1).take(n) =~= p);
    assert(s.skip(1 + n) =~= rest);
}

/// A sequence of well-formed Pascal parts with their rendered capitals.
pub open spec fn pascal_wf(caps: Seq<char>, parts: Seq<Seq<char>>) -> bool {
    &&& parts.len() > 0
    &&& caps.len() == parts.len()
    &&& forall|i: int|
        0 <= i < parts.len() ==> upper_char(#[trigger] caps[i]) && parts[i].len() > 0
            && lower_of_upper(caps[i]) == parts[i][0] && (forall|j: int|
            0 <= j < parts[i].len() ==> word_char(#[trigger] parts[i][j]))
}

/// The Pascal-case text: each part rendered with its capital, concatenated.
pub open spec fn pascal_text(caps: Seq<char>, parts: Seq<Seq<char>>) -> Seq<char>
    decreases parts.len(),
{
    if parts.len() == 0 || caps.len() != parts.len() {
        Seq::empty()
    } else {
        pascal_part_text(caps[0], parts[0]) + pascal_text(caps.skip(1), parts.skip(1))
    }
}

/// A character sequence that cannot extend a Pascal identifier: empty, or
/// opening with neither a word character nor an upper-case letter.
pub open spec fn pascal_boundary(s: Seq<char>) -> bool {
    s.len() > 0 ==> !word_char(s[0]) && !upper_char(s[0])
}

proof fn lemma_pascal_tail_round_trip(
    acc: Seq<Seq<char>>,
    caps: Seq<char>,
    parts: Seq<Seq<char>>,
    suffix: Seq<char>,
)
    requires
        caps.len() == parts.len(),
        forall|i: int|
            0 <= i < parts.len() ==> upper_char(#[trigger] caps[i]) && parts[i].len() > 0
                && lower_of_upper(caps[i]) == parts[i][0] && (forall|j: int|
                0 <= j < parts[i].len() ==> word_char(#[trigger] parts[i][j])),
        pascal_boundary(suffix),
    ensures
        spec_pascal_tail(acc, pascal_text(caps, parts) + suffix) == (acc + parts, suffix),
    decreases parts.len(),
{
    let s = pascal_text(caps, parts) + suffix;
    if parts.len() == 0 {
        assert(s =~= suffix);
        if suffix.len() > 0 {
            assert(!upper_char(suffix[0]));
        }
        assert(spec_pascal_part(s) is None);
        assert(acc + parts =~= acc);
    } else {
        let more = pascal_text(caps.skip(1), parts.skip(1)) + suffix;
        assert(s =~= pascal_part_text(caps[0], parts[0]) + more);
        if parts.len() == 1 {
            assert(more =~= suffix);
        } else {
            assert(caps.skip(1)[0] == caps[1]);
            assert(parts.skip(1)[0] == parts[1]);
            assert(more[0] == caps[1]);
            assert(!word_char(more[0]));
        }
        lemma_pascal_part_round_trip(caps[0], parts[0], more);
        assert(more.len() < s.len());
        lemma_pascal_tail_round_trip(acc.push(parts[0]), caps.skip(1), parts.skip(1), suffix);
        assert(acc.push(parts[0]) + parts.skip(1) =~= acc + parts);
    }
}

/// Law: for every well-formed Pascal identifier value, its rendered text
/// followed by any non-extending rest parses back to exactly that
/// identifier, consuming the entire maximal prefix and leaving the rest.
pub proof fn lemma_pascal_round_trip(caps: Seq<char>, parts: Seq<Seq<char>>, suffix: Seq<char>)
    requires
        pascal_wf(caps, parts),
        pascal_boundary(suffix),
    ensures
        spec_pascal_ident(pascal_text(caps, parts) + suffix) == Some((parts, suffix)),
{
    let s = pascal_text(caps, parts) + suffix;
    let more = pascal_text(caps.skip(1), parts.skip(1)) + suffix;
    assert(s =~= pascal_part_text(caps[0], parts[0]) + more);
    if parts.len() == 1 {
        assert(more =~= suffix);
    } else {
        assert(caps.skip(1)[0] == caps[1]);
        assert(parts.skip(1)[0] == parts[1]);
        assert(more[0] == caps[1]);
        assert(!word_char(more[0]));
    }
    lemma_pascal_part_round_trip(caps[0], parts[0], more);
    lemma_pascal_tail_round_trip(seq![parts[0]], caps.skip(1), parts.skip(1), suffix);
    assert(seq![parts[0]] + parts.skip(1) =~= parts);
}

/// One rendered path segment: an identifier value together with the case it
/// is rendered in (and, for Pascal form, the capitals of its parts).
pub enum SegRender {
    Snake { parts: Seq<Seq<char>> },
    Pascal { caps: Seq<char>, parts: Seq<Seq<char>> },
}

/// The identifier value a rendered segment stands for.
pub open spec fn seg_parts(s: SegRender) -> Seq<Seq<char>> {
    match s {
        SegRender::Snake { parts } => parts,
        SegRender::Pascal { caps, parts } => parts,
    }
}

/// The case a rendered segment is recognized under.
pub open spec fn seg_case(s: SegRender) -> Case {
    match s {
        SegRender::Snake { parts } => Case::Snake,
        SegRender::Pascal { caps, parts } => Case::Pascal,
    }
}

/// A well-formed rendered segment.
pub open spec fn seg_wf(s: SegRender) -> bool {
    match s {
        SegRender::Snake { parts } => snake_wf(parts),
        SegRender::Pascal { caps, parts } => pascal_wf(caps, parts),
    }
}

/// The text of one rendered segment.
pub open spec fn seg_text(s: SegRender) -> Seq<char> {
    match s {
        SegRender::Snake { parts } => snake_text(parts),
        SegRender::Pascal { caps, parts } => pascal_text(caps, parts),
    }
}

/// The text of a rendered path: segment texts joined by double colons.
pub open spec fn segs_text(segs: Seq<SegRender>) -> Seq<char>
    decreases segs.len(),
{
    if segs.len() == 0 {
        Seq::empty()
    } else if segs.len() == 1 {
        seg_text(segs[0])
    } else {
        seg_text(segs[0]) + seq![':', ':'] + segs_text(segs.skip(1))
    }
}

/// The identifier values of a rendered path's segments.
pub open spec fn seg_views(segs: Seq<SegRender>) -> Seq<Seq<Seq<char>>> {
    Seq::new(segs.len(), |i: int| seg_parts(segs[i]))
}

/// The case tag after the last segment of a rendered path.
pub open spec fn segs_final_case(initial: Case, segs: Seq<SegRender>) -> Case {
    if segs.len() == 0 {
        initial
    } else {
        seg_case(segs.last())
    }
}

/// A character sequence that cannot extend a rendered path: empty, or
/// opening with no word character, no upper-case letter, no underscore, and
/// no double colon.
pub open spec fn path_boundary(s: Seq<char>) -> bool {
    &&& s.len() > 0 ==> !word_char(s[0]) && !upper_char(s[0]) && s[0] != '_'
    &&& s.len() >= 2 ==> !(s[0] == ':' && s[1] == ':')
}

proof fn lemma_seg_text_nonempty(s: SegRender)
    requires
        seg_wf(s),
    ensures
        seg_text(s).len() > 0,
{
}

/// One well-formed rendered segment at the head of the text parses as
/// itself.
proof fn lemma_seg_round_trip(s: SegRender, rest: Seq<char>)
    requires
        seg_wf(s),
        rest.len() > 0 ==> !word_char(rest[0]) && !upper_char(rest[0]) && rest[0] != '_',
    ensures
        spec_path_seg(seg_text(s) + rest) == Some((seg_parts(s), seg_case(s), rest)),
{
    match s {
        SegRender::Snake { parts } => {
            lemma_snake_round_trip(parts, rest);
        },
        SegRender::Pascal { caps, parts } => {
            let t = pascal_text(caps, parts) + rest;
            assert(t[0] == caps[0]);
            assert(!word_char(t[0]));
            lemma_word_run_len_is(t, 0);
            assert(spec_snake_ident(t) is None);
            lemma_pascal_round_trip(caps, parts, rest);
        },
    }
}

proof fn lemma_path_segs_round_trip(
    acc: Seq<Seq<Seq<char>>>,
    case: Case,
    segs: Seq<SegRender>,
    suffix: Seq<char>,
)
    requires
        forall|i: int| 0 <= i < segs.len() ==> seg_wf(#[trigger] segs[i]),
        path_boundary(suffix),
    ensures
        spec_path_segs(acc, case, segs_text(segs) + suffix) == (
            acc + seg_views(segs),
            segs_final_case(case, segs),
            suffix,
        ),
    decreases segs.len(),
{
    let s = segs_text(segs) + suffix;
    if segs.len() == 0 {
        assert(s =~= suffix);
        lemma_word_run_len_is(suffix, 0);
        assert(spec_snake_ident(suffix) is None);
        assert(spec_pascal_ident(suffix) is None);
        assert(acc + seg_views(segs) =~= acc);
    } else if segs.len() == 1 {
        assert(s =~= seg_text(segs[0]) + suffix);
        lemma_seg_round_trip(segs[0], suffix);
        assert(acc.push(seg_parts(segs[0])) =~= acc + seg_views(segs));
    } else {
        let rest = seq![':', ':'] + segs_text(segs.skip(1)) + suffix;
        assert(s =~= seg_text(segs[0]) + rest);
        assert(rest[0] == ':');
        lemma_seg_round_trip(segs[0], rest);
        assert(rest[1] == ':');
        let next = segs_text(segs.skip(1)) + suffix;
        assert(rest.skip(2) =~= next);
        lemma_seg_text_nonempty(segs[0]);
        assert(next.len() < s.len());
        assert forall|i: int| 0 <= i < segs.skip(1).len() implies seg_wf(
            #[trigger] segs.skip(1)[i],
        ) by {
            assert(segs.skip(1)[i] == segs[i + 1]);
        }
        lemma_path_segs_round_trip(acc.push(seg_parts(segs[0])), seg_case(segs[0]), segs.skip(1), suffix);
        assert(acc.push(seg_parts(segs[0])) + seg_views(segs.skip(1)) =~= acc + seg_views(segs));
        assert(segs.skip(1).last() == segs.last());
    }
}

/// Law: a rendered path — well-formed segments joined by double colons —
/// followed by any non-extending rest parses back to exactly that path: the
/// leading segments as the base, the last as the name, the case tag that of
/// the last segment, and the rest untouched.
pub proof fn lemma_path_round_trip(segs: Seq<SegRender>, suffix: Seq<char>)
    requires
        segs.len() > 0,
        forall|i: int| 0 <= i < segs.len() ==> seg_wf(#[trigger] segs[i]),
        path_boundary(suffix),
    ensures
        spec_parse_path(segs_text(segs) + suffix) == Some(
            (
                PathView {
                    base: seg_views(segs).drop_last(),
                    name: seg_parts(segs.last()),
                    case: seg_case(segs.last()),
                },
                suffix,
            ),
        ),
{
    lemma_path_segs_round_trip(Seq::empty(), Case::Snake, segs, suffix);
    assert(Seq::empty() + seg_views(segs) =~= seg_views(segs));
    assert(seg_views(segs).last() == seg_parts(segs.last()));
}

} // verus!
