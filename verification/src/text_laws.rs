//! What trimming, searching and numbers come to, in terms of texts put together.

use vstd::prelude::*;

use crate::text::{ascii_digit, ascii_punctuation, decimal, first_at, has_part, occurs_at, str_view};
use crate::text::{text_view, trim, trim_end, trim_start, two_digits, white_space, CharClass};

verus! {

/// Whether all characters of `s` belong to `class`.
pub open spec fn all_in(s: Seq<char>, class: CharClass) -> bool {
    forall|i: int| 0 <= i < s.len() ==> class.holds(#[trigger] s[i])
}

/// Whether `s` has no character of `class` at its ends.
pub open spec fn bare_ends(s: Seq<char>, class: CharClass) -> bool {
    s.len() > 0 ==> !class.holds(s[0]) && !class.holds(s[s.len() - 1])
}

/// The characters of each class.
pub proof fn law_classes(c: char)
    ensures
        CharClass::Space.holds(c) == white_space(c),
        CharClass::Edge.holds(c) == (white_space(c) || ascii_punctuation(c)),
        CharClass::TrackNumber.holds(c) == (white_space(c) || '0' <= c <= '9' || c == '.' || c
            == '-' || c == '_'),
        ascii_digit(c) == ('0' <= c <= '9'),
{
}

/// Trimming the start of a text takes away the characters of the class in front of the first
/// other character, and nothing else.
pub proof fn law_trim_start_cuts_the_edge(edge: Seq<char>, rest: Seq<char>, class: CharClass)
    requires
        all_in(edge, class),
        rest.len() > 0 ==> !class.holds(rest[0]),
    ensures
        trim_start(edge + rest, class) == rest,
    decreases edge.len(),
{
    let s = edge + rest;
    if edge.len() == 0 {
        assert(s =~= rest);
    } else {
        assert(class.holds(edge[0]));
        assert(s[0] == edge[0]);
        assert(s.skip(1) =~= edge.skip(1) + rest);
        assert forall|i: int| 0 <= i < edge.skip(1).len() implies class.holds(
            #[trigger] edge.skip(1)[i],
        ) by {
            assert(class.holds(edge[i + 1]));
        }
        law_trim_start_cuts_the_edge(edge.skip(1), rest, class);
    }
}

/// Trimming the end of a text takes away the characters of the class behind the last other
/// character, and nothing else.
pub proof fn law_trim_end_cuts_the_edge(rest: Seq<char>, edge: Seq<char>, class: CharClass)
    requires
        all_in(edge, class),
        rest.len() > 0 ==> !class.holds(rest[rest.len() - 1]),
    ensures
        trim_end(rest + edge, class) == rest,
    decreases edge.len(),
{
    let s = rest + edge;
    if edge.len() == 0 {
        assert(s =~= rest);
    } else {
        assert(class.holds(edge[edge.len() - 1]));
        assert(s.last() == edge.last());
        assert(s.drop_last() =~= rest + edge.drop_last());
        assert forall|i: int| 0 <= i < edge.drop_last().len() implies class.holds(
            #[trigger] edge.drop_last()[i],
        ) by {
            assert(class.holds(edge[i]));
        }
        law_trim_end_cuts_the_edge(rest, edge.drop_last(), class);
    }
}

/// Trimming takes away the characters of the class at both ends of a text, and nothing between
/// them, however long that is.
pub proof fn law_trim_cuts_the_edges(
    start: Seq<char>,
    middle: Seq<char>,
    end: Seq<char>,
    class: CharClass,
)
    requires
        all_in(start, class),
        bare_ends(middle, class),
        all_in(end, class),
    ensures
        trim(start + middle + end, class) == middle,
{
    if middle.len() == 0 {
        let all = start + end;
        assert(start + middle + end =~= all + middle);
        assert forall|i: int| 0 <= i < all.len() implies class.holds(#[trigger] all[i]) by {
            if i < start.len() {
                assert(class.holds(start[i]));
            } else {
                assert(class.holds(end[i - start.len()]));
            }
        }
        law_trim_start_cuts_the_edge(all, middle, class);
    } else {
        assert(start + middle + end =~= start + (middle + end));
        law_trim_start_cuts_the_edge(start, middle + end, class);
        law_trim_end_cuts_the_edge(middle, end, class);
    }
}

/// A part stands where the text falls into what is in front of it, the part, and what is behind
/// it.
pub proof fn law_part_stands_between(s: Seq<char>, part: Seq<char>, i: int)
    ensures
        occurs_at(s, part, i) <==> exists|before: Seq<char>, after: Seq<char>|
            before.len() == i && s == #[trigger] (before + part + after),
{
    if occurs_at(s, part, i) {
        let before = s.take(i);
        let after = s.skip(i + part.len());
        assert(s.subrange(i, i + part.len()) == part);
        assert(s =~= before + part + after);
    }
    if exists|before: Seq<char>, after: Seq<char>|
        before.len() == i && s == #[trigger] (before + part + after) {
        let (before, after) = choose|before: Seq<char>, after: Seq<char>|
            before.len() == i && s == #[trigger] (before + part + after);
        assert(s.subrange(i, i + part.len()) =~= part);
    }
}

/// A text has a part if and only if it is that part with something in front of it and something
/// behind it, either of which may be empty or of any length.
pub proof fn law_text_around_a_part(s: Seq<char>, part: Seq<char>)
    ensures
        has_part(s, part) <==> exists|before: Seq<char>, after: Seq<char>|
            s == #[trigger] (before + part + after),
{
    if has_part(s, part) {
        let i = choose|i: int| occurs_at(s, part, i);
        law_part_stands_between(s, part, i);
        let (before, after) = choose|before: Seq<char>, after: Seq<char>|
            before.len() == i && s == #[trigger] (before + part + after);
        assert(s == before + part + after);
    }
    if exists|before: Seq<char>, after: Seq<char>| s == #[trigger] (before + part + after) {
        let (before, after) = choose|before: Seq<char>, after: Seq<char>|
            s == #[trigger] (before + part + after);
        law_part_stands_between(s, part, before.len() as int);
        assert(occurs_at(s, part, before.len() as int));
    }
}

/// The first place of a part is one where it stands, and no other is in front of it.
pub proof fn law_first_place(s: Seq<char>, part: Seq<char>, i: int)
    ensures
        first_at(s, part, i) <==> {
            &&& occurs_at(s, part, i)
            &&& forall|before: Seq<char>, after: Seq<char>|
                s == #[trigger] (before + part + after) ==> i <= before.len()
        },
{
    if first_at(s, part, i) {
        assert forall|before: Seq<char>, after: Seq<char>|
            s == #[trigger] (before + part + after) implies i <= before.len() by {
            law_part_stands_between(s, part, before.len() as int);
            assert(occurs_at(s, part, before.len() as int));
        }
    }
    if occurs_at(s, part, i) && forall|before: Seq<char>, after: Seq<char>|
        s == #[trigger] (before + part + after) ==> i <= before.len() {
        assert forall|j: int| 0 <= j < i implies !occurs_at(s, part, j) by {
            if occurs_at(s, part, j) {
                law_part_stands_between(s, part, j);
            }
        }
    }
}

/// A digit behind a number makes ten times the number and the digit.
pub proof fn law_decimal_digit_by_digit(n: nat, d: nat)
    requires
        d < 10,
    ensures
        decimal(d) == seq![('0' as nat + d) as char],
        n > 0 ==> decimal(n * 10 + d) == decimal(n).push(('0' as nat + d) as char),
{
    if n > 0 {
        assert((n * 10 + d) / 10 == n);
        assert((n * 10 + d) % 10 == d);
    }
}

/// Below a hundred there are two digits, the tens and the ones; from there on as many as the
/// number has.
pub proof fn law_two_digits(tens: nat, ones: nat, n: nat)
    requires
        tens < 10,
        ones < 10,
        n >= 100,
    ensures
        two_digits(tens * 10 + ones) == seq![
            ('0' as nat + tens) as char,
            ('0' as nat + ones) as char,
        ],
        two_digits(n) == decimal(n),
{
    law_decimal_digit_by_digit(0, tens);
    law_decimal_digit_by_digit(tens, ones);
    assert(two_digits(tens * 10 + ones) =~= seq![
        ('0' as nat + tens) as char,
        ('0' as nat + ones) as char,
    ]);
}

/// The characters of an optional text are those of the text, where there is one.
pub proof fn law_optional_text(owned: String, borrowed: &str)
    ensures
        text_view(Some(owned)) == Some(owned@),
        text_view(None) is None,
        str_view(Some(borrowed)) == Some(borrowed@),
        str_view(None) is None,
{
}

} // verus!
