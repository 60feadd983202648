//! What holds of artists and titles that are read out of file names and queries.

use vstd::prelude::*;

use crate::jobs::query_base_name;
use crate::text::{first_at, has_part, occurs_at, trim, trim_end, trim_start, white_space};
use crate::text::CharClass;
use crate::text_laws::{all_in, bare_ends};
use crate::titles::{artist_and_title, cleaned, depth, is_bracket, joined, lemma_word_len};
use crate::titles::{outside_brackets, split_artist_title, split_once, underscores_to_spaces};
use crate::titles::{pair_view, word_len, words};

verus! {

/// Whether no character of `s` is a bracket.
pub open spec fn no_brackets(s: Seq<char>) -> bool {
    forall|i: int| 0 <= i < s.len() ==> !is_bracket(#[trigger] s[i])
}

/// Whether `s` has no bracket, no underscore, no white space but single spaces, and neither
/// white space nor punctuation at its ends.
pub open spec fn tidy(s: Seq<char>) -> bool {
    &&& no_brackets(s)
    &&& forall|i: int| 0 <= i < s.len() ==> #[trigger] s[i] != '_'
    &&& forall|i: int| 0 <= i < s.len() && white_space(#[trigger] s[i]) ==> s[i] == ' '
    &&& forall|i: int, j: int|
        0 <= i < s.len() && j == i + 1 && j < s.len() ==> !(white_space(#[trigger] s[i])
            && white_space(#[trigger] s[j]))
    &&& s.len() > 0 ==> !CharClass::Edge.holds(s[0]) && !CharClass::Edge.holds(s.last())
}

/// Nothing that stands outside of brackets is a bracket.
pub proof fn law_brackets_are_gone(s: Seq<char>)
    ensures
        no_brackets(outside_brackets(s)),
    decreases s.len(),
{
    if s.len() > 0 {
        law_brackets_are_gone(s.drop_last());
    }
}

/// A text without brackets has no section open.
proof fn lemma_no_depth(s: Seq<char>)
    requires
        no_brackets(s),
    ensures
        depth(s, '(', ')') == 0,
        depth(s, '[', ']') == 0,
    decreases s.len(),
{
    if s.len() > 0 {
        assert forall|i: int| 0 <= i < s.drop_last().len() implies !is_bracket(
            #[trigger] s.drop_last()[i],
        ) by {
            assert(!is_bracket(s[i]));
        }
        lemma_no_depth(s.drop_last());
        assert(!is_bracket(s[s.len() - 1]));
    }
}

/// A text without brackets stays as it is.
pub proof fn law_plain_names_stay(s: Seq<char>)
    requires
        no_brackets(s),
    ensures
        outside_brackets(s) == s,
    decreases s.len(),
{
    if s.len() > 0 {
        let front = s.drop_last();
        assert forall|i: int| 0 <= i < front.len() implies !is_bracket(#[trigger] front[i]) by {
            assert(!is_bracket(s[i]));
        }
        lemma_no_depth(front);
        law_plain_names_stay(front);
        assert(!is_bracket(s[s.len() - 1]));
        assert(s =~= front.push(s.last()));
    }
}

/// Where no section is open at the end of `a`, what follows counts as if it stood alone.
proof fn lemma_closed_part(a: Seq<char>, b: Seq<char>)
    requires
        depth(a, '(', ')') == 0,
        depth(a, '[', ']') == 0,
    ensures
        depth(a + b, '(', ')') == depth(b, '(', ')'),
        depth(a + b, '[', ']') == depth(b, '[', ']'),
        outside_brackets(a + b) == outside_brackets(a) + outside_brackets(b),
    decreases b.len(),
{
    if b.len() == 0 {
        assert(a + b =~= a);
        assert(outside_brackets(a) + outside_brackets(b) =~= outside_brackets(a));
    } else {
        lemma_closed_part(a, b.drop_last());
        assert((a + b).drop_last() =~= a + b.drop_last());
        assert((a + b).last() == b.last());
        assert(outside_brackets(a + b) =~= outside_brackets(a) + outside_brackets(b));
    }
}

/// Whether `s` is a section in brackets: it starts with an opening bracket, and the last of its
/// brackets closes with its last character and not before. Other sections may stand inside.
pub open spec fn is_section(s: Seq<char>) -> bool {
    &&& s.len() > 0
    &&& s[0] == '(' || s[0] == '['
    &&& forall|k: int|
        0 < k < s.len() ==> depth(#[trigger] s.take(k), '(', ')') > 0 || depth(s.take(k), '[', ']')
            > 0
    &&& depth(s, '(', ')') == 0
    &&& depth(s, '[', ']') == 0
}

/// Nothing in a section counts.
proof fn lemma_nothing_counts(s: Seq<char>, k: int)
    requires
        is_section(s),
        0 <= k <= s.len(),
    ensures
        outside_brackets(s.take(k)) == Seq::<char>::empty(),
    decreases k,
{
    if k > 0 {
        lemma_nothing_counts(s, k - 1);
        assert(s.take(k).drop_last() =~= s.take(k - 1));
        assert(s.take(k).last() == s[k - 1]);
    }
}

/// A section in brackets is dropped, and what stands in front of it and behind it stays.
pub proof fn law_bracketed_section_is_dropped(
    before: Seq<char>,
    section: Seq<char>,
    after: Seq<char>,
)
    requires
        depth(before, '(', ')') == 0,
        depth(before, '[', ']') == 0,
        is_section(section),
    ensures
        outside_brackets(before + section + after) == outside_brackets(before) + outside_brackets(
            after,
        ),
{
    lemma_nothing_counts(section, section.len() as int);
    assert(section.take(section.len() as int) =~= section);
    lemma_closed_part(section, after);
    lemma_closed_part(before, section + after);
    assert(before + section + after =~= before + (section + after));
    assert(outside_brackets(section + after) =~= outside_brackets(after));
}

/// What is trimmed is a part of the text, with nothing left at its ends that is to be trimmed.
proof fn lemma_trim_range(s: Seq<char>, class: CharClass) -> (range: (int, int))
    ensures
        0 <= range.0 <= range.1 <= s.len(),
        trim(s, class) == s.subrange(range.0, range.1),
        trim(s, class).len() > 0 ==> !class.holds(trim(s, class)[0]) && !class.holds(
            trim(s, class).last(),
        ),
{
    let t = trim_start(s, class);
    let a = lemma_trim_start_range(s, class);
    let b = lemma_trim_end_range(t, class);
    assert(trim(s, class) =~= s.subrange(a, a + b));
    if trim(s, class).len() > 0 {
        assert(trim(s, class)[0] == t[0]);
    }
    (a, a + b)
}

proof fn lemma_trim_start_range(s: Seq<char>, class: CharClass) -> (a: int)
    ensures
        0 <= a <= s.len(),
        trim_start(s, class) == s.skip(a),
        trim_start(s, class).len() > 0 ==> !class.holds(trim_start(s, class)[0]),
    decreases s.len(),
{
    if s.len() > 0 && class.holds(s[0]) {
        let a = lemma_trim_start_range(s.skip(1), class);
        assert(s.skip(1).skip(a) =~= s.skip(a + 1));
        a + 1
    } else {
        assert(s.skip(0) =~= s);
        0
    }
}

proof fn lemma_trim_end_range(s: Seq<char>, class: CharClass) -> (b: int)
    ensures
        0 <= b <= s.len(),
        trim_end(s, class) == s.take(b),
        trim_end(s, class).len() > 0 ==> !class.holds(trim_end(s, class).last()),
    decreases s.len(),
{
    if s.len() > 0 && class.holds(s.last()) {
        let b = lemma_trim_end_range(s.drop_last(), class);
        assert(s.drop_last().take(b) =~= s.take(b));
        b
    } else {
        assert(s.take(s.len() as int) =~= s);
        s.len() as int
    }
}

/// The first word of a text has no white space, and ends where white space follows.
proof fn lemma_first_word(s: Seq<char>)
    ensures
        word_len(s) <= s.len(),
        forall|i: int| 0 <= i < word_len(s) ==> !white_space(#[trigger] s[i]),
        word_len(s) < s.len() ==> white_space(s[word_len(s) as int]),
    decreases s.len(),
{
    if s.len() > 0 && !white_space(s[0]) {
        lemma_first_word(s.skip(1));
        assert forall|i: int| 0 <= i < word_len(s) implies !white_space(#[trigger] s[i]) by {
            if i > 0 {
                assert(s[i] == s.skip(1)[i - 1]);
            }
        }
    }
}

/// Whether `word` is a word out of a text without brackets and underscores.
spec fn plain_word(word: Seq<char>) -> bool {
    &&& word.len() > 0
    &&& forall|i: int|
        0 <= i < word.len() ==> !white_space(#[trigger] word[i]) && !is_bracket(word[i]) && word[i]
            != '_'
}

/// The words of a text without brackets and underscores.
proof fn lemma_plain_words(s: Seq<char>)
    requires
        no_brackets(s),
        forall|i: int| 0 <= i < s.len() ==> #[trigger] s[i] != '_',
    ensures
        forall|k: int| 0 <= k < words(s).len() ==> plain_word(#[trigger] words(s)[k]),
    decreases s.len(),
{
    if s.len() > 0 {
        lemma_first_word(s);
        lemma_word_len(s);
        let n = if white_space(s[0]) {
            1
        } else {
            word_len(s) as int
        };
        let rest = s.skip(n);
        assert forall|i: int| 0 <= i < rest.len() implies !is_bracket(#[trigger] rest[i]) by {
            assert(!is_bracket(s[n + i]));
        }
        assert forall|i: int| 0 <= i < rest.len() implies #[trigger] rest[i] != '_' by {
            assert(s[n + i] != '_');
        }
        lemma_plain_words(rest);
        if white_space(s[0]) {
            assert(words(s) == words(rest));
        } else {
            let first = s.take(n);
            assert forall|i: int| 0 <= i < first.len() implies !white_space(#[trigger] first[i])
                && !is_bracket(first[i]) && first[i] != '_' by {
                assert(first[i] == s[i]);
            }
            assert(plain_word(first));
            assert(words(s) == seq![first] + words(rest));
            assert forall|k: int| 0 <= k < words(s).len() implies plain_word(
                #[trigger] words(s)[k],
            ) by {
                if k > 0 {
                    assert(words(s)[k] == words(rest)[k - 1]);
                }
            }
        }
    } else {
        assert(words(s).len() == 0);
    }
}

/// Whether `s` has no bracket, no underscore, no white space but single spaces, and no white
/// space at its ends.
spec fn spaced(s: Seq<char>) -> bool {
    &&& no_brackets(s)
    &&& forall|i: int| 0 <= i < s.len() ==> #[trigger] s[i] != '_'
    &&& forall|i: int| 0 <= i < s.len() && white_space(#[trigger] s[i]) ==> s[i] == ' '
    &&& forall|i: int, j: int|
        0 <= i < s.len() && j == i + 1 && j < s.len() ==> !(white_space(#[trigger] s[i])
            && white_space(#[trigger] s[j]))
    &&& s.len() > 0 ==> !white_space(s[0]) && !white_space(s.last())
}

/// Words in a row with single spaces.
proof fn lemma_joined_is_spaced(ws: Seq<Seq<char>>)
    requires
        forall|k: int| 0 <= k < ws.len() ==> plain_word(#[trigger] ws[k]),
    ensures
        spaced(joined(ws)),
        ws.len() > 0 ==> joined(ws).len() > 0,
    decreases ws.len(),
{
    if ws.len() == 1 {
        assert(plain_word(ws[0]));
    } else if ws.len() > 1 {
        let front = ws.drop_last();
        assert forall|k: int| 0 <= k < front.len() implies plain_word(#[trigger] front[k]) by {
            assert(plain_word(ws[k]));
        }
        lemma_joined_is_spaced(front);
        let a = joined(front);
        let w = ws.last();
        assert(plain_word(ws[ws.len() - 1]));
        let s = joined(ws);
        assert(s == a + seq![' '] + w);
        assert forall|i: int| 0 <= i < s.len() implies !is_bracket(#[trigger] s[i]) && s[i] != '_'
            && (white_space(s[i]) ==> s[i] == ' ') && (white_space(s[i]) && i != a.len() ==> i
            < a.len() && white_space(a[i])) by {
            if i < a.len() {
                assert(s[i] == a[i]);
            } else if i > a.len() {
                assert(s[i] == w[i - a.len() - 1]);
            }
        }
        assert(s[a.len() - 1] == a.last());
        assert forall|i: int, j: int| 0 <= i < s.len() && j == i + 1 && j < s.len() implies !(
        white_space(#[trigger] s[i]) && white_space(#[trigger] s[j])) by {
            if j < a.len() {
                assert(s[i] == a[i] && s[j] == a[j]);
            } else if j == a.len() {
                assert(s[i] == a.last());
            }
        }
    }
}

/// Cleaning gives a tidy text.
pub proof fn law_cleaned_is_tidy(s: Seq<char>)
    ensures
        tidy(cleaned(s)),
{
    let a = outside_brackets(s);
    let b = underscores_to_spaces(a);
    law_brackets_are_gone(s);
    assert forall|i: int| 0 <= i < b.len() implies !is_bracket(#[trigger] b[i]) && b[i] != '_' by {
        assert(!is_bracket(a[i]));
    }
    lemma_plain_words(b);
    lemma_joined_is_spaced(words(b));
    let c = joined(words(b));
    let range = lemma_trim_range(c, CharClass::Edge);
    let d = cleaned(s);
    assert forall|i: int| 0 <= i < d.len() implies #[trigger] d[i] == c[range.0 + i] by {}
}

/// A word in front of other words.
proof fn lemma_joined_front(w: Seq<char>, ws: Seq<Seq<char>>)
    requires
        ws.len() > 0,
    ensures
        joined(seq![w] + ws) == w + seq![' '] + joined(ws),
    decreases ws.len(),
{
    reveal_with_fuel(joined, 2);
    let all = seq![w] + ws;
    assert(all.drop_last() =~= seq![w] + ws.drop_last());
    if ws.len() == 1 {
        assert(all.drop_last() =~= seq![w]);
    } else {
        lemma_joined_front(w, ws.drop_last());
        assert(joined(all) =~= w + seq![' '] + joined(ws));
    }
}

/// Text with single spaces is its words in a row.
proof fn lemma_spaced_is_joined(s: Seq<char>)
    requires
        spaced(s),
    ensures
        joined(words(s)) == s,
        s.len() > 0 ==> words(s).len() > 0,
    decreases s.len(),
{
    if s.len() > 0 {
        lemma_first_word(s);
        lemma_word_len(s);
        let n = word_len(s) as int;
        let w = s.take(n);
        let rest = s.skip(n);
        if n == s.len() {
            assert(words(rest) =~= Seq::empty());
            assert(words(s) =~= seq![w]);
            assert(w =~= s);
        } else {
            let tail = s.skip(n + 1);
            assert(rest[0] == s[n]);
            assert(rest.skip(1) =~= tail);
            assert(words(rest) == words(tail));
            assert(n + 1 < s.len()) by {
                if n + 1 == s.len() {
                    assert(s.last() == s[n]);
                }
            }
            assert(tail[0] == s[n + 1]);
            assert(!(white_space(s[n]) && white_space(s[n + 1])));
            assert(tail.last() == s.last());
            assert forall|i: int| 0 <= i < tail.len() implies #[trigger] tail[i] == s[n + 1 + i] by {}
            assert(spaced(tail));
            lemma_spaced_is_joined(tail);
            lemma_joined_front(w, words(tail));
            assert(words(s) == seq![w] + words(tail));
            assert(s =~= w + seq![' '] + tail);
        }
    }
}

/// A tidy text stays as it is when it is cleaned.
pub proof fn law_tidy_names_stay(s: Seq<char>)
    requires
        tidy(s),
    ensures
        cleaned(s) == s,
{
    law_plain_names_stay(s);
    assert(underscores_to_spaces(s) =~= s);
    lemma_spaced_is_joined(s);
}

/// To clean twice is to clean once.
pub proof fn law_cleaning_is_idempotent(s: Seq<char>)
    ensures
        cleaned(cleaned(s)) == cleaned(s),
{
    law_cleaned_is_tidy(s);
    law_tidy_names_stay(cleaned(s));
}

/// An artist and a title that are read out of a text are tidy, and neither is empty. The lyrics
/// of a query are therefore filed under the title itself.
pub proof fn law_names_are_tidy(s: Seq<char>)
    ensures
        artist_and_title(s) matches Some(names) ==> {
            &&& tidy(names.0) && names.0.len() > 0
            &&& tidy(names.1) && names.1.len() > 0
            &&& query_base_name(names.1) == names.1
        },
{
    if let Some(parts) = split_artist_title(s) {
        law_cleaned_is_tidy(parts.0);
        law_cleaned_is_tidy(parts.1);
        law_cleaning_is_idempotent(parts.1);
    }
}

/// A track number in front of a file name makes no difference.
pub proof fn law_track_number_is_passed_over(number: Seq<char>, name: Seq<char>)
    requires
        forall|i: int|
            0 <= i < number.len() ==> CharClass::TrackNumber.holds(#[trigger] number[i]),
    ensures
        trim_start(number + name, CharClass::TrackNumber) == trim_start(
            name,
            CharClass::TrackNumber,
        ),
    decreases number.len(),
{
    if number.len() == 0 {
        assert(number + name =~= name);
    } else {
        let rest = number.skip(1);
        assert forall|i: int| 0 <= i < rest.len() implies CharClass::TrackNumber.holds(
            #[trigger] rest[i],
        ) by {
            assert(CharClass::TrackNumber.holds(number[i + 1]));
        }
        law_track_number_is_passed_over(rest, name);
        assert(CharClass::TrackNumber.holds(number[0]));
        assert((number + name).skip(1) =~= rest + name);
    }
}

/// A text with nothing to be trimmed at its ends stays as it is.
proof fn lemma_nothing_to_trim(s: Seq<char>, class: CharClass)
    requires
        s.len() > 0,
        !class.holds(s[0]),
        !class.holds(s.last()),
    ensures
        trim(s, class) == s,
{
}

/// The first spaced hyphen between an artist and a title is the one that separates them, where
/// the artist has none and does not end with part of one.
proof fn lemma_separator_is_first(artist: Seq<char>, title: Seq<char>)
    requires
        artist.len() > 0,
        artist.last() != '-',
        artist.last() != ' ',
        !has_part(artist, seq![' ', '-', ' ']),
    ensures
        split_artist_title(artist + seq![' ', '-', ' '] + title) == Some((artist, title)),
{
    let separator = seq![' ', '-', ' '];
    let s = artist + separator + title;
    let n = artist.len() as int;
    assert(s.subrange(n, n + 3) =~= separator);
    assert(occurs_at(s, separator, n));
    assert forall|j: int| 0 <= j < n implies !occurs_at(s, separator, j) by {
        if occurs_at(s, separator, j) {
            let found = s.subrange(j, j + 3);
            assert(found[0] == s[j] && found[1] == s[j + 1] && found[2] == s[j + 2]);
            if j + 3 <= n {
                assert(artist.subrange(j, j + 3) =~= found);
                assert(occurs_at(artist, separator, j));
            } else if j + 2 == n {
                assert(artist.last() == '-');
            } else {
                assert(artist.last() == ' ');
            }
        }
    }
    assert(first_at(s, separator, n));
    let i = choose|i: int| first_at(s, separator, i);
    assert(i == n);
    assert(s.take(n) =~= artist);
    assert(s.skip(n + 3) =~= title);
    assert(split_once(s, separator) == Some((artist, title)));
}

/// A query of a tidy artist and a tidy title with a spaced hyphen between them gives just these
/// two back, unless there is a spaced hyphen in the artist itself.
pub proof fn law_query_reads_back(artist: Seq<char>, title: Seq<char>)
    requires
        tidy(artist),
        artist.len() > 0,
        tidy(title),
        title.len() > 0,
        !has_part(artist, seq![' ', '-', ' ']),
    ensures
        artist_and_title(trim(artist + seq![' ', '-', ' '] + title, CharClass::Space)) == Some(
            (artist, title),
        ),
{
    let s = artist + seq![' ', '-', ' '] + title;
    assert(s[0] == artist[0]);
    assert(s.last() == title.last());
    lemma_nothing_to_trim(s, CharClass::Space);
    lemma_separator_is_first(artist, title);
    law_tidy_names_stay(artist);
    law_tidy_names_stay(title);
}

/// How many sections are open changes with the brackets of their sort alone: an opening one opens
/// one more, and a closing one closes one, where any is open.
pub proof fn law_brackets_open_and_close(s: Seq<char>, c: char, open: char, close: char)
    requires
        open != close,
    ensures
        depth(Seq::empty(), open, close) == 0,
        depth(s.push(open), open, close) == depth(s, open, close) + 1,
        depth(s.push(close), open, close) == (if depth(s, open, close) > 0 {
            depth(s, open, close) - 1
        } else {
            0
        }),
        c != open && c != close ==> depth(s.push(c), open, close) == depth(s, open, close),
{
    assert(s.push(open).drop_last() =~= s);
    assert(s.push(close).drop_last() =~= s);
    assert(s.push(c).drop_last() =~= s);
}

/// A character counts if and only if it is no bracket and no section of either sort is open in
/// front of it.
pub proof fn law_what_counts_outside_of_brackets(s: Seq<char>, c: char)
    ensures
        outside_brackets(Seq::empty()) == Seq::<char>::empty(),
        c != '(' && c != ')' && c != '[' && c != ']' && depth(s, '(', ')') == 0 && depth(
            s,
            '[',
            ']',
        ) == 0 ==> outside_brackets(s.push(c)) == outside_brackets(s).push(c),
        c == '(' || c == ')' || c == '[' || c == ']' || depth(s, '(', ')') > 0 || depth(s, '[', ']')
            > 0 ==> outside_brackets(s.push(c)) == outside_brackets(s),
{
    assert(s.push(c).drop_last() =~= s);
}

/// An underscore becomes a space, and every other character stays.
pub proof fn law_underscores_become_spaces(s: Seq<char>)
    ensures
        underscores_to_spaces(s).len() == s.len(),
        forall|i: int|
            0 <= i < s.len() ==> #[trigger] underscores_to_spaces(s)[i] == (if s[i] == '_' {
                ' '
            } else {
                s[i]
            }),
{
}

/// The first word of a text is the same when white space and more text follow.
proof fn lemma_word_before_space(a: Seq<char>, c: char, b: Seq<char>)
    requires
        white_space(c),
    ensures
        word_len(a + seq![c] + b) == word_len(a),
    decreases a.len(),
{
    let s = a + seq![c] + b;
    if a.len() == 0 {
        assert(s[0] == c);
    } else {
        assert(s[0] == a[0]);
        assert(s.skip(1) =~= a.skip(1) + seq![c] + b);
        lemma_word_before_space(a.skip(1), c, b);
    }
}

/// White space parts words: the words of a text are those in front of any white space in it and
/// those behind that. A text without white space is one word, all of it.
pub proof fn law_white_space_parts_words(a: Seq<char>, c: char, b: Seq<char>)
    requires
        white_space(c),
    ensures
        words(a + seq![c] + b) == words(a) + words(b),
    decreases a.len(),
{
    let s = a + seq![c] + b;
    if a.len() == 0 {
        assert(s[0] == c);
        assert(s.skip(1) =~= b);
        assert(words(a) + words(b) =~= words(b));
    } else if white_space(a[0]) {
        assert(s[0] == a[0]);
        assert(s.skip(1) =~= a.skip(1) + seq![c] + b);
        law_white_space_parts_words(a.skip(1), c, b);
    } else {
        assert(s[0] == a[0]);
        lemma_word_before_space(a, c, b);
        lemma_word_len(a);
        let n = word_len(a) as int;
        assert(s.take(n) =~= a.take(n));
        assert(s.skip(n) =~= a.skip(n) + seq![c] + b);
        law_white_space_parts_words(a.skip(n), c, b);
        assert(words(s) =~= words(a) + words(b));
    }
}

/// A text without white space is one word, all of it, and one without any character has none.
pub proof fn law_text_without_white_space_is_a_word(s: Seq<char>)
    requires
        forall|i: int| 0 <= i < s.len() ==> !white_space(#[trigger] s[i]),
    ensures
        s.len() > 0 ==> words(s) == seq![s],
        s.len() == 0 ==> words(s) == Seq::<Seq<char>>::empty(),
{
    if s.len() > 0 {
        lemma_first_word(s);
        let n = word_len(s) as int;
        assert(n == s.len());
        assert(s.take(n) =~= s);
        assert(words(s.skip(n)) =~= Seq::empty());
        assert(words(s) =~= seq![s]);
    }
}

/// Words are joined one behind the other, with one space between each two.
pub proof fn law_words_are_joined(ws: Seq<Seq<char>>, w: Seq<char>)
    ensures
        joined(Seq::empty()) == Seq::<char>::empty(),
        joined(seq![w]) == w,
        ws.len() > 0 ==> joined(ws.push(w)) == joined(ws) + seq![' '] + w,
{
    assert(ws.push(w).drop_last() =~= ws);
}

/// Cleaning takes away the brackets, turns underscores and white space into single spaces, and
/// then cuts white space and punctuation at the ends, and nothing else: with what is cut put back
/// in front and behind, there stand the words outside of brackets, all of them and in order.
pub proof fn law_cleaning_keeps_the_words(s: Seq<char>)
    ensures
        exists|start: Seq<char>, end: Seq<char>|
            {
                &&& all_in(start, CharClass::Edge)
                &&& all_in(end, CharClass::Edge)
                &&& joined(words(underscores_to_spaces(outside_brackets(s)))) == #[trigger] (start
                    + cleaned(s) + end)
            },
        bare_ends(cleaned(s), CharClass::Edge),
{
    let c = joined(words(underscores_to_spaces(outside_brackets(s))));
    let a = lemma_trim_start_cut(c, CharClass::Edge);
    let t = c.skip(a);
    let b = lemma_trim_end_cut(t, CharClass::Edge);
    let start = c.take(a);
    let end = t.skip(b);
    assert(c =~= start + t.take(b) + end);
    assert(all_in(start, CharClass::Edge));
    assert(all_in(end, CharClass::Edge));
    assert(c == start + cleaned(s) + end);
    law_cleaned_is_tidy(s);
}

/// What trimming the start of a text cuts.
proof fn lemma_trim_start_cut(s: Seq<char>, class: CharClass) -> (a: int)
    ensures
        0 <= a <= s.len(),
        trim_start(s, class) == s.skip(a),
        all_in(s.take(a), class),
    decreases s.len(),
{
    if s.len() > 0 && class.holds(s[0]) {
        let a = lemma_trim_start_cut(s.skip(1), class);
        assert(s.skip(1).skip(a) =~= s.skip(a + 1));
        assert forall|i: int| 0 <= i < s.take(a + 1).len() implies class.holds(
            #[trigger] s.take(a + 1)[i],
        ) by {
            if i > 0 {
                assert(s.skip(1).take(a)[i - 1] == s[i]);
            }
        }
        a + 1
    } else {
        assert(s.skip(0) =~= s);
        0
    }
}

/// What trimming the end of a text cuts.
proof fn lemma_trim_end_cut(s: Seq<char>, class: CharClass) -> (b: int)
    ensures
        0 <= b <= s.len(),
        trim_end(s, class) == s.take(b),
        all_in(s.skip(b), class),
    decreases s.len(),
{
    if s.len() > 0 && class.holds(s.last()) {
        let less = s.drop_last();
        let b = lemma_trim_end_cut(less, class);
        assert(less.take(b) =~= s.take(b));
        assert forall|i: int| 0 <= i < s.skip(b).len() implies class.holds(
            #[trigger] s.skip(b)[i],
        ) by {
            if b + i < less.len() {
                assert(less.skip(b)[i] == s[b + i]);
            } else {
                assert(s.skip(b)[i] == s.last());
            }
        }
        b
    } else {
        assert(s.take(s.len() as int) =~= s);
        s.len() as int
    }
}

/// Cleaning a text is cleaning what stands outside of its brackets.
pub proof fn law_cleaning_looks_outside_of_brackets(s: Seq<char>)
    ensures
        cleaned(s) == cleaned(outside_brackets(s)),
{
    law_brackets_are_gone(s);
    law_plain_names_stay(outside_brackets(s));
}

/// A section in brackets makes no difference to what cleaning gives.
pub proof fn law_sections_make_no_difference(
    before: Seq<char>,
    section: Seq<char>,
    after: Seq<char>,
)
    requires
        depth(before, '(', ')') == 0,
        depth(before, '[', ']') == 0,
        is_section(section),
    ensures
        cleaned(before + section + after) == cleaned(before + after),
{
    law_bracketed_section_is_dropped(before, section, after);
    lemma_closed_part(before, after);
}

/// A tidy name with a section in brackets behind it or in front of it, with white space or an
/// underscore between them, is cleaned to just that name.
pub proof fn law_name_stays_beside_a_section(name: Seq<char>, gap: char, section: Seq<char>)
    requires
        tidy(name),
        name.len() > 0,
        white_space(gap) || gap == '_',
        is_section(section),
    ensures
        cleaned(name + seq![gap] + section) == name,
        cleaned(section + seq![gap] + name) == name,
{
    let empty = Seq::<char>::empty();
    let space = if gap == '_' {
        ' '
    } else {
        gap
    };
    lemma_no_depth(name);
    law_plain_names_stay(name);
    lemma_spaced_is_joined(name);
    lemma_nothing_to_trim(name, CharClass::Edge);

    let a = name + seq![gap];
    assert forall|i: int| 0 <= i < a.len() implies !is_bracket(#[trigger] a[i]) by {
        if i < name.len() {
            assert(!is_bracket(name[i]));
        }
    }
    lemma_no_depth(a);
    law_plain_names_stay(a);
    law_sections_make_no_difference(a, section, empty);
    assert(a + section + empty =~= name + seq![gap] + section);
    assert(a + empty =~= a);
    assert(underscores_to_spaces(a) =~= name + seq![space] + empty);
    law_white_space_parts_words(name, space, empty);
    assert(words(name) + words(empty) =~= words(name));

    let b = seq![gap] + name;
    assert forall|i: int| 0 <= i < b.len() implies !is_bracket(#[trigger] b[i]) by {
        if i > 0 {
            assert(!is_bracket(name[i - 1]));
        }
    }
    law_plain_names_stay(b);
    law_sections_make_no_difference(empty, section, b);
    assert(empty + section + b =~= section + seq![gap] + name);
    assert(empty + b =~= b);
    assert(underscores_to_spaces(b) =~= empty + seq![space] + name);
    law_white_space_parts_words(empty, space, name);
    assert(words(empty) + words(name) =~= words(name));
}

/// The parts around the first place of a separator.
proof fn lemma_split_once(before: Seq<char>, separator: Seq<char>, after: Seq<char>)
    requires
        first_at(before + separator + after, separator, before.len() as int),
    ensures
        has_part(before + separator + after, separator),
        split_once(before + separator + after, separator) == Some((before, after)),
{
    let s = before + separator + after;
    let n = before.len() as int;
    assert(occurs_at(s, separator, n));
    let i = choose|i: int| first_at(s, separator, i);
    assert(i == n);
    assert(s.take(n) =~= before);
    assert(s.skip(n + separator.len()) =~= after);
}

/// The names in a text with a spaced hyphen are the cleaned parts in front of the first one and
/// behind it, where neither is empty.
pub proof fn law_names_around_a_spaced_hyphen(artist: Seq<char>, title: Seq<char>)
    requires
        first_at(
            artist + seq![' ', '-', ' '] + title,
            seq![' ', '-', ' '],
            artist.len() as int,
        ),
    ensures
        split_artist_title(artist + seq![' ', '-', ' '] + title) == Some((artist, title)),
        artist_and_title(artist + seq![' ', '-', ' '] + title) == (if cleaned(artist).len() > 0
            && cleaned(title).len() > 0 {
            Some((cleaned(artist), cleaned(title)))
        } else {
            None
        }),
{
    lemma_split_once(artist, seq![' ', '-', ' '], title);
}

/// In a text without a spaced hyphen, the same holds of the first spaced en dash.
pub proof fn law_names_around_a_spaced_en_dash(artist: Seq<char>, title: Seq<char>)
    requires
        !has_part(artist + seq![' ', '\u{2013}', ' '] + title, seq![' ', '-', ' ']),
        first_at(
            artist + seq![' ', '\u{2013}', ' '] + title,
            seq![' ', '\u{2013}', ' '],
            artist.len() as int,
        ),
    ensures
        split_artist_title(artist + seq![' ', '\u{2013}', ' '] + title) == Some((artist, title)),
        artist_and_title(artist + seq![' ', '\u{2013}', ' '] + title) == (if cleaned(artist).len()
            > 0 && cleaned(title).len() > 0 {
            Some((cleaned(artist), cleaned(title)))
        } else {
            None
        }),
{
    lemma_split_once(artist, seq![' ', '\u{2013}', ' '], title);
}

/// In a text without either of these, the same holds of the first spaced em dash.
pub proof fn law_names_around_a_spaced_em_dash(artist: Seq<char>, title: Seq<char>)
    requires
        !has_part(artist + seq![' ', '\u{2014}', ' '] + title, seq![' ', '-', ' ']),
        !has_part(artist + seq![' ', '\u{2014}', ' '] + title, seq![' ', '\u{2013}', ' ']),
        first_at(
            artist + seq![' ', '\u{2014}', ' '] + title,
            seq![' ', '\u{2014}', ' '],
            artist.len() as int,
        ),
    ensures
        split_artist_title(artist + seq![' ', '\u{2014}', ' '] + title) == Some((artist, title)),
        artist_and_title(artist + seq![' ', '\u{2014}', ' '] + title) == (if cleaned(artist).len()
            > 0 && cleaned(title).len() > 0 {
            Some((cleaned(artist), cleaned(title)))
        } else {
            None
        }),
{
    lemma_split_once(artist, seq![' ', '\u{2014}', ' '], title);
}

/// In a text without any spaced dash, the same holds of the first hyphen.
pub proof fn law_names_around_a_hyphen(artist: Seq<char>, title: Seq<char>)
    requires
        !has_part(artist + seq!['-'] + title, seq![' ', '-', ' ']),
        !has_part(artist + seq!['-'] + title, seq![' ', '\u{2013}', ' ']),
        !has_part(artist + seq!['-'] + title, seq![' ', '\u{2014}', ' ']),
        !artist.contains('-'),
    ensures
        split_artist_title(artist + seq!['-'] + title) == Some((artist, title)),
        artist_and_title(artist + seq!['-'] + title) == (if cleaned(artist).len() > 0 && cleaned(
            title,
        ).len() > 0 {
            Some((cleaned(artist), cleaned(title)))
        } else {
            None
        }),
{
    let s = artist + seq!['-'] + title;
    let n = artist.len() as int;
    assert(s.subrange(n, n + 1) =~= seq!['-']);
    assert(occurs_at(s, seq!['-'], n));
    assert forall|j: int| 0 <= j < n implies !occurs_at(s, seq!['-'], j) by {
        if occurs_at(s, seq!['-'], j) {
            assert(s.subrange(j, j + 1)[0] == artist[j]);
            assert(artist.contains(artist[j]));
        }
    }
    lemma_split_once(artist, seq!['-'], title);
}

/// A text without a hyphen and without a spaced dash of another sort names no artist and title.
pub proof fn law_no_names_without_a_dash(s: Seq<char>)
    requires
        !s.contains('-'),
        !has_part(s, seq![' ', '\u{2013}', ' ']),
        !has_part(s, seq![' ', '\u{2014}', ' ']),
    ensures
        split_artist_title(s) is None,
        artist_and_title(s) is None,
{
    if has_part(s, seq![' ', '-', ' ']) {
        let i = choose|i: int| occurs_at(s, seq![' ', '-', ' '], i);
        assert(s.subrange(i, i + 3)[1] == s[i + 1]);
        assert(s.contains(s[i + 1]));
    }
    if has_part(s, seq!['-']) {
        let i = choose|i: int| occurs_at(s, seq!['-'], i);
        assert(s.subrange(i, i + 1)[0] == s[i]);
        assert(s.contains(s[i]));
    }
}

/// The characters of an optional pair are those of its first text and then those of its second.
pub proof fn law_pairs_keep_their_order(pair: (String, String))
    ensures
        pair_view(Some(pair)) == Some((pair.0@, pair.1@)),
        pair_view(None) is None,
{
}

/// Where every section of a text is closed, what follows counts as if it stood alone, and the
/// text itself as if nothing followed.
pub proof fn law_closed_parts_count_alone(a: Seq<char>, b: Seq<char>)
    requires
        depth(a, '(', ')') == 0,
        depth(a, '[', ']') == 0,
    ensures
        outside_brackets(a + b) == outside_brackets(a) + outside_brackets(b),
{
    lemma_closed_part(a, b);
}

} // verus!
