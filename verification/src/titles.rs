//! Artist and title out of file names and search queries.

use vstd::prelude::*;
use vstd::slice::slice_subrange;

use crate::log::{debug_line, push_debug_line3};
use crate::text::{chars_of, find_part, first_at, has_part, is_white_space, occurs_at};
use crate::text::{string_of, trim, trim_of, trim_start, trim_start_of, white_space, CharClass};

verus! {

/// How many sections that start with `open` and end with `close` are open at the end of `s`. A
/// `close` with nothing to close counts for nothing.
pub open spec fn depth(s: Seq<char>, open: char, close: char) -> nat
    decreases s.len(),
{
    if s.len() == 0 {
        0
    } else {
        let before = depth(s.drop_last(), open, close);
        if s.last() == open {
            before + 1
        } else if s.last() == close && before > 0 {
            (before - 1) as nat
        } else {
            before
        }
    }
}

/// Whether `c` is one of the four bracket characters.
pub open spec fn is_bracket(c: char) -> bool {
    c == '(' || c == ')' || c == '[' || c == ']'
}

/// What stands outside of round and square brackets in `s`, without the brackets.
pub open spec fn outside_brackets(s: Seq<char>) -> Seq<char>
    decreases s.len(),
{
    if s.len() == 0 {
        s
    } else {
        let before = outside_brackets(s.drop_last());
        if !is_bracket(s.last()) && depth(s.drop_last(), '(', ')') == 0 && depth(
            s.drop_last(),
            '[',
            ']',
        ) == 0 {
            before.push(s.last())
        } else {
            before
        }
    }
}

/// `s` with a space in place of each underscore.
pub open spec fn underscores_to_spaces(s: Seq<char>) -> Seq<char> {
    s.map_values(
        |c: char|
            if c == '_' {
                ' '
            } else {
                c
            },
    )
}

/// How many characters at the start of `s` are not white space.
pub open spec fn word_len(s: Seq<char>) -> nat
    decreases s.len(),
{
    if s.len() == 0 || white_space(s[0]) {
        0
    } else {
        1 + word_len(s.skip(1))
    }
}

/// The words of `s`: its longest runs of characters that are not white space, in order.
pub open spec fn words(s: Seq<char>) -> Seq<Seq<char>>
    decreases s.len(),
{
    if s.len() == 0 {
        Seq::empty()
    } else if white_space(s[0]) {
        words(s.skip(1))
    } else {
        proof {
            lemma_word_len(s);
        }
        seq![s.take(word_len(s) as int)] + words(s.skip(word_len(s) as int))
    }
}

/// A word that starts at the start of `s` ends within it.
pub proof fn lemma_word_len(s: Seq<char>)
    ensures
        word_len(s) <= s.len(),
        s.len() > 0 && !white_space(s[0]) ==> word_len(s) > 0,
    decreases s.len(),
{
    if s.len() > 0 && !white_space(s[0]) {
        lemma_word_len(s.skip(1));
    }
}

/// The words in a row, with one space between each two.
pub open spec fn joined(words: Seq<Seq<char>>) -> Seq<char>
    decreases words.len(),
{
    if words.len() == 0 {
        Seq::empty()
    } else if words.len() == 1 {
        words[0]
    } else {
        joined(words.drop_last()) + seq![' '] + words.last()
    }
}

/// A name as a file name or a query spells it, without bracketed sections, underscores, runs of
/// white space, and white space or punctuation at its ends.
pub open spec fn cleaned(s: Seq<char>) -> Seq<char> {
    trim(joined(words(underscores_to_spaces(outside_brackets(s)))), CharClass::Edge)
}

/// The parts of `s` in front of and behind the first place at which `separator` stands in it.
pub open spec fn split_once(s: Seq<char>, separator: Seq<char>) -> Option<(Seq<char>, Seq<char>)> {
    if has_part(s, separator) {
        let i = choose|i: int| first_at(s, separator, i);
        Some((s.take(i), s.skip(i + separator.len())))
    } else {
        None
    }
}

/// The parts of `s` in front of and behind the separator between artist and title: the first
/// spaced hyphen, or without one the first spaced en dash, or else the first spaced em dash, or
/// else the first hyphen.
pub open spec fn split_artist_title(s: Seq<char>) -> Option<(Seq<char>, Seq<char>)> {
    if has_part(s, seq![' ', '-', ' ']) {
        split_once(s, seq![' ', '-', ' '])
    } else if has_part(s, seq![' ', '\u{2013}', ' ']) {
        split_once(s, seq![' ', '\u{2013}', ' '])
    } else if has_part(s, seq![' ', '\u{2014}', ' ']) {
        split_once(s, seq![' ', '\u{2014}', ' '])
    } else {
        split_once(s, seq!['-'])
    }
}

/// The artist and the title that `s` names: the cleaned parts around the separator, where
/// neither of them is empty.
pub open spec fn artist_and_title(s: Seq<char>) -> Option<(Seq<char>, Seq<char>)> {
    match split_artist_title(s) {
        Some(parts) => if cleaned(parts.0).len() > 0 && cleaned(parts.1).len() > 0 {
            Some((cleaned(parts.0), cleaned(parts.1)))
        } else {
            None
        },
        None => None,
    }
}

/// The characters of an optional pair of strings.
pub open spec fn pair_view(pair: Option<(String, String)>) -> Option<(Seq<char>, Seq<char>)> {
    match pair {
        Some(p) => Some((p.0@, p.1@)),
        None => None,
    }
}

/// What stands in `input` outside of round and square brackets.
pub fn strip_bracketed_sections(input: &str) -> (output: String)
    ensures
        output@ == outside_brackets(input@),
{
    let mut output = String::new();
    let mut paren_depth: usize = 0;
    let mut square_depth: usize = 0;
    let chars = chars_of(input);
    let mut i: usize = 0;
    assert(chars@.take(0) =~= Seq::<char>::empty());
    while i < chars.len()
        invariant
            i <= chars@.len(),
            chars@ == input@,
            paren_depth <= i,
            square_depth <= i,
            paren_depth == depth(chars@.take(i as int), '(', ')'),
            square_depth == depth(chars@.take(i as int), '[', ']'),
            output@ == outside_brackets(chars@.take(i as int)),
        decreases chars@.len() - i,
    {
        let ch = chars[i];
        assert(chars@.take(i as int + 1).drop_last() =~= chars@.take(i as int));
        if ch == '(' {
            paren_depth += 1;
        } else if ch == ')' {
            if paren_depth > 0 {
                paren_depth -= 1;
            }
        } else if ch == '[' {
            square_depth += 1;
        } else if ch == ']' {
            if square_depth > 0 {
                square_depth -= 1;
            }
        } else if paren_depth == 0 && square_depth == 0 {
            output.push(ch);
        }
        i += 1;
    }
    assert(chars@.take(chars@.len() as int) =~= chars@);
    output
}

/// The words of `s`, with one space between each two; an underscore counts as a space.
fn single_spaced(s: &[char]) -> (r: Vec<char>)
    ensures
        r@ == joined(words(underscores_to_spaces(s@))),
{
    let ghost t = underscores_to_spaces(s@);
    let ghost mut done: Seq<Seq<char>> = Seq::empty();
    let mut out: Vec<char> = Vec::new();
    let mut i: usize = 0;
    assert(t.skip(0) =~= t);
    assert(done + words(t) =~= words(t));
    while i < s.len()
        invariant
            i <= s@.len(),
            t == underscores_to_spaces(s@),
            words(t) == done + words(t.skip(i as int)),
            out@ == joined(done),
            done.len() > 0 <==> out@.len() > 0,
        decreases s@.len() - i,
    {
        let ghost rest = t.skip(i as int);
        if s[i] == '_' || is_white_space(s[i]) {
            assert(rest.skip(1) =~= t.skip(i as int + 1));
            i += 1;
        } else {
            if out.len() > 0 {
                out.push(' ');
            }
            let ghost start = out@;
            let mut j: usize = i;
            assert(t.skip(i as int) =~= t.skip(j as int));
            while j < s.len() && s[j] != '_' && !is_white_space(s[j])
                invariant
                    i <= j <= s@.len(),
                    t == underscores_to_spaces(s@),
                    rest == t.skip(i as int),
                    word_len(rest) == (j - i) + word_len(t.skip(j as int)),
                    out@ == start + t.subrange(i as int, j as int),
                decreases s@.len() - j,
            {
                assert(t.skip(j as int).skip(1) =~= t.skip(j as int + 1));
                out.push(s[j]);
                assert(t.subrange(i as int, j as int + 1) =~= t.subrange(i as int, j as int).push(
                    t[j as int],
                ));
                j += 1;
            }
            proof {
                let word = t.subrange(i as int, j as int);
                assert(word_len(rest) == j - i);
                assert(rest.take(j - i) =~= word);
                assert(rest.skip(j - i) =~= t.skip(j as int));
                assert(done.push(word) + words(t.skip(j as int)) =~= done + (seq![word] + words(
                    t.skip(j as int),
                )));
                assert(done.push(word).drop_last() =~= done);
                assert(joined(done.push(word)) =~= out@);
                done = done.push(word);
            }
            i = j;
        }
    }
    assert(t.skip(t.len() as int) =~= Seq::<char>::empty());
    assert(done + words(t.skip(t.len() as int)) =~= done);
    out
}

/// Cleans up an artist or a title as a file name or a query spells it.
pub fn clean_filename_component(input: &str) -> (r: String)
    ensures
        r@ == cleaned(input@),
{
    let stripped = chars_of(strip_bracketed_sections(input).as_str());
    let spaced = single_spaced(stripped.as_slice());
    string_of(trim_of(spaced.as_slice(), CharClass::Edge))
}

/// The parts of `s` in front of and behind the first place at which `separator` stands in it.
fn split_at_part<'a>(s: &'a [char], separator: &[char]) -> (r: Option<(&'a [char], &'a [char])>)
    ensures
        match r {
            Some(parts) => split_once(s@, separator@) == Some((parts.0@, parts.1@)),
            None => split_once(s@, separator@) is None,
        },
{
    match find_part(s, separator) {
        Some(i) => {
            assert(i + separator@.len() <= s.len());
            let end: usize = i + separator.len();
            let front = slice_subrange(s, 0, i);
            let back = slice_subrange(s, end, s.len());
            proof {
                let k = choose|k: int| first_at(s@, separator@, k);
                assert(occurs_at(s@, separator@, i as int));
                assert(k == i);
                assert(front@ =~= s@.take(i as int));
                assert(back@ =~= s@.skip(end as int));
            }
            Some((front, back))
        },
        None => None,
    }
}

/// The parts of `s` in front of and behind the separator between artist and title.
fn split_name<'a>(s: &'a [char]) -> (r: Option<(&'a [char], &'a [char])>)
    ensures
        match r {
            Some(parts) => split_artist_title(s@) == Some((parts.0@, parts.1@)),
            None => split_artist_title(s@) is None,
        },
{
    let hyphen: [char; 3] = [' ', '-', ' '];
    let en_dash: [char; 3] = [' ', '\u{2013}', ' '];
    let em_dash: [char; 3] = [' ', '\u{2014}', ' '];
    let bare_hyphen: [char; 1] = ['-'];
    assert(hyphen@ =~= seq![' ', '-', ' ']);
    assert(en_dash@ =~= seq![' ', '\u{2013}', ' ']);
    assert(em_dash@ =~= seq![' ', '\u{2014}', ' ']);
    assert(bare_hyphen@ =~= seq!['-']);
    let parts = split_at_part(s, hyphen.as_slice());
    if parts.is_some() {
        return parts;
    }
    let parts = split_at_part(s, en_dash.as_slice());
    if parts.is_some() {
        return parts;
    }
    let parts = split_at_part(s, em_dash.as_slice());
    if parts.is_some() {
        return parts;
    }
    split_at_part(s, bare_hyphen.as_slice())
}

/// The artist and the title that `s` names.
fn name_parts(s: &[char]) -> (r: Option<(String, String)>)
    ensures
        pair_view(r) == artist_and_title(s@),
{
    match split_name(s) {
        Some(parts) => {
            let artist = clean_filename_component(string_of(parts.0).as_str());
            let title = clean_filename_component(string_of(parts.1).as_str());
            if artist.as_str().is_empty() || title.as_str().is_empty() {
                None
            } else {
                Some((artist, title))
            }
        },
        None => None,
    }
}

/// The artist and the title of a query such as `Artist - Title`.
pub fn parse_artist_title_query(input: &str) -> (r: Option<(String, String)>)
    ensures
        pair_view(r) == artist_and_title(trim(input@, CharClass::Space)),
{
    let chars = chars_of(input);
    name_parts(trim_of(chars.as_slice(), CharClass::Space))
}

/// What `parse_filename_for_tags` writes to the log about the file name `stem`.
pub open spec fn filename_report(stem: Seq<char>, debug: bool) -> Seq<char> {
    let name = trim_start(stem, CharClass::TrackNumber);
    if split_artist_title(name) is Some && artist_and_title(name) is None {
        debug_line(
            debug,
            "[DEBUG] Filename '"@ + stem + "' produced empty tags after cleanup."@,
        )
    } else {
        Seq::empty()
    }
}

/// The artist and the title in a file name without its extension, such as
/// `01 - Artist - Title`. A track number in front is passed over.
pub fn parse_filename_for_tags(stem: &str, debug: bool, log: &mut String) -> (r: Option<
    (String, String),
>)
    ensures
        pair_view(r) == artist_and_title(trim_start(stem@, CharClass::TrackNumber)),
        final(log)@ == old(log)@ + filename_report(stem@, debug),
{
    let chars = chars_of(stem);
    let name = trim_start_of(chars.as_slice(), CharClass::TrackNumber);
    let r = name_parts(name);
    if r.is_none() && split_name(name).is_some() {
        push_debug_line3(
            log,
            debug,
            "[DEBUG] Filename '",
            stem,
            "' produced empty tags after cleanup.",
        );
    }
    assert(log@ =~= old(log)@ + filename_report(stem@, debug));
    r
}

} // verus!
