//! What lyrics come to when they are written, in terms of their lines, words and times.

use vstd::prelude::*;

use crate::lyrics::{json_lyrics, law_lines_give_lyrics, law_richsync_lines_give_lyrics};
use crate::lyrics::{line_text, lines_text, plain_line, richsync_line_text, richsync_lyrics};
use crate::lyrics::{richsync_text, subtitle_lyrics};
use crate::lyrics::{timed_line, unless_blank, word_stamp, word_text, words_text, Line};
use crate::lyrics::{RichsyncLine, RichsyncReply, Word};
use crate::text::{lemma_trim_keeps, trim, white_space, CharClass};
use crate::text_laws::{all_in, bare_ends, law_trim_cuts_the_edges};
use crate::timestamps::{law_lines_shift_alone, law_shift_by_zero, law_stamps_differ, shifted};
use crate::timestamps::{stamp, timestamp, writable};

verus! {

/// The time of a word is written as that of a line is, in angle brackets in place of square ones.
/// Two words with the same written time start at the same time.
pub proof fn law_word_times_read_like_line_times(t: nat, u: nat)
    requires
        t <= u64::MAX,
        u <= u64::MAX,
    ensures
        ({
            let n = stamp(t).len() as int;
            &&& word_stamp(t).len() == n
            &&& word_stamp(t)[0] == '<'
            &&& word_stamp(t)[n - 1] == '>'
            &&& word_stamp(t).subrange(1, n - 1) == stamp(t).subrange(1, n - 1)
            &&& stamp(t)[0] == '['
            &&& stamp(t)[n - 1] == ']'
        }),
        word_stamp(t) == word_stamp(u) ==> t == u,
{
    let n = stamp(t).len() as int;
    assert(word_stamp(t).subrange(1, n - 1) =~= stamp(t).subrange(1, n - 1));
    assert(stamp(t).subrange(1, n - 1) =~= timestamp(t));
    let m = stamp(u).len() as int;
    assert(word_stamp(u).subrange(1, m - 1) =~= timestamp(u));
    if word_stamp(t) == word_stamp(u) {
        assert(m == n);
        assert(timestamp(t) =~= timestamp(u));
        law_stamps_differ(t, u);
    }
}

/// A word that is more than white space stands behind its own time, and all of it does; white
/// space stands alone.
pub proof fn law_word_stands_behind_its_time(word: Word)
    ensures
        (exists|i: int| 0 <= i < word.c@.len() && !white_space(#[trigger] word.c@[i])) ==> word_text(
            word,
        ) == seq!['<'] + timestamp(writable(word.start as int)) + seq!['>'] + word.c@,
        (forall|i: int| 0 <= i < word.c@.len() ==> white_space(#[trigger] word.c@[i]))
            ==> word_text(word) == word.c@,
{
    if exists|i: int| 0 <= i < word.c@.len() && !white_space(#[trigger] word.c@[i]) {
        let i = choose|i: int| 0 <= i < word.c@.len() && !white_space(#[trigger] word.c@[i]);
        lemma_trim_keeps(word.c@, CharClass::Space, i);
        let t = trim(word.c@, CharClass::Space);
        let j = choose|j: int| 0 <= j < t.len() && t[j] == word.c@[i];
        assert(t.len() > 0);
        assert(word_text(word) =~= seq!['<'] + timestamp(writable(word.start as int)) + seq!['>']
            + word.c@);
    } else {
        let empty = Seq::<char>::empty();
        assert(word.c@ =~= word.c@ + empty + empty);
        law_trim_cuts_the_edges(word.c@, empty, empty, CharClass::Space);
    }
}

/// Words are written one behind the other: none is lost, and their order stays.
pub proof fn law_words_in_a_row(a: Seq<Word>, b: Seq<Word>, word: Word)
    ensures
        words_text(Seq::empty()) == Seq::<char>::empty(),
        words_text(seq![word]) == word_text(word),
        words_text(a + b) == words_text(a) + words_text(b),
    decreases b.len(),
{
    let one = seq![word];
    assert(one.drop_last() =~= Seq::<Word>::empty());
    assert(words_text(one.drop_last()) =~= Seq::<char>::empty());
    assert(one.last() == word);
    assert(words_text(one) =~= word_text(word));
    let whole = words_text(a + b);
    let parts = words_text(a) + words_text(b);
    if b.len() == 0 {
        assert(a + b =~= a);
        assert(words_text(b) =~= Seq::<char>::empty());
    } else {
        assert((a + b).drop_last() =~= a + b.drop_last());
        assert((a + b).last() == b.last());
        law_words_in_a_row(a, b.drop_last(), word);
    }
    assert(whole =~= parts);
}

/// A line with timed words is the time of its start in square brackets, its words, the time of
/// its end in angle brackets, and a line break. A plain line is the time of its start in square
/// brackets, its text, and a line break.
pub proof fn law_parts_of_a_line(start: i128, words: Seq<Word>, end: i128, text: Seq<char>)
    ensures
        timed_line(start, words, end) == seq!['['] + timestamp(writable(start as int)) + seq![']']
            + words_text(words) + seq!['<'] + timestamp(writable(end as int)) + seq!['>', '\n'],
        plain_line(start, text) == seq!['['] + timestamp(writable(start as int)) + seq![']'] + text
            + seq!['\n'],
{
    assert(timed_line(start, words, end) =~= seq!['['] + timestamp(writable(start as int)) + seq![
        ']',
    ] + words_text(words) + seq!['<'] + timestamp(writable(end as int)) + seq!['>', '\n']);
    assert(plain_line(start, text) =~= seq!['['] + timestamp(writable(start as int)) + seq![']']
        + text + seq!['\n']);
}

/// In a line with timed words, a word that starts with its line carries the very time that the
/// line does.
pub proof fn law_first_word_has_the_time_of_its_line(words: Seq<Word>, end: i128, i: int)
    requires
        words.len() > 0,
        0 <= i < words[0].c@.len(),
        !white_space(words[0].c@[i]),
    ensures
        ({
            let time = timestamp(writable(words[0].start as int));
            let s = timed_line(words[0].start, words, end);
            let n = time.len() as int;
            &&& s.subrange(1, 1 + n) == time
            &&& s.subrange(3 + n, 3 + n + n) == time
            &&& s[0] == '[' && s[1 + n] == ']' && s[2 + n] == '<' && s[3 + n + n] == '>'
        }),
{
    let word = words[0];
    let time = timestamp(writable(word.start as int));
    let n = time.len() as int;
    let rest = words.skip(1);
    let s = timed_line(word.start, words, end);
    assert(words =~= seq![word] + rest);
    law_words_in_a_row(seq![word], rest, word);
    law_word_stands_behind_its_time(word);
    law_parts_of_a_line(word.start, words, end, Seq::empty());
    let close = seq!['<'] + timestamp(writable(end as int)) + seq!['>', '\n'];
    assert(s =~= seq!['['] + time + seq![']'] + (seq!['<'] + time + seq!['>'] + word.c@
        + words_text(rest)) + close);
    assert(s.subrange(1, 1 + n) =~= time);
    assert(s.subrange(3 + n, 3 + n + n) =~= time);
}

/// The text of one line of a richsync file.
proof fn lemma_one_line(line: Line, force_lrc: bool)
    ensures
        lines_text(seq![line], force_lrc) == line_text(line, force_lrc),
{
    let one = seq![line];
    assert(one.drop_last() =~= Seq::<Line>::empty());
    assert(lines_text(one.drop_last(), force_lrc) =~= Seq::<char>::empty());
    assert(one.last() == line);
    assert(lines_text(one, force_lrc) =~= line_text(line, force_lrc));
}

/// The lines of a richsync file are written one behind the other: none is lost, and their order
/// stays. Each has its words, where the file gives them and eLRC is written, and else its text.
pub proof fn law_lines_in_a_row(a: Seq<Line>, b: Seq<Line>, line: Line, force_lrc: bool)
    ensures
        lines_text(Seq::empty(), force_lrc) == Seq::<char>::empty(),
        lines_text(a + b, force_lrc) == lines_text(a, force_lrc) + lines_text(b, force_lrc),
        lines_text(seq![line], true) == plain_line(line.start, line.x@),
        line.l is None ==> lines_text(seq![line], false) == plain_line(line.start, line.x@),
        line.l matches Some(words) ==> lines_text(seq![line], false) == timed_line(
            line.start,
            words@,
            line.end,
        ),
    decreases b.len(),
{
    lemma_one_line(line, true);
    lemma_one_line(line, false);
    let whole = lines_text(a + b, force_lrc);
    let parts = lines_text(a, force_lrc) + lines_text(b, force_lrc);
    if b.len() == 0 {
        assert(a + b =~= a);
        assert(lines_text(b, force_lrc) =~= Seq::<char>::empty());
    } else {
        assert((a + b).drop_last() =~= a + b.drop_last());
        assert((a + b).last() == b.last());
        law_lines_in_a_row(a, b.drop_last(), line, force_lrc);
    }
    assert(whole =~= parts);
}

/// The text of one line from the lyrics service.
proof fn lemma_one_richsync_line(line: RichsyncLine, force_lrc: bool)
    ensures
        richsync_text(seq![line], force_lrc) == richsync_line_text(line, force_lrc),
{
    let one = seq![line];
    assert(one.drop_last() =~= Seq::<RichsyncLine>::empty());
    assert(richsync_text(one.drop_last(), force_lrc) =~= Seq::<char>::empty());
    assert(one.last() == line);
    assert(richsync_text(one, force_lrc) =~= richsync_line_text(line, force_lrc));
}

/// The same holds of lines from the lyrics service, which has no words where the list of them is
/// empty.
pub proof fn law_richsync_lines_in_a_row(
    a: Seq<RichsyncLine>,
    b: Seq<RichsyncLine>,
    line: RichsyncLine,
    force_lrc: bool,
)
    ensures
        richsync_text(Seq::empty(), force_lrc) == Seq::<char>::empty(),
        richsync_text(a + b, force_lrc) == richsync_text(a, force_lrc) + richsync_text(
            b,
            force_lrc,
        ),
        richsync_text(seq![line], true) == plain_line(line.start, line.x@),
        richsync_text(seq![line], false) == (if line.l@.len() == 0 {
            plain_line(line.start, line.x@)
        } else {
            timed_line(line.start, line.l@, line.end)
        }),
    decreases b.len(),
{
    lemma_one_richsync_line(line, true);
    lemma_one_richsync_line(line, false);
    let whole = richsync_text(a + b, force_lrc);
    let parts = richsync_text(a, force_lrc) + richsync_text(b, force_lrc);
    if b.len() == 0 {
        assert(a + b =~= a);
        assert(richsync_text(b, force_lrc) =~= Seq::<char>::empty());
    } else {
        assert((a + b).drop_last() =~= a + b.drop_last());
        assert((a + b).last() == b.last());
        law_richsync_lines_in_a_row(a, b.drop_last(), line, force_lrc);
    }
    assert(whole =~= parts);
}

/// A richsync file that can be read gives the whole text of its lines, if it has any; one that
/// cannot be read gives nothing.
pub proof fn law_file_gives_all_its_lines(lines: Vec<Line>, force_lrc: bool)
    ensures
        json_lyrics(None, force_lrc) is None,
        lines@.len() == 0 ==> json_lyrics(Some(lines), force_lrc) is None,
        lines@.len() > 0 ==> json_lyrics(Some(lines), force_lrc) == Some(
            lines_text(lines@, force_lrc),
        ),
{
    law_lines_give_lyrics(lines@, force_lrc);
}

/// Of the answers of the lyrics service, lines give the whole of their text, if there are any; no
/// other answer gives lyrics.
pub proof fn law_reply_gives_all_its_lines(
    reply: RichsyncReply,
    lines: Vec<RichsyncLine>,
    force_lrc: bool,
)
    ensures
        reply !is Lines ==> richsync_lyrics(reply, force_lrc) is None,
        lines@.len() == 0 ==> richsync_lyrics(RichsyncReply::Lines(lines), force_lrc) is None,
        lines@.len() > 0 ==> richsync_lyrics(RichsyncReply::Lines(lines), force_lrc) == Some(
            richsync_text(lines@, force_lrc),
        ),
{
    law_richsync_lines_give_lyrics(lines@, force_lrc);
}

/// A text is blank if and only if it holds nothing but white space; otherwise it stays whole.
pub proof fn law_only_white_space_is_blank(s: Seq<char>)
    ensures
        (forall|i: int| 0 <= i < s.len() ==> white_space(#[trigger] s[i])) ==> unless_blank(s)
            is None,
        (exists|i: int| 0 <= i < s.len() && !white_space(#[trigger] s[i])) ==> unless_blank(s)
            == Some(s),
{
    if exists|i: int| 0 <= i < s.len() && !white_space(#[trigger] s[i]) {
        let i = choose|i: int| 0 <= i < s.len() && !white_space(#[trigger] s[i]);
        lemma_trim_keeps(s, CharClass::Space, i);
        let t = trim(s, CharClass::Space);
        let j = choose|j: int| 0 <= j < t.len() && t[j] == s[i];
        assert(t.len() > 0);
    } else {
        let empty = Seq::<char>::empty();
        assert(s =~= s + empty + empty);
        law_trim_cuts_the_edges(s, empty, empty, CharClass::Space);
    }
}

/// A subtitle is handed out whole, however long it is: all of it but the white space at its ends,
/// with its stamps moved by the offset, and without an offset just as it is. It is no subtitle
/// if and only if it lacks one of the brackets.
pub proof fn law_subtitle_is_handed_out_whole(
    start: Seq<char>,
    body: Seq<char>,
    end: Seq<char>,
    offset: int,
)
    requires
        all_in(start, CharClass::Space),
        bare_ends(body, CharClass::Space),
        all_in(end, CharClass::Space),
    ensures
        subtitle_lyrics(None, offset) is None,
        subtitle_lyrics(Some(start + body + end), offset) == (if body.contains('[')
            && body.contains(']') {
            Some(shifted(body, offset))
        } else {
            None
        }),
        body.contains('[') && body.contains(']') ==> subtitle_lyrics(Some(start + body + end), 0)
            == Some(body),
{
    law_trim_cuts_the_edges(start, body, end, CharClass::Space);
    law_shift_by_zero(body);
}

/// Of a subtitle, each part of whole lines is handed out, one behind the other, and each as if it
/// stood alone.
pub proof fn law_subtitle_goes_line_by_line(a: Seq<char>, b: Seq<char>, offset: int)
    requires
        a.len() > 0,
        a[a.len() - 1] == '\n',
        bare_ends(a + b, CharClass::Space),
        (a + b).contains('['),
        (a + b).contains(']'),
    ensures
        subtitle_lyrics(Some(a + b), offset) == Some(shifted(a, offset) + shifted(b, offset)),
{
    let empty = Seq::<char>::empty();
    law_subtitle_is_handed_out_whole(empty, a + b, empty, offset);
    assert(empty + (a + b) + empty =~= a + b);
    law_lines_shift_alone(a, b, offset);
}

} // verus!
