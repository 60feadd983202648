//! Timed lyrics and their text forms: LRC with a stamp for each line, and eLRC with a time for
//! each word as well.

use vstd::prelude::*;
use vstd::string::StringExecFns;

use crate::log::{debug_line, push_debug_line};
use crate::text::{chars_of, lemma_trim_keeps, occurs_at, str_view, text_view, trim, trim_of};
use crate::text::CharClass;
use crate::timestamps::{law_lines_shift_alone, law_plain_text_stays, law_stamp_moves};
use crate::timestamps::{push_time, shift_stamps, shifted, stamp, timestamp, writable};

verus! {

/// The form of the lyrics to write.
#[derive(Clone, Copy, Debug, PartialEq, Eq, Structural)]
pub enum LyricsMode {
    /// A time for each word.
    Elrc,
    /// A time for each line.
    Lrc,
}

/// A word of a line, or the space between two words. Times are in hundredths of a second from
/// the start of the track.
pub struct Word {
    /// The text.
    pub c: String,
    /// When it starts.
    pub start: i128,
}

/// A line of a richsync file. Times are in hundredths of a second from the start of the track.
pub struct Line {
    /// When the line starts.
    pub start: i128,
    /// When the line ends.
    pub end: i128,
    /// The words, where the file gives them.
    pub l: Option<Vec<Word>>,
    /// The text of the line.
    pub x: String,
}

/// A line of richsync lyrics from the lyrics service. Times are in hundredths of a second from
/// the start of the track.
pub struct RichsyncLine {
    /// When the line starts.
    pub start: i128,
    /// When the line ends.
    pub end: i128,
    /// The words; none where the service does not give them.
    pub l: Vec<Word>,
    /// The text of the line.
    pub x: String,
}

/// What the lyrics service answers when it is asked for richsync lyrics.
pub enum RichsyncReply {
    /// It knows no such track.
    NoTrack,
    /// It has no richsync lyrics for the track.
    NoRichsync,
    /// What it has cannot be read.
    Unreadable,
    /// The lines of the lyrics.
    Lines(Vec<RichsyncLine>),
}

/// A word's time in its angle brackets.
pub open spec fn word_stamp(hundredths: nat) -> Seq<char> {
    seq!['<'] + timestamp(hundredths) + seq!['>']
}

/// How a word is written: white space as it is, anything else with its time in front.
pub open spec fn word_text(word: Word) -> Seq<char> {
    if trim(word.c@, CharClass::Space).len() == 0 {
        word.c@
    } else {
        word_stamp(writable(word.start as int)) + word.c@
    }
}

/// The words of a line in a row.
pub open spec fn words_text(words: Seq<Word>) -> Seq<char>
    decreases words.len(),
{
    if words.len() == 0 {
        Seq::empty()
    } else {
        words_text(words.drop_last()) + word_text(words.last())
    }
}

/// A line with a time for each word, and the time of its end behind them.
pub open spec fn timed_line(start: i128, words: Seq<Word>, end: i128) -> Seq<char> {
    stamp(writable(start as int)) + words_text(words) + word_stamp(writable(end as int))
        + seq!['\n']
}

/// A line with a time for the line alone.
pub open spec fn plain_line(start: i128, text: Seq<char>) -> Seq<char> {
    stamp(writable(start as int)) + text + seq!['\n']
}

/// How a line of a richsync file is written.
pub open spec fn line_text(line: Line, force_lrc: bool) -> Seq<char> {
    match line.l {
        Some(words) => if force_lrc {
            plain_line(line.start, line.x@)
        } else {
            timed_line(line.start, words@, line.end)
        },
        None => plain_line(line.start, line.x@),
    }
}

/// How a line from the lyrics service is written.
pub open spec fn richsync_line_text(line: RichsyncLine, force_lrc: bool) -> Seq<char> {
    if force_lrc || line.l@.len() == 0 {
        plain_line(line.start, line.x@)
    } else {
        timed_line(line.start, line.l@, line.end)
    }
}

/// The lines of a richsync file in a row.
pub open spec fn lines_text(lines: Seq<Line>, force_lrc: bool) -> Seq<char>
    decreases lines.len(),
{
    if lines.len() == 0 {
        Seq::empty()
    } else {
        lines_text(lines.drop_last(), force_lrc) + line_text(lines.last(), force_lrc)
    }
}

/// The lines from the lyrics service in a row.
pub open spec fn richsync_text(lines: Seq<RichsyncLine>, force_lrc: bool) -> Seq<char>
    decreases lines.len(),
{
    if lines.len() == 0 {
        Seq::empty()
    } else {
        richsync_text(lines.drop_last(), force_lrc) + richsync_line_text(lines.last(), force_lrc)
    }
}

/// `s`, unless it is empty or white space alone.
pub open spec fn unless_blank(s: Seq<char>) -> Option<Seq<char>> {
    if trim(s, CharClass::Space).len() == 0 {
        None
    } else {
        Some(s)
    }
}

/// The lyrics in the answer of the lyrics service.
pub open spec fn richsync_lyrics(reply: RichsyncReply, force_lrc: bool) -> Option<Seq<char>> {
    match reply {
        RichsyncReply::Lines(lines) => unless_blank(richsync_text(lines@, force_lrc)),
        _ => None,
    }
}

/// The lyrics in a richsync file with the lines `lines`, or nothing where it could not be read.
pub open spec fn json_lyrics(lines: Option<Vec<Line>>, force_lrc: bool) -> Option<Seq<char>> {
    match lines {
        Some(lines) => unless_blank(lines_text(lines@, force_lrc)),
        None => None,
    }
}

/// The lyrics in a subtitle, with its stamps moved by `offset`. A text without brackets is no
/// subtitle.
pub open spec fn subtitle_lyrics(body: Option<Seq<char>>, offset: int) -> Option<Seq<char>> {
    match body {
        Some(body) => {
            let trimmed = trim(body, CharClass::Space);
            if trimmed.contains('[') && trimmed.contains(']') {
                Some(shifted(trimmed, offset))
            } else {
                None
            }
        },
        None => None,
    }
}

/// The form of lyrics that is asked for: eLRC, unless LRC is.
pub fn selected_lyrics_mode(lrc: bool) -> (mode: LyricsMode)
    ensures
        mode == (if lrc {
            LyricsMode::Lrc
        } else {
            LyricsMode::Elrc
        }),
{
    if lrc {
        LyricsMode::Lrc
    } else {
        LyricsMode::Elrc
    }
}

/// Whether `s` is empty or white space alone.
fn is_blank(s: &str) -> (r: bool)
    ensures
        r == (trim(s@, CharClass::Space).len() == 0),
{
    let chars = chars_of(s);
    trim_of(chars.as_slice(), CharClass::Space).len() == 0
}

/// Appends a time in angle brackets.
fn push_word_stamp(out: &mut String, hundredths: i128)
    ensures
        final(out)@ == old(out)@ + word_stamp(writable(hundredths as int)),
{
    out.push('<');
    push_time(out, hundredths);
    out.push('>');
    assert(out@ =~= old(out)@ + word_stamp(writable(hundredths as int)));
}

/// Appends a time in square brackets.
fn push_stamp(out: &mut String, hundredths: i128)
    ensures
        final(out)@ == old(out)@ + stamp(writable(hundredths as int)),
{
    out.push('[');
    push_time(out, hundredths);
    out.push(']');
    assert(out@ =~= old(out)@ + stamp(writable(hundredths as int)));
}

/// Appends a line with a time for each word.
fn push_timed_line(out: &mut String, start: i128, words: &Vec<Word>, end: i128)
    ensures
        final(out)@ == old(out)@ + timed_line(start, words@, end),
{
    push_stamp(out, start);
    let ghost before = out@;
    let mut i: usize = 0;
    assert(words@.take(0) =~= Seq::<Word>::empty());
    while i < words.len()
        invariant
            i <= words@.len(),
            out@ =~= before + words_text(words@.take(i as int)),
        decreases words@.len() - i,
    {
        assert(words@.take(i as int + 1).drop_last() =~= words@.take(i as int));
        if !is_blank(words[i].c.as_str()) {
            push_word_stamp(out, words[i].start);
        }
        out.append(words[i].c.as_str());
        i += 1;
    }
    assert(words@.take(words@.len() as int) =~= words@);
    push_word_stamp(out, end);
    out.push('\n');
    assert(out@ =~= old(out)@ + timed_line(start, words@, end));
}

/// Appends a line with a time for the line alone.
fn push_plain_line(out: &mut String, start: i128, text: &str)
    ensures
        final(out)@ == old(out)@ + plain_line(start, text@),
{
    push_stamp(out, start);
    out.append(text);
    out.push('\n');
    assert(out@ =~= old(out)@ + plain_line(start, text@));
}

/// The text of the lines of a richsync file.
pub fn render_lines(lines: &Vec<Line>, force_lrc: bool) -> (r: Option<String>)
    ensures
        text_view(r) == unless_blank(lines_text(lines@, force_lrc)),
{
    let mut output = String::new();
    let mut i: usize = 0;
    assert(lines@.take(0) =~= Seq::<Line>::empty());
    while i < lines.len()
        invariant
            i <= lines@.len(),
            output@ == lines_text(lines@.take(i as int), force_lrc),
        decreases lines@.len() - i,
    {
        assert(lines@.take(i as int + 1).drop_last() =~= lines@.take(i as int));
        let line = &lines[i];
        match &line.l {
            Some(words) => {
                if force_lrc {
                    push_plain_line(&mut output, line.start, line.x.as_str());
                } else {
                    push_timed_line(&mut output, line.start, words, line.end);
                }
            },
            None => {
                push_plain_line(&mut output, line.start, line.x.as_str());
            },
        }
        i += 1;
    }
    assert(lines@.take(lines@.len() as int) =~= lines@);
    if is_blank(output.as_str()) {
        None
    } else {
        Some(output)
    }
}

/// The text of the lines from the lyrics service.
pub fn render_richsync_lines(lines: &Vec<RichsyncLine>, force_lrc: bool) -> (r: Option<String>)
    ensures
        text_view(r) == unless_blank(richsync_text(lines@, force_lrc)),
{
    let mut output = String::new();
    let mut i: usize = 0;
    assert(lines@.take(0) =~= Seq::<RichsyncLine>::empty());
    while i < lines.len()
        invariant
            i <= lines@.len(),
            output@ == richsync_text(lines@.take(i as int), force_lrc),
        decreases lines@.len() - i,
    {
        assert(lines@.take(i as int + 1).drop_last() =~= lines@.take(i as int));
        let line = &lines[i];
        if force_lrc || line.l.len() == 0 {
            push_plain_line(&mut output, line.start, line.x.as_str());
        } else {
            push_timed_line(&mut output, line.start, &line.l, line.end);
        }
        i += 1;
    }
    assert(lines@.take(lines@.len() as int) =~= lines@);
    if is_blank(output.as_str()) {
        None
    } else {
        Some(output)
    }
}

/// What `process_json_to_elrc` writes to the log.
pub open spec fn json_report(lines: Option<Vec<Line>>, debug: bool) -> Seq<char> {
    match lines {
        Some(lines) => Seq::empty(),
        None => debug_line(debug, "[DEBUG] Serde parsing failed."@),
    }
}

/// The text of a richsync file, of which `lines` are the lines, or nothing where it could not be
/// read.
pub fn process_json_to_elrc(
    lines: Option<Vec<Line>>,
    force_lrc: bool,
    debug: bool,
    log: &mut String,
) -> (r: Option<String>)
    ensures
        text_view(r) == json_lyrics(lines, force_lrc),
        final(log)@ == old(log)@ + json_report(lines, debug),
{
    match lines {
        Some(lines) => {
            assert(log@ =~= old(log)@ + Seq::<char>::empty());
            render_lines(&lines, force_lrc)
        },
        None => {
            push_debug_line(log, debug, "[DEBUG] Serde parsing failed.");
            None
        },
    }
}

/// What `fetch_richsync_converted` writes to the log.
pub open spec fn richsync_report(reply: RichsyncReply, debug: bool) -> Seq<char> {
    match reply {
        RichsyncReply::NoTrack => debug_line(debug, "[DEBUG] matcher_track failed"@),
        RichsyncReply::NoRichsync => debug_line(debug, "[DEBUG] track_richsync failed"@),
        RichsyncReply::Unreadable => debug_line(debug, "[DEBUG] richsync line parse failed"@),
        RichsyncReply::Lines(lines) => Seq::empty(),
    }
}

/// The lyrics in the service's answer to a request for richsync lyrics.
pub fn fetch_richsync_converted(
    reply: &RichsyncReply,
    force_lrc: bool,
    debug: bool,
    log: &mut String,
) -> (r: Option<String>)
    ensures
        text_view(r) == richsync_lyrics(*reply, force_lrc),
        final(log)@ == old(log)@ + richsync_report(*reply, debug),
{
    match reply {
        RichsyncReply::NoTrack => {
            push_debug_line(log, debug, "[DEBUG] matcher_track failed");
            None
        },
        RichsyncReply::NoRichsync => {
            push_debug_line(log, debug, "[DEBUG] track_richsync failed");
            None
        },
        RichsyncReply::Unreadable => {
            push_debug_line(log, debug, "[DEBUG] richsync line parse failed");
            None
        },
        RichsyncReply::Lines(lines) => {
            assert(log@ =~= old(log)@ + Seq::<char>::empty());
            render_richsync_lines(lines, force_lrc)
        },
    }
}

/// Whether `c` stands in `s`.
fn holds_char(s: &[char], c: char) -> (r: bool)
    ensures
        r == s@.contains(c),
{
    let mut i: usize = 0;
    while i < s.len()
        invariant
            i <= s@.len(),
            forall|j: int| 0 <= j < i ==> s@[j] != c,
        decreases s@.len() - i,
    {
        if s[i] == c {
            return true;
        }
        i += 1;
    }
    false
}

/// What `fetch_standard_lrc` writes to the log.
pub open spec fn standard_lrc_report(body: Option<Seq<char>>, debug: bool) -> Seq<char> {
    match body {
        Some(body) => Seq::empty(),
        None => debug_line(debug, "[DEBUG] matcher_subtitle failed"@),
    }
}

/// The lyrics in the service's answer to a request for a subtitle: its body, or nothing where
/// the service has none. `offset` is in hundredths of a second.
pub fn fetch_standard_lrc(body: Option<&str>, offset: i64, debug: bool, log: &mut String) -> (r:
    Option<String>)
    ensures
        text_view(r) == subtitle_lyrics(str_view(body), offset as int),
        final(log)@ == old(log)@ + standard_lrc_report(str_view(body), debug),
{
    match body {
        Some(body) => {
            assert(log@ =~= old(log)@ + Seq::<char>::empty());
            let chars = chars_of(body);
            let trimmed = trim_of(chars.as_slice(), CharClass::Space);
            if holds_char(trimmed, '[') && holds_char(trimmed, ']') {
                Some(shift_stamps(trimmed, offset))
            } else {
                None
            }
        },
        None => {
            push_debug_line(log, debug, "[DEBUG] matcher_subtitle failed");
            None
        },
    }
}

/// LRC depends on nothing but the start and the text of each line: whatever words the lines
/// have, and whenever the lines end, the result is the same.
pub proof fn law_lrc_ignores_words(a: Seq<Line>, b: Seq<Line>)
    requires
        a.len() == b.len(),
        forall|i: int|
            0 <= i < a.len() ==> (#[trigger] a[i]).start == b[i].start && a[i].x@ == b[i].x@,
    ensures
        lines_text(a, true) == lines_text(b, true),
    decreases a.len(),
{
    if a.len() > 0 {
        assert forall|i: int| 0 <= i < a.drop_last().len() implies (#[trigger] a.drop_last()[i]).start
            == b.drop_last()[i].start && a.drop_last()[i].x@ == b.drop_last()[i].x@ by {
            assert(a[i].start == b[i].start);
        }
        law_lrc_ignores_words(a.drop_last(), b.drop_last());
        assert(a[a.len() - 1].start == b[a.len() - 1].start);
    }
}

/// The same holds of lyrics from the service.
pub proof fn law_richsync_lrc_ignores_words(a: Seq<RichsyncLine>, b: Seq<RichsyncLine>)
    requires
        a.len() == b.len(),
        forall|i: int|
            0 <= i < a.len() ==> (#[trigger] a[i]).start == b[i].start && a[i].x@ == b[i].x@,
    ensures
        richsync_text(a, true) == richsync_text(b, true),
    decreases a.len(),
{
    if a.len() > 0 {
        assert forall|i: int| 0 <= i < a.drop_last().len() implies (#[trigger] a.drop_last()[i]).start
            == b.drop_last()[i].start && a.drop_last()[i].x@ == b.drop_last()[i].x@ by {
            assert(a[i].start == b[i].start);
        }
        law_richsync_lrc_ignores_words(a.drop_last(), b.drop_last());
        assert(a[a.len() - 1].start == b[a.len() - 1].start);
    }
}

/// A text that holds a bracket is not blank.
proof fn lemma_not_blank(s: Seq<char>, i: int)
    requires
        0 <= i < s.len(),
        s[i] == '[',
    ensures
        unless_blank(s) == Some(s),
{
    lemma_trim_keeps(s, CharClass::Space, i);
    let t = trim(s, CharClass::Space);
    let j = choose|j: int| 0 <= j < t.len() && t[j] == s[i];
    assert(t.len() > 0);
}

/// A richsync file gives lyrics if and only if it has lines.
pub proof fn law_lines_give_lyrics(lines: Seq<Line>, force_lrc: bool)
    ensures
        unless_blank(lines_text(lines, force_lrc)) == (if lines.len() > 0 {
            Some(lines_text(lines, force_lrc))
        } else {
            None
        }),
{
    if lines.len() > 0 {
        lemma_not_blank(
            lines_text(lines, force_lrc),
            lines_text(lines.drop_last(), force_lrc).len() as int,
        );
    }
}

/// The lyrics service gives richsync lyrics if and only if it gives lines.
pub proof fn law_richsync_lines_give_lyrics(lines: Seq<RichsyncLine>, force_lrc: bool)
    ensures
        unless_blank(richsync_text(lines, force_lrc)) == (if lines.len() > 0 {
            Some(richsync_text(lines, force_lrc))
        } else {
            None
        }),
{
    if lines.len() > 0 {
        lemma_not_blank(
            richsync_text(lines, force_lrc),
            richsync_text(lines.drop_last(), force_lrc).len() as int,
        );
    }
}

/// Whether two lists of words agree in texts and times.
pub open spec fn same_words(a: Seq<Word>, b: Seq<Word>) -> bool {
    &&& a.len() == b.len()
    &&& forall|i: int|
        0 <= i < a.len() ==> (#[trigger] a[i]).c@ == b[i].c@ && a[i].start == b[i].start
}

/// Words that agree in texts and times are written alike.
proof fn lemma_same_words(a: Seq<Word>, b: Seq<Word>)
    requires
        same_words(a, b),
    ensures
        words_text(a) == words_text(b),
    decreases a.len(),
{
    if a.len() > 0 {
        let x = a.drop_last();
        let y = b.drop_last();
        assert forall|i: int| 0 <= i < x.len() implies (#[trigger] x[i]).c@ == y[i].c@ && x[i].start
            == y[i].start by {
            assert(a[i].c@ == b[i].c@);
        }
        lemma_same_words(x, y);
        assert(a[a.len() - 1].c@ == b[a.len() - 1].c@);
    }
}

/// Whether a line of a richsync file and one from the service agree in times, words and text. For
/// eLRC that leaves out an empty list of words in a file.
pub open spec fn same_line(file: Line, service: RichsyncLine, force_lrc: bool) -> bool {
    &&& file.start == service.start
    &&& file.end == service.end
    &&& file.x@ == service.x@
    &&& match file.l {
        Some(words) => (force_lrc || words@.len() > 0) && same_words(words@, service.l@),
        None => service.l@.len() == 0,
    }
}

/// Lyrics from a file and from the service are written alike: lines that agree in times, words
/// and text have the same text.
pub proof fn law_sources_agree(file: Seq<Line>, service: Seq<RichsyncLine>, force_lrc: bool)
    requires
        file.len() == service.len(),
        forall|i: int|
            0 <= i < file.len() ==> same_line(#[trigger] file[i], service[i], force_lrc),
    ensures
        lines_text(file, force_lrc) == richsync_text(service, force_lrc),
    decreases file.len(),
{
    if file.len() > 0 {
        let n = file.len() - 1;
        assert forall|i: int| 0 <= i < file.drop_last().len() implies same_line(
            #[trigger] file.drop_last()[i],
            service.drop_last()[i],
            force_lrc,
        ) by {
            assert(same_line(file[i], service[i], force_lrc));
        }
        law_sources_agree(file.drop_last(), service.drop_last(), force_lrc);
        assert(same_line(file[n], service[n], force_lrc));
        if let Some(words) = file[n].l {
            lemma_same_words(words@, service[n].l@);
        }
    }
}

/// Whether no stamp stands in `text`.
pub open spec fn no_stamps(text: Seq<char>) -> bool {
    forall|i: int, t: nat| t <= u64::MAX ==> !#[trigger] occurs_at(text, stamp(t), i)
}

/// A shift moves a plain line to the time that it is shifted to.
proof fn lemma_plain_line_moves(start: i128, moved: i128, text: Seq<char>, offset: int)
    requires
        0 <= start <= u64::MAX,
        moved == start + offset,
        no_stamps(text),
    ensures
        shifted(plain_line(start, text), offset) == plain_line(moved, text),
{
    let rest = text + seq!['\n'];
    assert(plain_line(start, text) =~= stamp(start as nat) + rest);
    law_stamp_moves(start as nat, rest, offset);
    assert forall|i: int, t: nat| t <= u64::MAX implies !#[trigger] occurs_at(
        rest,
        stamp(t),
        i,
    ) by {
        if occurs_at(rest, stamp(t), i) {
            let n = stamp(t).len();
            if i + n <= text.len() {
                assert(text.subrange(i, i + n) =~= rest.subrange(i, i + n));
                assert(occurs_at(text, stamp(t), i));
            } else {
                assert(rest.subrange(i, i + n).last() == rest.last());
                assert(stamp(t).last() == ']');
            }
        }
    }
    law_plain_text_stays(rest, offset);
    assert(plain_line(moved, text) =~= stamp(writable(start + offset)) + rest);
}

/// Text that is written in lines ends with a line break.
proof fn lemma_ends_with_break(lines: Seq<RichsyncLine>)
    ensures
        lines.len() > 0 ==> richsync_text(lines, true).len() > 0 && richsync_text(
            lines,
            true,
        ).last() == '\n',
        lines.len() == 0 ==> richsync_text(lines, true).len() == 0,
{
}

/// To write lines as LRC and then shift the text is to move the lines and then write them, where
/// all times can be written and no stamp stands in the text of a line.
pub proof fn law_shift_and_render_commute(
    lines: Seq<RichsyncLine>,
    moved: Seq<RichsyncLine>,
    offset: int,
)
    requires
        lines.len() == moved.len(),
        forall|i: int|
            0 <= i < lines.len() ==> {
                &&& 0 <= (#[trigger] lines[i]).start <= u64::MAX
                &&& moved[i].start == lines[i].start + offset
                &&& moved[i].x@ == lines[i].x@
                &&& no_stamps(lines[i].x@)
            },
    ensures
        shifted(richsync_text(lines, true), offset) == richsync_text(moved, true),
    decreases lines.len(),
{
    if lines.len() > 0 {
        let front = lines.drop_last();
        assert forall|i: int| 0 <= i < front.len() implies {
            &&& 0 <= (#[trigger] front[i]).start <= u64::MAX
            &&& moved.drop_last()[i].start == front[i].start + offset
            &&& moved.drop_last()[i].x@ == front[i].x@
            &&& no_stamps(front[i].x@)
        } by {
            assert(lines[i].start <= u64::MAX);
        }
        law_shift_and_render_commute(front, moved.drop_last(), offset);
        let n = lines.len() - 1;
        assert(lines[n].start <= u64::MAX);
        lemma_plain_line_moves(lines[n].start, moved[n].start, lines[n].x@, offset);
        lemma_ends_with_break(front);
        law_lines_shift_alone(
            richsync_text(front, true),
            richsync_line_text(lines[n], true),
            offset,
        );
    }
}

} // verus!
