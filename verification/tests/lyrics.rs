use lyrsync::lyrics::{
    fetch_richsync_converted, fetch_standard_lrc, process_json_to_elrc, render_lines,
    render_richsync_lines, selected_lyrics_mode, Line, LyricsMode, RichsyncLine, RichsyncReply,
    Word,
};

fn word(c: &str, start: i128) -> Word {
    Word { c: c.to_string(), start }
}

fn words() -> Vec<Word> {
    vec![word("Hello", 1000), word(" ", 1050), word("world", 1100)]
}

fn line(start: i128, end: i128, l: Option<Vec<Word>>, x: &str) -> Line {
    Line { start, end, l, x: x.to_string() }
}

fn richsync_line(start: i128, end: i128, l: Vec<Word>, x: &str) -> RichsyncLine {
    RichsyncLine { start, end, l, x: x.to_string() }
}

#[test]
fn elrc_is_the_default() {
    assert_eq!(selected_lyrics_mode(false), LyricsMode::Elrc);
    assert_eq!(selected_lyrics_mode(true), LyricsMode::Lrc);
}

#[test]
fn lines_with_words() {
    let lines = vec![line(1000, 1200, Some(words()), "Hello world")];
    assert_eq!(
        render_lines(&lines, false),
        Some("[00:10.00]<00:10.00>Hello <00:11.00>world<00:12.00>\n".to_string())
    );
    assert_eq!(render_lines(&lines, true), Some("[00:10.00]Hello world\n".to_string()));
}

#[test]
fn lines_without_words() {
    let lines = vec![line(1000, 0, None, "a"), line(-50, 0, None, "")];
    assert_eq!(render_lines(&lines, false), Some("[00:10.00]a\n[00:00.00]\n".to_string()));
    assert_eq!(render_lines(&lines, true), Some("[00:10.00]a\n[00:00.00]\n".to_string()));
}

#[test]
fn empty_word_lists() {
    let lines = vec![line(1000, 1200, Some(vec![]), "a")];
    assert_eq!(render_lines(&lines, false), Some("[00:10.00]<00:12.00>\n".to_string()));
    let lines = vec![richsync_line(1000, 1200, vec![], "a")];
    assert_eq!(render_richsync_lines(&lines, false), Some("[00:10.00]a\n".to_string()));
}

#[test]
fn no_lines_no_lyrics() {
    assert_eq!(render_lines(&vec![], false), None);
    assert_eq!(render_richsync_lines(&vec![], true), None);
}

#[test]
fn lines_from_the_service() {
    let lines = vec![richsync_line(1000, 1200, words(), "Hello world")];
    assert_eq!(
        render_richsync_lines(&lines, false),
        Some("[00:10.00]<00:10.00>Hello <00:11.00>world<00:12.00>\n".to_string())
    );
    assert_eq!(render_richsync_lines(&lines, true), Some("[00:10.00]Hello world\n".to_string()));
}

#[test]
fn both_sources_are_written_alike() {
    let file = vec![line(1000, 1200, Some(words()), "x"), line(1300, 1400, None, "y")];
    let service =
        vec![richsync_line(1000, 1200, words(), "x"), richsync_line(1300, 1400, vec![], "y")];
    for force_lrc in [false, true] {
        assert_eq!(render_lines(&file, force_lrc), render_richsync_lines(&service, force_lrc));
    }
}

#[test]
fn json_that_cannot_be_read() {
    let mut log = String::new();
    assert_eq!(process_json_to_elrc(None, false, false, &mut log), None);
    assert_eq!(log, "");
    assert_eq!(process_json_to_elrc(None, false, true, &mut log), None);
    assert_eq!(log, "[DEBUG] Serde parsing failed.\n");
}

#[test]
fn json_that_can_be_read() {
    let mut log = String::new();
    let lines = vec![line(1000, 1200, None, "a")];
    assert_eq!(
        process_json_to_elrc(Some(lines), false, true, &mut log),
        Some("[00:10.00]a\n".to_string())
    );
    assert_eq!(log, "");
}

#[test]
fn richsync_failures() {
    for (reply, text) in [
        (RichsyncReply::NoTrack, "[DEBUG] matcher_track failed\n"),
        (RichsyncReply::NoRichsync, "[DEBUG] track_richsync failed\n"),
        (RichsyncReply::Unreadable, "[DEBUG] richsync line parse failed\n"),
    ] {
        let mut log = String::new();
        assert_eq!(fetch_richsync_converted(&reply, false, true, &mut log), None);
        assert_eq!(log, text);
        let mut quiet = String::new();
        assert_eq!(fetch_richsync_converted(&reply, false, false, &mut quiet), None);
        assert_eq!(quiet, "");
    }
}

#[test]
fn richsync_lines_found() {
    let mut log = String::new();
    let reply = RichsyncReply::Lines(vec![richsync_line(1000, 1200, words(), "Hello world")]);
    assert_eq!(
        fetch_richsync_converted(&reply, true, true, &mut log),
        Some("[00:10.00]Hello world\n".to_string())
    );
    assert_eq!(log, "");
    let empty = RichsyncReply::Lines(vec![]);
    assert_eq!(fetch_richsync_converted(&empty, true, true, &mut log), None);
    assert_eq!(log, "");
}

#[test]
fn subtitles() {
    let mut log = String::new();
    assert_eq!(
        fetch_standard_lrc(Some("\n [00:10.00]a\n[00:11.00]b \n"), 0, true, &mut log),
        Some("[00:10.00]a\n[00:11.00]b".to_string())
    );
    assert_eq!(fetch_standard_lrc(Some("no stamps"), 0, true, &mut log), None);
    assert_eq!(fetch_standard_lrc(Some("only ["), 0, true, &mut log), None);
    assert_eq!(fetch_standard_lrc(Some("only ]"), 0, true, &mut log), None);
    assert_eq!(fetch_standard_lrc(Some(""), 0, true, &mut log), None);
    assert_eq!(log, "");
    assert_eq!(fetch_standard_lrc(None, 0, false, &mut log), None);
    assert_eq!(log, "");
    assert_eq!(fetch_standard_lrc(None, 0, true, &mut log), None);
    assert_eq!(log, "[DEBUG] matcher_subtitle failed\n");
}

#[test]
fn subtitles_are_shifted() {
    let mut log = String::new();
    let body = "[00:10.00]a\n[00:11.00]b";
    assert_eq!(
        fetch_standard_lrc(Some(body), -150, false, &mut log),
        Some("[00:08.50]a\n[00:09.50]b".to_string())
    );
    assert_eq!(
        fetch_standard_lrc(Some(body), 200, false, &mut log),
        Some("[00:12.00]a\n[00:13.00]b".to_string())
    );
}

#[test]
fn shifted_subtitle_is_the_text_of_shifted_lines() {
    let mut log = String::new();
    let at = |offset: i128| {
        let lines = vec![
            richsync_line(1000 + offset, 0, vec![], "a"),
            richsync_line(61_00 + offset, 0, vec![], "b"),
        ];
        render_richsync_lines(&lines, true).unwrap()
    };
    assert_eq!(
        fetch_standard_lrc(Some(&at(0)), 250, false, &mut log),
        Some(at(250).trim().to_string())
    );
}

#[test]
fn lrc_does_not_depend_on_words_and_ends() {
    let with = vec![line(1000, 1200, Some(words()), "x"), line(1300, 1400, None, "y")];
    let without = vec![line(1000, 0, None, "x"), line(1300, 9999, Some(vec![]), "y")];
    assert_eq!(render_lines(&with, true), render_lines(&without, true));
    let with = vec![richsync_line(1000, 1200, words(), "x")];
    let without = vec![richsync_line(1000, 0, vec![], "x")];
    assert_eq!(render_richsync_lines(&with, true), render_richsync_lines(&without, true));
}

#[test]
fn every_line_gives_lyrics() {
    let blank = vec![line(0, 0, None, "")];
    assert_eq!(render_lines(&blank, false), Some("[00:00.00]\n".to_string()));
    let blank = vec![richsync_line(0, 0, vec![], " ")];
    assert_eq!(render_richsync_lines(&blank, false), Some("[00:00.00] \n".to_string()));
}
