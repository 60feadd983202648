use lofty::file::{FileType, TaggedFile, TaggedFileExt};
use lofty::properties::FileProperties;
use lofty::tag::{ItemKey, Tag, TagType};
use lyrsync::jobs::{
    convert_and_embed, fetch_for_audio_file, fetch_for_query, fetch_lyrics_auto,
    remove_for_audio_file, write_lyrics_outputs, Job, Settings, Stage, Target,
};
use lyrsync::lyrics::{Line, LyricsMode, RichsyncLine, RichsyncReply, Word};
use lyrsync::walk::FoundFile;

const RULE: &str = "--------------------------------------------------\n";

fn settings(mode: LyricsMode, embed: bool, sidecar: bool) -> Settings {
    Settings { mode, embed, sidecar, offset: 0, debug: false }
}

fn richsync() -> RichsyncReply {
    let l = vec![Word { c: "la".to_string(), start: 100 }];
    RichsyncReply::Lines(vec![RichsyncLine { start: 100, end: 200, l, x: "la".to_string() }])
}

fn found(handle: usize, name: &str) -> FoundFile {
    FoundFile {
        handle,
        path: vec![name.as_bytes().to_vec()],
        name: name.to_string(),
        display: format!("./{}", name),
    }
}

fn audio(ty: FileType) -> TaggedFile {
    TaggedFile::new(ty, FileProperties::default(), vec![])
}

fn query(mode: LyricsMode, embed: bool, sidecar: bool) -> Job {
    fetch_for_query("Artist - Title", settings(mode, embed, sidecar)).unwrap()
}

#[test]
fn elrc_comes_first() {
    let mut job = query(LyricsMode::Elrc, false, true);
    assert_eq!((job.artist.as_str(), job.title.as_str()), ("Artist", "Title"));
    assert_eq!(job.stage, Stage::AskRichsync);
    job.richsync_answered(&richsync());
    assert_eq!(job.stage, Stage::WriteSidecar);
    assert_eq!(job.lyrics, "[00:01.00]<00:01.00>la<00:02.00>\n");
    assert_eq!(job.sidecar_name(), "Title.lrc");
    job.sidecar_written("./Title.lrc", None);
    assert_eq!(job.stage, Stage::Done);
    assert_eq!(
        job.log,
        "  -> Searching Musixmatch for: Artist - Title\n  -> Word-by-word eLRC generated.\n  \
         -> Saved sidecar file to ./Title.lrc\n"
    );
}

#[test]
fn a_subtitle_is_the_fallback() {
    let mut job = query(LyricsMode::Elrc, false, false);
    job.richsync_answered(&RichsyncReply::NoRichsync);
    assert_eq!(job.stage, Stage::AskSubtitle);
    job.subtitle_answered(Some("[00:01.00]la"));
    assert_eq!(job.stage, Stage::Done);
    assert_eq!(job.lyrics, "[00:01.00]la");
    assert_eq!(
        job.log,
        "  -> Searching Musixmatch for: Artist - Title\n  \
         -> Richsync unavailable. Falling back to standard LRC...\n  -> Standard LRC found.\n"
    );
}

#[test]
fn nothing_is_found_for_elrc() {
    let mut job = query(LyricsMode::Elrc, true, true);
    job.richsync_answered(&RichsyncReply::NoTrack);
    job.subtitle_answered(None);
    assert_eq!(job.stage, Stage::Done);
    assert_eq!(job.lyrics, "");
    assert_eq!(
        job.log,
        "  -> Searching Musixmatch for: Artist - Title\n  \
         -> Richsync unavailable. Falling back to standard LRC...\n  -> No lyrics found.\n"
    );
}

#[test]
fn lrc_asks_for_a_subtitle_first() {
    let mut job = query(LyricsMode::Lrc, false, false);
    assert_eq!(job.stage, Stage::AskSubtitle);
    job.subtitle_answered(Some("nothing"));
    assert_eq!(job.stage, Stage::AskRichsyncForLrc);
    job.richsync_answered(&richsync());
    assert_eq!(job.stage, Stage::Done);
    assert_eq!(job.lyrics, "[00:01.00]la\n");
    assert_eq!(
        job.log,
        "  -> Searching Musixmatch for: Artist - Title\n  -> Standard subtitles unavailable. \
         Attempting to extract LRC from richsync data...\n  -> LRC recovered from richsync.\n"
    );
}

#[test]
fn nothing_is_found_for_lrc() {
    let mut job = query(LyricsMode::Lrc, false, false);
    job.subtitle_answered(None);
    job.richsync_answered(&RichsyncReply::Unreadable);
    assert_eq!(job.stage, Stage::Done);
    assert!(job.log.ends_with("  -> No lyrics found.\n"));
}

#[test]
fn debug_runs_say_more() {
    let asked = Settings { debug: true, ..settings(LyricsMode::Elrc, false, false) };
    let mut job = fetch_for_query("Artist - Title", asked).unwrap();
    job.richsync_answered(&RichsyncReply::NoTrack);
    job.subtitle_answered(None);
    assert_eq!(
        job.log,
        "  -> Searching Musixmatch for: Artist - Title\n[DEBUG] matcher_track failed\n  \
         -> Richsync unavailable. Falling back to standard LRC...\n\
         [DEBUG] matcher_subtitle failed\n  -> No lyrics found.\n"
    );
}

#[test]
fn the_offset_moves_subtitles() {
    let asked = Settings { offset: -50, ..settings(LyricsMode::Lrc, false, false) };
    let mut job = fetch_for_query("Artist - Title", asked).unwrap();
    job.subtitle_answered(Some("[00:01.00]la"));
    assert_eq!(job.lyrics, "[00:00.50]la");
}

#[test]
fn outputs_are_independent() {
    for (embed, sidecar, stage) in [
        (false, false, Stage::Done),
        (false, true, Stage::WriteSidecar),
        (true, false, Stage::ListAudio),
        (true, true, Stage::WriteSidecar),
    ] {
        let mut job = query(LyricsMode::Lrc, embed, sidecar);
        job.subtitle_answered(Some("[00:01.00]la"));
        assert_eq!(job.stage, stage);
    }
}

#[test]
fn a_failed_sidecar_does_not_stop_the_job() {
    let mut job = query(LyricsMode::Lrc, true, true);
    job.subtitle_answered(Some("[00:01.00]la"));
    job.sidecar_written("./Title.lrc", Some("disk full"));
    assert_eq!(job.stage, Stage::ListAudio);
    assert!(job.log.ends_with("  -> Failed to write sidecar file: disk full\n"));
}

#[test]
fn a_query_looks_for_its_audio_file() {
    let mut job = query(LyricsMode::Lrc, true, false);
    job.subtitle_answered(Some("[00:01.00]la"));
    job.audio_listed(&vec![found(3, "other.mp3"), found(4, "Artist - Title.mp3")]);
    assert_eq!(job.stage, Stage::Embed(Target::Found(1)));
    let out = job.audio_opened(Some(audio(FileType::Mpeg)), "./Artist - Title.mp3").unwrap();
    assert_eq!(out.tags()[0].get_string(&ItemKey::Lyrics), Some("[00:01.00]la"));
    assert_eq!(job.stage, Stage::Save(Target::Found(1)));
    job.audio_saved(None);
    assert_eq!(job.stage, Stage::Done);
    assert!(job.log.ends_with("  -> Successfully embedded lyrics into metadata!\n"));
}

#[test]
fn no_audio_file_belongs_to_the_query() {
    let mut job = query(LyricsMode::Lrc, true, false);
    job.subtitle_answered(Some("[00:01.00]la"));
    job.audio_listed(&vec![found(3, "other.mp3")]);
    assert_eq!(job.stage, Stage::Done);
    assert!(job.log.ends_with("  -> No matching audio file found to embed into.\n"));
}

#[test]
fn the_audio_file_cannot_be_opened_or_saved() {
    let mut job = query(LyricsMode::Lrc, true, false);
    job.subtitle_answered(Some("[00:01.00]la"));
    job.audio_listed(&vec![found(3, "title.mp3")]);
    assert!(job.audio_opened(None, "./title.mp3").is_none());
    assert_eq!(job.stage, Stage::Done);
    assert!(job.log.ends_with("  -> Failed to open audio file ./title.mp3\n"));

    let mut job = query(LyricsMode::Lrc, true, false);
    job.subtitle_answered(Some("[00:01.00]la"));
    job.audio_listed(&vec![found(3, "title.mp3")]);
    job.audio_opened(Some(audio(FileType::Mpeg)), "./title.mp3");
    job.audio_saved(Some("locked"));
    assert_eq!(job.stage, Stage::Done);
    assert!(job.log.ends_with(
        "  -> Failed to save metadata: locked. Make sure the file isn't open elsewhere!\n"
    ));
}

#[test]
fn queries_without_artist_and_title() {
    assert!(fetch_for_query("Title", settings(LyricsMode::Elrc, true, true)).is_none());
    assert!(fetch_for_query("", settings(LyricsMode::Elrc, true, true)).is_none());
}

#[test]
fn lyrics_of_a_query_are_filed_under_the_title() {
    let job = fetch_for_query("A - Some_Title (Live)", settings(LyricsMode::Elrc, true, true));
    assert_eq!(job.unwrap().base_name, "Some Title");
}

#[test]
fn lyrics_of_a_file_go_into_that_file() {
    let mut tag = Tag::new(TagType::VorbisComments);
    tag.insert_text(ItemKey::TrackArtist, "A".to_string());
    tag.insert_text(ItemKey::TrackTitle, "T".to_string());
    let tagged = TaggedFile::new(FileType::Flac, FileProperties::default(), vec![tag]);
    let asked = settings(LyricsMode::Elrc, true, true);
    let mut job = fetch_for_audio_file(Some(&tagged), "05 x.flac", "music/05 x.flac", asked);
    assert_eq!((job.artist.as_str(), job.title.as_str()), ("A", "T"));
    assert_eq!(job.base_name, "05 x");
    job.richsync_answered(&richsync());
    assert_eq!(job.stage, Stage::WriteSidecar);
    assert_eq!(job.sidecar_name(), "05 x.lrc");
    job.sidecar_written("music/05 x.lrc", None);
    assert_eq!(job.stage, Stage::Embed(Target::Given));
    assert!(job.audio_opened(Some(tagged), "music/05 x.flac").is_some());
    assert_eq!(job.stage, Stage::Save(Target::Given));
    assert_eq!(
        job.log,
        format!(
            "{}Processing: music/05 x.flac\n  -> Searching Musixmatch for: A - T\n  \
             -> Word-by-word eLRC generated.\n  -> Saved sidecar file to music/05 x.lrc\n",
            RULE
        )
    );
}

#[test]
fn a_file_without_names_is_skipped() {
    let asked = settings(LyricsMode::Elrc, true, true);
    let job = fetch_for_audio_file(None, "x.flac", "./x.flac", asked);
    assert_eq!(job.stage, Stage::Done);
    assert_eq!(
        job.log,
        format!(
            "{}Processing: ./x.flac\n  -> Could not determine artist/title, skipping.\n",
            RULE
        )
    );
}

#[test]
fn a_json_file_is_converted() {
    let line = || Line {
        start: 100,
        end: 200,
        l: Some(vec![Word { c: "la".to_string(), start: 100 }]),
        x: "la".to_string(),
    };
    let job = convert_and_embed(
        Some(vec![line()]),
        "track",
        settings(LyricsMode::Elrc, true, false),
    );
    assert_eq!(job.stage, Stage::ListAudio);
    assert_eq!(job.lyrics, "[00:01.00]<00:01.00>la<00:02.00>\n");
    assert_eq!(job.log, format!("{}Converting JSON: track\n", RULE));
    let job = convert_and_embed(
        Some(vec![line()]),
        "track",
        settings(LyricsMode::Lrc, false, true),
    );
    assert_eq!(job.stage, Stage::WriteSidecar);
    assert_eq!(job.lyrics, "[00:01.00]la\n");
    assert_eq!(job.sidecar_name(), "track.lrc");
}

#[test]
fn a_json_file_without_lyrics() {
    let asked = Settings { debug: true, ..settings(LyricsMode::Elrc, true, true) };
    let job = convert_and_embed(None, "track", asked);
    assert_eq!(job.stage, Stage::Done);
    assert_eq!(
        job.log,
        format!("{}Converting JSON: track\n[DEBUG] Serde parsing failed.\n", RULE)
    );
    assert_eq!(convert_and_embed(Some(vec![]), "track", asked).stage, Stage::Done);
}

#[test]
fn steps_of_a_job_can_be_started_by_hand() {
    let mut job = convert_and_embed(None, "b", settings(LyricsMode::Lrc, false, true));
    job.artist = "A".to_string();
    job.title = "T".to_string();
    fetch_lyrics_auto(&mut job);
    assert_eq!(job.stage, Stage::AskSubtitle);
    assert!(job.log.ends_with("  -> Searching Musixmatch for: A - T\n"));
    write_lyrics_outputs(&mut job, "la".to_string());
    assert_eq!(job.stage, Stage::WriteSidecar);
    assert_eq!(job.lyrics, "la");
}

#[test]
fn lyrics_of_a_file_are_removed() {
    let mut tag = Tag::new(TagType::Id3v2);
    tag.insert_text(ItemKey::Lyrics, "la".to_string());
    tag.insert_text(ItemKey::TrackTitle, "T".to_string());
    let tagged = TaggedFile::new(FileType::Mpeg, FileProperties::default(), vec![tag]);
    let (log, out) = remove_for_audio_file(Some(tagged), "./x.mp3", false);
    assert_eq!(log, format!("{}Processing: ./x.mp3\n", RULE));
    let out = out.unwrap();
    assert_eq!(out.tags()[0].get_string(&ItemKey::Lyrics), None);
    assert_eq!(out.tags()[0].get_string(&ItemKey::TrackTitle), Some("T"));
    let (log, out) = remove_for_audio_file(None, "./x.mp3", false);
    assert_eq!(
        log,
        format!("{}Processing: ./x.mp3\n  -> Failed to open audio file ./x.mp3\n", RULE)
    );
    assert!(out.is_none());
}
