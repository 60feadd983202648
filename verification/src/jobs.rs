//! One piece of work: getting the lyrics of one track and handing them out.
//!
//! A job does nothing outside of itself. Its stage says what is to be done next; whoever runs
//! the job does that and tells the job how it went.

use vstd::prelude::*;
use vstd::string::StringExecFns;

use lofty::file::TaggedFile;

use crate::files::{stem, stem_of};
use crate::log::{line, push_line, push_line2};
use crate::lyrics::{fetch_richsync_converted, fetch_standard_lrc, process_json_to_elrc};
use crate::lyrics::{richsync_lyrics, richsync_report, standard_lrc_report, subtitle_lyrics};
use crate::lyrics::{json_lyrics, json_report, Line, LyricsMode, RichsyncReply};
use crate::matching::{find_matching_audio_file, match_report, matching_file};
use crate::tag_laws::law_lyrics_have_a_home;
use crate::tag_store::{format_of, supports, tags_of};
use crate::tags::{embed_into_audio, embed_report, embedded, get_artist_and_title, lyrics_home};
use crate::tags::{names_of, names_report, record_embedding, save_report};
use crate::tags::{file_view, may_hold_lyrics, removal_report, remove_lyrics_from_audio};
use crate::tags::without_lyrics;
use crate::text::{str_view, trim, CharClass};
use crate::titles::{artist_and_title, clean_filename_component, cleaned, parse_artist_title_query};
use crate::walk::FoundFile;

verus! {

/// What is asked of a job.
#[derive(Clone, Copy, Debug, PartialEq, Eq, Structural)]
pub struct Settings {
    /// The form of the lyrics.
    pub mode: LyricsMode,
    /// Whether the lyrics go into the tags of an audio file.
    pub embed: bool,
    /// Whether the lyrics go into a file of their own.
    pub sidecar: bool,
    /// By how many hundredths of a second the stamps of subtitles are moved.
    pub offset: i64,
    /// Whether the log tells more than usual.
    pub debug: bool,
}

/// The audio file that lyrics go to.
#[derive(Clone, Copy, Debug, PartialEq, Eq, Structural)]
pub enum Target {
    /// The file that the job was given.
    Given,
    /// The file at this index of the listing that the job asked for.
    Found(usize),
}

/// What is to be done next.
#[derive(Clone, Copy, Debug, PartialEq, Eq, Structural)]
pub enum Stage {
    /// Ask the lyrics service for richsync lyrics, to be written as eLRC.
    AskRichsync,
    /// Ask the lyrics service for a subtitle.
    AskSubtitle,
    /// Ask the lyrics service for richsync lyrics, to be written as LRC.
    AskRichsyncForLrc,
    /// Write the lyrics to a file of their own.
    WriteSidecar,
    /// List the audio files that the lyrics may belong to.
    ListAudio,
    /// Open the audio file and put the lyrics into its tags.
    Embed(Target),
    /// Save the audio file.
    Save(Target),
    /// Nothing.
    Done,
}

/// A piece of work.
pub struct Job {
    /// What is asked of the job.
    pub settings: Settings,
    /// Whether the job was given an audio file.
    pub given: bool,
    /// The artist to ask the lyrics service for.
    pub artist: String,
    /// The title to ask the lyrics service for.
    pub title: String,
    /// The name that the lyrics are filed under.
    pub base_name: String,
    /// The lyrics, as soon as there are any.
    pub lyrics: String,
    /// What happened so far.
    pub log: String,
    /// What is to be done next.
    pub stage: Stage,
}

/// A job as plain values.
pub struct JobView {
    pub settings: Settings,
    pub given: bool,
    pub artist: Seq<char>,
    pub title: Seq<char>,
    pub base_name: Seq<char>,
    pub lyrics: Seq<char>,
    pub log: Seq<char>,
    pub stage: Stage,
}

impl View for Job {
    type V = JobView;

    open spec fn view(&self) -> JobView {
        JobView {
            settings: self.settings,
            given: self.given,
            artist: self.artist@,
            title: self.title@,
            base_name: self.base_name@,
            lyrics: self.lyrics@,
            log: self.log@,
            stage: self.stage,
        }
    }
}

impl JobView {
    /// Nothing is done that the settings do not ask for: richsync lyrics are not written in
    /// another form, without the setting for it no file is written for the lyrics, and without
    /// the setting for it no audio file is touched.
    pub open spec fn wf(self) -> bool {
        match self.stage {
            Stage::AskRichsync => self.settings.mode is Elrc,
            Stage::AskSubtitle => true,
            Stage::AskRichsyncForLrc => self.settings.mode is Lrc,
            Stage::WriteSidecar => self.settings.sidecar,
            Stage::ListAudio => self.settings.embed && !self.given,
            Stage::Embed(target) => self.settings.embed && self.given == (target is Given),
            Stage::Save(target) => self.settings.embed && self.given == (target is Given),
            Stage::Done => true,
        }
    }

    /// The job with another stage and more in its log.
    pub open spec fn moved(self, stage: Stage, report: Seq<char>) -> JobView {
        JobView { stage, log: self.log + report, ..self }
    }

    /// What follows when the lyrics are where they belong apart from any audio file.
    pub open spec fn embed_stage(self) -> Stage {
        if !self.settings.embed {
            Stage::Done
        } else if self.given {
            Stage::Embed(Target::Given)
        } else {
            Stage::ListAudio
        }
    }

    /// The job when its lyrics are known.
    pub open spec fn with_lyrics(self, lyrics: Seq<char>) -> JobView {
        JobView {
            lyrics,
            stage: if self.settings.sidecar {
                Stage::WriteSidecar
            } else {
                self.embed_stage()
            },
            ..self
        }
    }

    /// The job when its search starts.
    pub open spec fn searching(self) -> JobView {
        self.moved(
            match self.settings.mode {
                LyricsMode::Elrc => Stage::AskRichsync,
                LyricsMode::Lrc => Stage::AskSubtitle,
            },
            line("  -> Searching Musixmatch for: "@ + self.artist + (" - "@ + self.title)),
        )
    }

    /// The job when the lyrics service has answered a request for richsync lyrics.
    pub open spec fn after_richsync(self, reply: RichsyncReply) -> JobView {
        let report = richsync_report(reply, self.settings.debug);
        let first = self.stage is AskRichsync;
        match richsync_lyrics(reply, !first) {
            Some(lyrics) => self.moved(
                self.stage,
                report + line(
                    if first {
                        "  -> Word-by-word eLRC generated."@
                    } else {
                        "  -> LRC recovered from richsync."@
                    },
                ),
            ).with_lyrics(lyrics),
            None => if first {
                self.moved(
                    Stage::AskSubtitle,
                    report + line(
                        "  -> Richsync unavailable. Falling back to standard LRC..."@,
                    ),
                )
            } else {
                self.moved(Stage::Done, report + line("  -> No lyrics found."@))
            },
        }
    }

    /// The job when the lyrics service has answered a request for a subtitle.
    pub open spec fn after_subtitle(self, body: Option<Seq<char>>) -> JobView {
        let report = standard_lrc_report(body, self.settings.debug);
        match subtitle_lyrics(body, self.settings.offset as int) {
            Some(lyrics) => self.moved(
                self.stage,
                report + line("  -> Standard LRC found."@),
            ).with_lyrics(lyrics),
            None => match self.settings.mode {
                LyricsMode::Elrc => self.moved(
                    Stage::Done,
                    report + line("  -> No lyrics found."@),
                ),
                LyricsMode::Lrc => self.moved(
                    Stage::AskRichsyncForLrc,
                    report + line(
                        "  -> Standard subtitles unavailable. Attempting to extract LRC from richsync data..."@,
                    ),
                ),
            },
        }
    }

    /// The job when the file for the lyrics is written, or could not be.
    pub open spec fn after_sidecar(self, path: Seq<char>, error: Option<Seq<char>>) -> JobView {
        self.moved(
            self.embed_stage(),
            match error {
                Some(error) => line("  -> Failed to write sidecar file: "@ + error),
                None => line("  -> Saved sidecar file to "@ + path),
            },
        )
    }

    /// The job when the audio files are listed that the lyrics may belong to.
    pub open spec fn after_listing(self, files: Seq<FoundFile>) -> JobView {
        let report = match_report(self.base_name, files, self.settings.debug);
        match matching_file(self.base_name, files) {
            Some(i) => self.moved(Stage::Embed(Target::Found(i as usize)), report),
            None => self.moved(
                Stage::Done,
                report + line("  -> No matching audio file found to embed into."@),
            ),
        }
    }

    /// The job when the audio file is opened, or could not be.
    pub open spec fn after_opening(
        self,
        opened: Option<TaggedFile>,
        display: Seq<char>,
    ) -> JobView {
        self.moved(
            match (self.stage, opened) {
                (Stage::Embed(target), Some(file)) if supports(
                    format_of(file),
                    lyrics_home(file),
                ) => Stage::Save(target),
                _ => Stage::Done,
            },
            embed_report(opened, display, self.settings.debug),
        )
    }

    /// The job when the audio file is saved, or could not be.
    pub open spec fn after_saving(self, error: Option<Seq<char>>) -> JobView {
        self.moved(Stage::Done, save_report(error))
    }
}

impl Job {
    /// Goes on to `stage`.
    fn go(&mut self, stage: Stage)
        ensures
            final(self)@ == (JobView { stage, ..old(self)@ }),
    {
        self.stage = stage;
    }

    /// What follows when the lyrics are where they belong apart from any audio file.
    fn stage_of_embedding(&self) -> (stage: Stage)
        ensures
            stage == self@.embed_stage(),
    {
        if !self.settings.embed {
            Stage::Done
        } else if self.given {
            Stage::Embed(Target::Given)
        } else {
            Stage::ListAudio
        }
    }

    /// Takes in the answer to a request for richsync lyrics.
    pub fn richsync_answered(&mut self, reply: &RichsyncReply)
        requires
            old(self)@.wf(),
            old(self).stage is AskRichsync || old(self).stage is AskRichsyncForLrc,
        ensures
            final(self)@ == old(self)@.after_richsync(*reply),
            final(self)@.wf(),
    {
        let first = matches!(self.stage, Stage::AskRichsync);
        let debug = self.settings.debug;
        match fetch_richsync_converted(reply, !first, debug, &mut self.log) {
            Some(lyrics) => {
                if first {
                    push_line(&mut self.log, "  -> Word-by-word eLRC generated.");
                } else {
                    push_line(&mut self.log, "  -> LRC recovered from richsync.");
                }
                write_lyrics_outputs(self, lyrics);
            },
            None => {
                if first {
                    push_line(
                        &mut self.log,
                        "  -> Richsync unavailable. Falling back to standard LRC...",
                    );
                    self.go(Stage::AskSubtitle);
                } else {
                    push_line(&mut self.log, "  -> No lyrics found.");
                    self.go(Stage::Done);
                }
            },
        }
        assert(self.log@ =~= old(self)@.after_richsync(*reply).log);
    }

    /// Takes in the answer to a request for a subtitle: its body, or nothing where the service
    /// has none.
    pub fn subtitle_answered(&mut self, body: Option<&str>)
        requires
            old(self)@.wf(),
            old(self).stage is AskSubtitle,
        ensures
            final(self)@ == old(self)@.after_subtitle(str_view(body)),
            final(self)@.wf(),
    {
        let settings = self.settings;
        match fetch_standard_lrc(body, settings.offset, settings.debug, &mut self.log) {
            Some(lyrics) => {
                push_line(&mut self.log, "  -> Standard LRC found.");
                write_lyrics_outputs(self, lyrics);
            },
            None => match settings.mode {
                LyricsMode::Elrc => {
                    push_line(&mut self.log, "  -> No lyrics found.");
                    self.go(Stage::Done);
                },
                LyricsMode::Lrc => {
                    push_line(
                        &mut self.log,
                        "  -> Standard subtitles unavailable. Attempting to extract LRC from richsync data...",
                    );
                    self.go(Stage::AskRichsyncForLrc);
                },
            },
        }
        assert(self.log@ =~= old(self)@.after_subtitle(str_view(body)).log);
    }

    /// The name of the file for the lyrics.
    pub fn sidecar_name(&self) -> (name: String)
        ensures
            name@ == self@.base_name + ".lrc"@,
    {
        let mut name = self.base_name.clone();
        name.append(".lrc");
        name
    }

    /// Takes in how writing the file for the lyrics to `path` went; `error` says why it failed.
    pub fn sidecar_written(&mut self, path: &str, error: Option<&str>)
        requires
            old(self)@.wf(),
            old(self).stage is WriteSidecar,
        ensures
            final(self)@ == old(self)@.after_sidecar(path@, str_view(error)),
            final(self)@.wf(),
    {
        match error {
            Some(error) => push_line2(
                &mut self.log,
                "  -> Failed to write sidecar file: ",
                error,
            ),
            None => push_line2(&mut self.log, "  -> Saved sidecar file to ", path),
        }
        let stage = self.stage_of_embedding();
        self.go(stage);
    }

    /// Takes in the audio files that the lyrics may belong to.
    pub fn audio_listed(&mut self, files: &Vec<FoundFile>)
        requires
            old(self)@.wf(),
            old(self).stage is ListAudio,
        ensures
            final(self)@ == old(self)@.after_listing(files@),
            final(self)@.wf(),
            final(self).stage matches Stage::Embed(Target::Found(i)) ==> i < files@.len(),
    {
        let debug = self.settings.debug;
        let base_name = self.base_name.clone();
        match find_matching_audio_file(base_name.as_str(), files, debug, &mut self.log) {
            Some(i) => {
                self.go(Stage::Embed(Target::Found(i)));
            },
            None => {
                push_line(&mut self.log, "  -> No matching audio file found to embed into.");
                self.go(Stage::Done);
            },
        }
        assert(self.log@ =~= old(self)@.after_listing(files@).log);
    }

    /// Takes in the audio file that the lyrics go to, or nothing where it could not be opened,
    /// and gives back the file to be saved, if any. `display` is the path of the file.
    pub fn audio_opened(&mut self, opened: Option<TaggedFile>, display: &str) -> (r: Option<
        TaggedFile,
    >)
        requires
            old(self)@.wf(),
            old(self).stage is Embed,
            opened matches Some(file) ==> format_of(file) !is Custom,
        ensures
            final(self)@ == old(self)@.after_opening(opened, display@),
            final(self)@.wf(),
            final(self).stage is Save <==> r is Some,
            opened is Some <==> r is Some,
            r matches Some(out) ==> opened matches Some(file) && format_of(out) == format_of(file)
                && tags_of(out) == embedded(tags_of(file), lyrics_home(file), old(self).lyrics@),
    {
        let debug = self.settings.debug;
        proof {
            if opened is Some {
                law_lyrics_have_a_home(format_of(opened->0));
            }
        }
        let r = embed_into_audio(opened, self.lyrics.as_str(), display, debug, &mut self.log);
        let stage = match (self.stage, &r) {
            (Stage::Embed(target), Some(_)) => Stage::Save(target),
            _ => Stage::Done,
        };
        self.go(stage);
        r
    }

    /// Takes in how saving the audio file went; `error` says why it failed.
    pub fn audio_saved(&mut self, error: Option<&str>)
        requires
            old(self)@.wf(),
            old(self).stage is Save,
        ensures
            final(self)@ == old(self)@.after_saving(str_view(error)),
            final(self)@.wf(),
    {
        record_embedding(error, &mut self.log);
        self.go(Stage::Done);
    }
}

/// Starts the search for the lyrics of the job's artist and title.
pub fn fetch_lyrics_auto(job: &mut Job)
    ensures
        final(job)@ == old(job)@.searching(),
        final(job)@.wf(),
{
    job.log.append("  -> Searching Musixmatch for: ");
    let artist = job.artist.clone();
    let title = job.title.clone();
    job.log.append(artist.as_str());
    push_line2(&mut job.log, " - ", title.as_str());
    assert(job.log@ =~= old(job)@.searching().log);
    match job.settings.mode {
        LyricsMode::Elrc => job.go(Stage::AskRichsync),
        LyricsMode::Lrc => job.go(Stage::AskSubtitle),
    }
}

/// Starts to hand out the lyrics of the job: first to a file of their own, where that is asked
/// for, then to an audio file, where that is.
pub fn write_lyrics_outputs(job: &mut Job, lyrics: String)
    ensures
        final(job)@ == old(job)@.with_lyrics(lyrics@),
        final(job)@.wf(),
{
    job.lyrics = lyrics;
    if job.settings.sidecar {
        job.go(Stage::WriteSidecar);
    } else {
        let stage = job.stage_of_embedding();
        job.go(stage);
    }
}

/// The two lines that the log of a job starts with.
pub open spec fn header(task: Seq<char>, subject: Seq<char>) -> Seq<char> {
    line("--------------------------------------------------"@) + line(task + subject)
}

/// Starts a log.
fn new_log(task: &str, subject: &str) -> (log: String)
    ensures
        log@ == header(task@, subject@),
{
    let mut log = String::new();
    push_line(&mut log, "--------------------------------------------------");
    push_line2(&mut log, task, subject);
    assert(log@ =~= header(task@, subject@));
    log
}

/// A job that has nothing to do.
pub open spec fn idle(
    settings: Settings,
    given: bool,
    base_name: Seq<char>,
    log: Seq<char>,
) -> JobView {
    JobView {
        settings,
        given,
        artist: Seq::empty(),
        title: Seq::empty(),
        base_name,
        lyrics: Seq::empty(),
        log,
        stage: Stage::Done,
    }
}

/// A job that has nothing to do.
fn idle_job(settings: Settings, given: bool, base_name: String, log: String) -> (job: Job)
    ensures
        job@ == idle(settings, given, base_name@, log@),
{
    let job = Job {
        settings,
        given,
        artist: String::new(),
        title: String::new(),
        base_name,
        lyrics: String::new(),
        log,
        stage: Stage::Done,
    };
    assert(job@.artist =~= Seq::<char>::empty());
    assert(job@.title =~= Seq::<char>::empty());
    assert(job@.lyrics =~= Seq::<char>::empty());
    job
}

/// The job that converts a richsync file.
pub open spec fn conversion(
    lines: Option<Vec<Line>>,
    base_name: Seq<char>,
    settings: Settings,
) -> JobView {
    let start = idle(
        settings,
        false,
        base_name,
        header("Converting JSON: "@, base_name) + json_report(lines, settings.debug),
    );
    match json_lyrics(lines, settings.mode is Lrc) {
        Some(lyrics) => start.with_lyrics(lyrics),
        None => start,
    }
}

/// The job that converts a richsync file with the lines `lines`, or nothing where it could not
/// be read. `base_name` is the name of the file without its extension.
pub fn convert_and_embed(lines: Option<Vec<Line>>, base_name: &str, settings: Settings) -> (job:
    Job)
    ensures
        job@ == conversion(lines, base_name@, settings),
        job@.wf(),
{
    let mut log = new_log("Converting JSON: ", base_name);
    let force_lrc = matches!(settings.mode, LyricsMode::Lrc);
    let output = process_json_to_elrc(lines, force_lrc, settings.debug, &mut log);
    let mut job = idle_job(settings, false, base_name.to_string(), log);
    if let Some(lyrics) = output {
        write_lyrics_outputs(&mut job, lyrics);
    }
    job
}

/// The job that gets the lyrics of an audio file.
pub open spec fn file_search(
    opened: Option<TaggedFile>,
    name: Seq<char>,
    display: Seq<char>,
    settings: Settings,
) -> JobView {
    let log = header("Processing: "@, display) + names_report(opened, name, settings.debug);
    match names_of(opened, name) {
        Some(names) => JobView {
            artist: names.0,
            title: names.1,
            ..idle(settings, true, stem(name), log)
        }.searching(),
        None => idle(
            settings,
            true,
            stem(name),
            log + line("  -> Could not determine artist/title, skipping."@),
        ),
    }
}

/// The job that gets the lyrics of the audio file `opened`, or of one that could not be opened.
/// `name` is its file name and `display` its path.
pub fn fetch_for_audio_file(
    opened: Option<&TaggedFile>,
    name: &str,
    display: &str,
    settings: Settings,
) -> (job: Job)
    requires
        opened matches Some(file) ==> format_of(*file) !is Custom,
    ensures
        job@ == file_search(file_view(opened), name@, display@, settings),
        job@.wf(),
{
    let mut log = new_log("Processing: ", display);
    match get_artist_and_title(opened, name, settings.debug, &mut log) {
        Some((artist, title)) => {
            let mut job = idle_job(settings, true, stem_of(name), log);
            job.artist = artist;
            job.title = title;
            fetch_lyrics_auto(&mut job);
            job
        },
        None => {
            push_line(&mut log, "  -> Could not determine artist/title, skipping.");
            idle_job(settings, true, stem_of(name), log)
        },
    }
}

/// The name that the lyrics of a query are filed under: the title, cleaned up, unless nothing
/// is left of it.
pub open spec fn query_base_name(title: Seq<char>) -> Seq<char> {
    if cleaned(title).len() == 0 {
        title
    } else {
        cleaned(title)
    }
}

/// The job that gets the lyrics that a query asks for.
pub open spec fn query_search(artist: Seq<char>, title: Seq<char>, settings: Settings) -> JobView {
    JobView {
        artist,
        title,
        ..idle(settings, false, query_base_name(title), Seq::empty())
    }.searching()
}

/// The job that gets the lyrics that `query` asks for, or nothing where that names no artist and
/// title.
pub fn fetch_for_query(query: &str, settings: Settings) -> (r: Option<Job>)
    ensures
        match r {
            Some(job) => {
                &&& artist_and_title(trim(query@, CharClass::Space)) matches Some(names)
                &&& job@ == query_search(names.0, names.1, settings)
                &&& job@.wf()
            },
            None => artist_and_title(trim(query@, CharClass::Space)) is None,
        },
{
    match parse_artist_title_query(query) {
        Some((artist, title)) => {
            let clean_title = clean_filename_component(title.as_str());
            let base_name = if clean_title.as_str().is_empty() {
                title.clone()
            } else {
                clean_title
            };
            let mut job = idle_job(settings, false, base_name, String::new());
            assert(job@.log =~= Seq::<char>::empty());
            job.artist = artist;
            job.title = title;
            fetch_lyrics_auto(&mut job);
            Some(job)
        },
        None => None,
    }
}

/// Takes the lyrics out of the audio file `opened`, or out of one that could not be opened, and
/// gives back the log so far and the file to be saved, if any. `display` is the path of the
/// file.
pub fn remove_for_audio_file(opened: Option<TaggedFile>, display: &str, debug: bool) -> (r: (
    String,
    Option<TaggedFile>,
))
    ensures
        r.0@ == header("Processing: "@, display@) + removal_report(opened, display@, debug),
        match opened {
            Some(file) if may_hold_lyrics(tags_of(file)) => {
                &&& r.1 matches Some(out)
                &&& format_of(out) == format_of(file)
                &&& tags_of(out) == without_lyrics(tags_of(file))
            },
            _ => r.1 is None,
        },
{
    let mut log = new_log("Processing: ", display);
    let file = remove_lyrics_from_audio(opened, display, debug, &mut log);
    (log, file)
}

} // verus!
