//! What holds of a job from its start to its end.

use vstd::prelude::*;

use lofty::file::TaggedFile;

use crate::file_laws::law_names_fall_apart;
use crate::files::stem;
use crate::jobs::{conversion, file_search, header, idle, query_base_name, query_search, Job};
use crate::jobs::{JobView, Settings, Stage, Target};
use crate::log::{debug_line, line};
use crate::lyric_laws::{law_reply_gives_all_its_lines, law_subtitle_is_handed_out_whole};
use crate::lyrics::{json_lyrics, json_report, richsync_lyrics, richsync_report, richsync_text};
use crate::lyrics::{standard_lrc_report, subtitle_lyrics, Line, LyricsMode, RichsyncLine};
use crate::lyrics::RichsyncReply;
use crate::matching::{belongs_to, law_found_file_is_the_first, law_match_is_found_anywhere};
use crate::matching::{match_report, matching_file, normalized};
use crate::tag_laws::law_lyrics_have_a_home;
use crate::tag_store::format_of;
use crate::tags::{embed_report, names_of, names_report, open_failure};
use crate::text::{has_part, CharClass};
use crate::text_laws::{all_in, bare_ends, law_text_around_a_part};
use crate::timestamps::shifted;
use crate::titles::{cleaned, filename_report};
use crate::walk::FoundFile;

verus! {

/// How everything that a job may ask for turns out.
pub struct World {
    /// The answer to a request for richsync lyrics.
    pub richsync: RichsyncReply,
    /// The answer to a request for a subtitle.
    pub subtitle: Option<Seq<char>>,
    /// The path of the file for the lyrics.
    pub sidecar_path: Seq<char>,
    /// Why that file could not be written.
    pub sidecar_error: Option<Seq<char>>,
    /// The audio files that the lyrics may belong to.
    pub files: Seq<FoundFile>,
    /// The audio file that the lyrics go to.
    pub opened: Option<TaggedFile>,
    /// The path of that audio file.
    pub display: Seq<char>,
    /// Why that audio file could not be saved.
    pub save_error: Option<Seq<char>>,
}

/// The job after one more step.
pub open spec fn step(job: JobView, world: World) -> JobView {
    match job.stage {
        Stage::AskRichsync | Stage::AskRichsyncForLrc => job.after_richsync(world.richsync),
        Stage::AskSubtitle => job.after_subtitle(world.subtitle),
        Stage::WriteSidecar => job.after_sidecar(world.sidecar_path, world.sidecar_error),
        Stage::ListAudio => job.after_listing(world.files),
        Stage::Embed(target) => job.after_opening(world.opened, world.display),
        Stage::Save(target) => job.after_saving(world.save_error),
        Stage::Done => job,
    }
}

/// How many steps a job has left at most.
pub open spec fn steps_left(stage: Stage) -> nat {
    match stage {
        Stage::AskRichsync => 7,
        Stage::AskSubtitle => 6,
        Stage::AskRichsyncForLrc => 5,
        Stage::WriteSidecar => 4,
        Stage::ListAudio => 3,
        Stage::Embed(target) => 2,
        Stage::Save(target) => 1,
        Stage::Done => 0,
    }
}

/// Every step of a job brings it nearer to its end, whatever happens.
pub proof fn law_jobs_end(job: JobView, world: World)
    requires
        job.stage !is Done,
    ensures
        steps_left(step(job, world).stage) < steps_left(job.stage),
{
}

/// The job at each of its stages, from now to its end.
pub open spec fn history(job: JobView, world: World) -> Seq<JobView>
    decreases steps_left(job.stage),
{
    if job.stage is Done {
        seq![job]
    } else {
        proof {
            law_jobs_end(job, world);
        }
        seq![job] + history(step(job, world), world)
    }
}

/// Whether the job passes through a stage that writes the file for the lyrics.
pub open spec fn writes_sidecar(job: JobView, world: World) -> bool {
    exists|i: int|
        0 <= i < history(job, world).len() && (#[trigger] history(job, world)[i]).stage
            is WriteSidecar
}

/// Whether the job passes through a stage that puts the lyrics into `target`.
pub open spec fn embeds_into(job: JobView, world: World, target: Target) -> bool {
    exists|i: int|
        0 <= i < history(job, world).len() && (#[trigger] history(job, world)[i]).stage
            == Stage::Embed(target)
}

/// The lyrics that a search finds. For eLRC they are richsync lyrics with a time for each word,
/// or without such a subtitle; for LRC they are a subtitle, or without one richsync lyrics with
/// a time for each line alone.
pub open spec fn lyrics_found(settings: Settings, world: World) -> Option<Seq<char>> {
    let subtitle = subtitle_lyrics(world.subtitle, settings.offset as int);
    match settings.mode {
        LyricsMode::Elrc => match richsync_lyrics(world.richsync, false) {
            Some(lyrics) => Some(lyrics),
            None => subtitle,
        },
        LyricsMode::Lrc => match subtitle {
            Some(lyrics) => Some(lyrics),
            None => richsync_lyrics(world.richsync, true),
        },
    }
}

/// The audio file that the lyrics of a job go to: the one that it was given, or else the first
/// one that belongs to the name of the lyrics.
pub open spec fn audio_target(job: JobView, world: World) -> Option<Target> {
    if job.given {
        Some(Target::Given)
    } else {
        match matching_file(job.base_name, world.files) {
            Some(i) => Some(Target::Found(i as usize)),
            None => None,
        }
    }
}

/// The history of a job is the job itself and then the history of what its next step makes of
/// it.
proof fn lemma_history(job: JobView, world: World)
    ensures
        history(job, world).len() > 0,
        history(job, world)[0] == job,
        job.stage !is Done ==> history(job, world) == seq![job] + history(
            step(job, world),
            world,
        ),
        job.stage !is Done ==> writes_sidecar(job, world) == (job.stage is WriteSidecar
            || writes_sidecar(step(job, world), world)),
        job.stage !is Done ==> forall|target: Target|
            embeds_into(job, world, target) == (job.stage == Stage::Embed(target) || embeds_into(
                step(job, world),
                world,
                target,
            )),
        job.stage is Done ==> !writes_sidecar(job, world),
        job.stage is Done ==> forall|target: Target| !embeds_into(job, world, target),
{
    let h = history(job, world);
    if job.stage !is Done {
        let next = step(job, world);
        let rest = history(next, world);
        assert(h == seq![job] + rest);
        assert forall|i: int| 0 <= i < rest.len() implies h[i + 1] == rest[i] by {}
        if writes_sidecar(next, world) {
            let i = choose|i: int| 0 <= i < rest.len() && (#[trigger] rest[i]).stage is WriteSidecar;
            assert(h[i + 1].stage is WriteSidecar);
        }
        if writes_sidecar(job, world) {
            let i = choose|i: int| 0 <= i < h.len() && (#[trigger] h[i]).stage is WriteSidecar;
            if i > 0 {
                assert(rest[i - 1] == h[i]);
            }
        }
        assert(h[0] == job);
        assert forall|target: Target|
            embeds_into(job, world, target) == (job.stage == Stage::Embed(target) || embeds_into(
                next,
                world,
                target,
            )) by {
            if embeds_into(next, world, target) {
                let i = choose|i: int|
                    0 <= i < rest.len() && (#[trigger] rest[i]).stage == Stage::Embed(target);
                assert(h[i + 1].stage == Stage::Embed(target));
            }
            if embeds_into(job, world, target) {
                let i = choose|i: int|
                    0 <= i < h.len() && (#[trigger] h[i]).stage == Stage::Embed(target);
                if i > 0 {
                    assert(rest[i - 1] == h[i]);
                }
            }
        }
    }
}

/// A job never does what its settings do not ask for, and ends with nothing left to do.
pub proof fn law_nothing_unasked(job: JobView, world: World)
    requires
        job.wf(),
    ensures
        forall|i: int|
            0 <= i < history(job, world).len() ==> (#[trigger] history(job, world)[i]).wf(),
        history(job, world).last().stage is Done,
    decreases steps_left(job.stage),
{
    lemma_history(job, world);
    if job.stage !is Done {
        let next = step(job, world);
        law_jobs_end(job, world);
        assert(next.wf());
        law_nothing_unasked(next, world);
        lemma_history(next, world);
        let h = history(job, world);
        let rest = history(next, world);
        assert forall|i: int| 0 <= i < h.len() implies (#[trigger] h[i]).wf() by {
            if i > 0 {
                assert(rest[i - 1].wf());
            }
        }
    }
}

/// When the lyrics of a job are known, a file is written for them if and only if that is asked
/// for, whatever else is; they go into an audio file if and only if that is asked for and there
/// is one for them, whatever else is asked for and however it turns out; and at each of these
/// steps they are the same lyrics, filed under the same name.
pub proof fn law_lyrics_are_handed_out(job: JobView, lyrics: Seq<char>, world: World)
    ensures
        ({
            let start = job.with_lyrics(lyrics);
            &&& writes_sidecar(start, world) == job.settings.sidecar
            &&& forall|target: Target| #[trigger]
                embeds_into(start, world, target) == (job.settings.embed && audio_target(job, world)
                    == Some(target))
            &&& forall|i: int|
                0 <= i < history(start, world).len() ==> {
                    let now = #[trigger] history(start, world)[i];
                    now.lyrics == lyrics && now.base_name == job.base_name
                }
        }),
{
    let start = job.with_lyrics(lyrics);
    lemma_keeps_lyrics(start, world);
    lemma_history(start, world);
    let a = step(start, world);
    lemma_history(a, world);
    let b = step(a, world);
    lemma_history(b, world);
    let c = step(b, world);
    lemma_history(c, world);
    let d = step(c, world);
    lemma_history(d, world);
}

/// A job that has its lyrics keeps them, and its name.
proof fn lemma_keeps_lyrics(job: JobView, world: World)
    requires
        job.stage !is AskRichsync,
        job.stage !is AskSubtitle,
        job.stage !is AskRichsyncForLrc,
    ensures
        forall|i: int|
            0 <= i < history(job, world).len() ==> {
                let now = #[trigger] history(job, world)[i];
                now.lyrics == job.lyrics && now.base_name == job.base_name
            },
    decreases steps_left(job.stage),
{
    lemma_history(job, world);
    if job.stage !is Done {
        let next = step(job, world);
        law_jobs_end(job, world);
        lemma_keeps_lyrics(next, world);
        let h = history(job, world);
        let rest = history(next, world);
        assert forall|i: int| 0 <= i < h.len() implies {
            let now = #[trigger] h[i];
            now.lyrics == job.lyrics && now.base_name == job.base_name
        } by {
            if i > 0 {
                assert(rest[i - 1].lyrics == next.lyrics);
            }
        }
    }
}

/// A search hands out the lyrics that it finds and nothing else: the richsync lyrics for eLRC
/// where there are any, or else the subtitle; the subtitle for LRC where there is one, or else
/// the richsync lyrics line by line.
pub proof fn law_search_outcome(job: JobView, world: World)
    ensures
        ({
            let start = job.searching();
            match lyrics_found(job.settings, world) {
                Some(lyrics) => {
                    &&& writes_sidecar(start, world) == job.settings.sidecar
                    &&& forall|target: Target| #[trigger]
                        embeds_into(start, world, target) == (job.settings.embed && audio_target(
                            job,
                            world,
                        ) == Some(target))
                    &&& history(start, world).last().lyrics == lyrics
                },
                None => {
                    &&& !writes_sidecar(start, world)
                    &&& forall|target: Target| !#[trigger] embeds_into(start, world, target)
                    &&& history(start, world).last().lyrics == job.lyrics
                },
            }
        }),
{
    let a = job.searching();
    lemma_search_step(a, world);
    let b = step(a, world);
    if b.stage is AskSubtitle || b.stage is AskRichsyncForLrc {
        lemma_search_step(b, world);
    } else {
        lemma_history(b, world);
    }
}

/// What the answer to one request of a search leads to.
proof fn lemma_search_step(job: JobView, world: World)
    requires
        job.stage is AskRichsync || job.stage is AskSubtitle || job.stage is AskRichsyncForLrc,
    ensures
        ({
            let next = step(job, world);
            let found = if job.stage is AskSubtitle {
                subtitle_lyrics(world.subtitle, job.settings.offset as int)
            } else {
                richsync_lyrics(world.richsync, job.stage is AskRichsyncForLrc)
            };
            &&& history(job, world).last() == history(next, world).last()
            &&& writes_sidecar(job, world) == writes_sidecar(next, world)
            &&& forall|target: Target| #[trigger]
                embeds_into(job, world, target) == embeds_into(next, world, target)
            &&& next.settings == job.settings
            &&& next.given == job.given
            &&& next.base_name == job.base_name
            &&& match found {
                Some(lyrics) => {
                    &&& writes_sidecar(next, world) == job.settings.sidecar
                    &&& forall|target: Target| #[trigger]
                        embeds_into(next, world, target) == (job.settings.embed && audio_target(
                            job,
                            world,
                        ) == Some(target))
                    &&& history(next, world).last().lyrics == lyrics
                    &&& next.stage !is AskSubtitle
                    &&& next.stage !is AskRichsyncForLrc
                },
                None => {
                    &&& next.lyrics == job.lyrics
                    &&& next.stage == match job.stage {
                        Stage::AskRichsync => Stage::AskSubtitle,
                        Stage::AskSubtitle => match job.settings.mode {
                            LyricsMode::Elrc => Stage::Done,
                            LyricsMode::Lrc => Stage::AskRichsyncForLrc,
                        },
                        _ => Stage::Done,
                    }
                },
            }
        }),
{
    let next = step(job, world);
    lemma_history(job, world);
    lemma_history(next, world);
    let found = if job.stage is AskSubtitle {
        subtitle_lyrics(world.subtitle, job.settings.offset as int)
    } else {
        richsync_lyrics(world.richsync, job.stage is AskRichsyncForLrc)
    };
    if let Some(lyrics) = found {
        let before = JobView { log: next.log, ..job };
        assert(next == before.with_lyrics(lyrics));
        law_lyrics_are_handed_out(before, lyrics, world);
        assert(audio_target(before, world) == audio_target(job, world));
        let h = history(next, world);
        assert(h[h.len() - 1].lyrics == lyrics);
    }
}

/// Whether a job at this stage asks the lyrics service for something.
pub open spec fn asks_service(stage: Stage) -> bool {
    stage is AskRichsync || stage is AskSubtitle || stage is AskRichsyncForLrc
}

/// A job that does not ask the lyrics service for anything never does later.
proof fn lemma_stays_offline(job: JobView, world: World)
    requires
        !asks_service(job.stage),
    ensures
        forall|i: int|
            0 <= i < history(job, world).len() ==> !asks_service(
                (#[trigger] history(job, world)[i]).stage,
            ),
    decreases steps_left(job.stage),
{
    lemma_history(job, world);
    if job.stage !is Done {
        let next = step(job, world);
        law_jobs_end(job, world);
        lemma_stays_offline(next, world);
        let h = history(job, world);
        let rest = history(next, world);
        assert forall|i: int| 0 <= i < h.len() implies !asks_service((#[trigger] h[i]).stage) by {
            if i > 0 {
                assert(!asks_service(rest[i - 1].stage));
            }
        }
    }
}

/// The conversion of a richsync file never asks the lyrics service for anything, and hands out
/// the lyrics in the file and nothing else.
pub proof fn law_conversion_is_offline(
    lines: Option<Vec<Line>>,
    base_name: Seq<char>,
    settings: Settings,
    world: World,
)
    ensures
        ({
            let job = conversion(lines, base_name, settings);
            let lyrics = json_lyrics(lines, settings.mode is Lrc);
            &&& forall|i: int|
                0 <= i < history(job, world).len() ==> !asks_service(
                    (#[trigger] history(job, world)[i]).stage,
                )
            &&& writes_sidecar(job, world) == (lyrics is Some && settings.sidecar)
            &&& forall|target: Target| #[trigger]
                embeds_into(job, world, target) == (lyrics is Some && settings.embed
                    && audio_target(job, world) == Some(target))
            &&& lyrics matches Some(text) ==> history(job, world).last().lyrics == text
        }),
{
    let job = conversion(lines, base_name, settings);
    lemma_stays_offline(job, world);
    match json_lyrics(lines, settings.mode is Lrc) {
        Some(lyrics) => {
            let before = JobView { stage: Stage::Done, lyrics: Seq::empty(), ..job };
            assert(job == before.with_lyrics(lyrics));
            law_lyrics_are_handed_out(before, lyrics, world);
            assert(audio_target(before, world) == audio_target(job, world));
            lemma_history(job, world);
            let h = history(job, world);
            assert(h[h.len() - 1].lyrics == lyrics);
        },
        None => {
            lemma_history(job, world);
        },
    }
}

/// The lyrics of an audio file go into that file and no other, if and only if its artist and
/// title are known, lyrics are found, and that is asked for.
pub proof fn law_file_gets_its_own_lyrics(
    tags: Option<TaggedFile>,
    name: Seq<char>,
    display: Seq<char>,
    settings: Settings,
    world: World,
    target: Target,
)
    ensures
        ({
            let job = file_search(tags, name, display, settings);
            let found = names_of(tags, name) is Some && lyrics_found(settings, world) is Some;
            &&& embeds_into(job, world, target) == (found && settings.embed && target is Given)
            &&& writes_sidecar(job, world) == (found && settings.sidecar)
        }),
{
    let job = file_search(tags, name, display, settings);
    lemma_history(job, world);
    if let Some(names) = names_of(tags, name) {
        let log = header("Processing: "@, display) + names_report(tags, name, settings.debug);
        let before = JobView {
            artist: names.0,
            title: names.1,
            ..idle(settings, true, stem(name), log)
        };
        assert(job == before.searching());
        law_search_outcome(before, world);
    }
}

/// The lyrics of a query go into the first audio file that belongs to their title, if and only
/// if there is one, lyrics are found, and that is asked for.
pub proof fn law_query_finds_its_file(
    artist: Seq<char>,
    title: Seq<char>,
    settings: Settings,
    world: World,
    target: Target,
)
    ensures
        ({
            let job = query_search(artist, title, settings);
            let found = lyrics_found(settings, world) is Some;
            &&& embeds_into(job, world, target) == (found && settings.embed && audio_target(
                job,
                world,
            ) == Some(target))
            &&& target is Given ==> !embeds_into(job, world, target)
            &&& writes_sidecar(job, world) == (found && settings.sidecar)
        }),
{
    let job = query_search(artist, title, settings);
    let before = JobView {
        artist,
        title,
        ..idle(settings, false, query_base_name(title), Seq::empty())
    };
    assert(job == before.searching());
    law_search_outcome(before, world);
    assert(audio_target(before, world) == audio_target(job, world));
}

/// A job shows itself as it is.
pub proof fn law_jobs_show_themselves(job: Job)
    ensures
        job@.settings == job.settings,
        job@.given == job.given,
        job@.artist == job.artist@,
        job@.title == job.title@,
        job@.base_name == job.base_name@,
        job@.lyrics == job.lyrics@,
        job@.log == job.log@,
        job@.stage == job.stage,
{
}

/// The job for an audio file asks for the artist and the title of that file, files the lyrics
/// under its name without the extension, and does what its settings say. Without names it has
/// nothing to do.
pub proof fn law_job_for_a_file(
    tags: Option<TaggedFile>,
    base: Seq<char>,
    ext: Seq<char>,
    display: Seq<char>,
    settings: Settings,
)
    requires
        base.len() > 0,
        !ext.contains('.'),
    ensures
        ({
            let name = base + seq!['.'] + ext;
            let job = file_search(tags, name, display, settings);
            &&& job.settings == settings
            &&& job.given
            &&& job.base_name == base
            &&& job.lyrics.len() == 0
            &&& match names_of(tags, name) {
                Some((artist, title)) => {
                    &&& job.artist == artist
                    &&& job.title == title
                    &&& settings.mode is Elrc ==> job.stage is AskRichsync
                    &&& settings.mode is Lrc ==> job.stage is AskSubtitle
                },
                None => job.stage is Done,
            }
        }),
{
    law_names_fall_apart(base, ext);
}

/// The job for a query asks for the artist and the title of the query, files the lyrics under the
/// title, cleaned up unless that leaves nothing, and does what its settings say.
pub proof fn law_job_for_a_query(artist: Seq<char>, title: Seq<char>, settings: Settings)
    ensures
        ({
            let job = query_search(artist, title, settings);
            &&& job.settings == settings
            &&& !job.given
            &&& job.artist == artist
            &&& job.title == title
            &&& cleaned(title).len() > 0 ==> job.base_name == cleaned(title)
            &&& cleaned(title).len() == 0 ==> job.base_name == title
            &&& job.lyrics.len() == 0
            &&& settings.mode is Elrc ==> job.stage is AskRichsync
            &&& settings.mode is Lrc ==> job.stage is AskSubtitle
        }),
{
}

/// The job for a richsync file files the lyrics under the name that it is given, and does what
/// its settings say.
pub proof fn law_job_for_a_richsync_file(
    lines: Option<Vec<Line>>,
    base_name: Seq<char>,
    settings: Settings,
)
    ensures
        ({
            let job = conversion(lines, base_name, settings);
            &&& job.settings == settings
            &&& !job.given
            &&& job.base_name == base_name
            &&& match json_lyrics(lines, settings.mode is Lrc) {
                Some(lyrics) => job.lyrics == lyrics,
                None => job.lyrics.len() == 0 && job.stage is Done,
            }
        }),
{
}

/// No step changes what a job asks for, under which name it files the lyrics, or what is asked of
/// it, and none takes anything back that the log says.
pub proof fn law_steps_keep_the_task(job: JobView, world: World)
    ensures
        ({
            let next = step(job, world);
            &&& next.settings == job.settings
            &&& next.given == job.given
            &&& next.artist == job.artist
            &&& next.title == job.title
            &&& next.base_name == job.base_name
            &&& job.log.is_prefix_of(next.log)
        }),
{
    let next = step(job, world);
    assert(job.log =~= next.log.take(job.log.len() as int));
}

/// When lyrics are known, the next thing is to write a file for them, where that is asked for,
/// or else to go on to the audio file, where that is; they are kept whole, and all else stays.
pub proof fn law_what_follows_lyrics(job: JobView, lyrics: Seq<char>)
    ensures
        ({
            let next = job.with_lyrics(lyrics);
            &&& next.lyrics == lyrics
            &&& next == (JobView { lyrics, stage: next.stage, ..job })
            &&& job.settings.sidecar ==> next.stage is WriteSidecar
            &&& !job.settings.sidecar && job.settings.embed && job.given ==> next.stage
                == Stage::Embed(Target::Given)
            &&& !job.settings.sidecar && job.settings.embed && !job.given ==> next.stage
                is ListAudio
            &&& !job.settings.sidecar && !job.settings.embed ==> next.stage is Done
        }),
{
}

/// An audio file that could be opened is saved with the lyrics, whatever they are; one that could
/// not ends the job.
pub proof fn law_opened_file_is_saved(
    job: JobView,
    target: Target,
    file: TaggedFile,
    display: Seq<char>,
)
    requires
        job.stage == Stage::Embed(target),
        format_of(file) !is Custom,
    ensures
        job.after_opening(Some(file), display).stage == Stage::Save(target),
        job.after_opening(None, display).stage is Done,
{
    law_lyrics_have_a_home(format_of(file));
}

/// What a run writes to the log for debugging, only a debug run writes, and each line ends where
/// it should.
pub proof fn law_quiet_runs_say_no_more(
    text: Seq<char>,
    reply: RichsyncReply,
    lines: Option<Vec<Line>>,
    body: Option<Seq<char>>,
    name: Seq<char>,
    files: Seq<FoundFile>,
    opened: Option<TaggedFile>,
)
    ensures
        line(text) == text.push('\n'),
        debug_line(true, text) == line(text),
        debug_line(false, text).len() == 0,
        richsync_report(reply, false).len() == 0,
        json_report(lines, false).len() == 0,
        standard_lrc_report(body, false).len() == 0,
        match_report(name, files, false).len() == 0,
        filename_report(name, false).len() == 0,
        names_report(opened, name, false).len() == 0,
{
    assert(line(text) =~= text.push('\n'));
}

/// For eLRC, richsync lyrics are asked for first; where the service has lines, these are the
/// lyrics, with a time for each word, all of them, and nothing else is asked for.
pub proof fn law_elrc_takes_richsync_first(job: JobView, lines: Vec<RichsyncLine>)
    requires
        job.settings.mode is Elrc,
        lines@.len() > 0,
    ensures
        job.searching().stage is AskRichsync,
        ({
            let next = job.searching().after_richsync(RichsyncReply::Lines(lines));
            &&& next.lyrics == richsync_text(lines@, false)
            &&& !asks_service(next.stage)
            &&& next.stage is WriteSidecar <==> job.settings.sidecar
            &&& next.stage is Done <==> !job.settings.sidecar && !job.settings.embed
        }),
{
    law_reply_gives_all_its_lines(RichsyncReply::NoTrack, lines, false);
}

/// For eLRC, where the service has no richsync lyrics, a subtitle is asked for; its whole body
/// without white space at its ends, moved by the offset, is the lyrics. Where it has none either,
/// there are no lyrics.
pub proof fn law_elrc_falls_back_on_a_subtitle(
    job: JobView,
    reply: RichsyncReply,
    start: Seq<char>,
    body: Seq<char>,
    end: Seq<char>,
)
    requires
        job.settings.mode is Elrc,
        reply matches RichsyncReply::Lines(lines) ==> lines@.len() == 0,
        all_in(start, CharClass::Space),
        bare_ends(body, CharClass::Space),
        all_in(end, CharClass::Space),
    ensures
        ({
            let asked = job.searching().after_richsync(reply);
            let next = asked.after_subtitle(Some(start + body + end));
            let found = body.contains('[') && body.contains(']');
            &&& asked.stage is AskSubtitle
            &&& found ==> next.lyrics == shifted(body, job.settings.offset as int)
            &&& found ==> (next.stage is WriteSidecar <==> job.settings.sidecar)
            &&& found ==> !asks_service(next.stage)
            &&& !found ==> next.lyrics == job.lyrics && next.stage is Done
            &&& asked.after_subtitle(None).lyrics == job.lyrics
            &&& asked.after_subtitle(None).stage is Done
        }),
{
    match reply {
        RichsyncReply::Lines(lines) => law_reply_gives_all_its_lines(reply, lines, false),
        _ => {},
    }
    law_subtitle_is_handed_out_whole(start, body, end, job.settings.offset as int);
}

/// For LRC, a subtitle is asked for first; its whole body without white space at its ends, moved
/// by the offset, is the lyrics. Where the service has none, richsync lyrics are asked for, of
/// which the lines without the words are the lyrics, all of them.
pub proof fn law_lrc_takes_a_subtitle_first(
    job: JobView,
    start: Seq<char>,
    body: Seq<char>,
    end: Seq<char>,
    lines: Vec<RichsyncLine>,
)
    requires
        job.settings.mode is Lrc,
        all_in(start, CharClass::Space),
        bare_ends(body, CharClass::Space),
        all_in(end, CharClass::Space),
    ensures
        job.searching().stage is AskSubtitle,
        ({
            let next = job.searching().after_subtitle(Some(start + body + end));
            let found = body.contains('[') && body.contains(']');
            &&& found ==> next.lyrics == shifted(body, job.settings.offset as int)
            &&& found ==> (next.stage is WriteSidecar <==> job.settings.sidecar)
            &&& found ==> !asks_service(next.stage)
            &&& !found ==> next.stage is AskRichsyncForLrc && next.lyrics == job.lyrics
        }),
        ({
            let asked = job.searching().after_subtitle(None);
            let next = asked.after_richsync(RichsyncReply::Lines(lines));
            &&& asked.stage is AskRichsyncForLrc
            &&& lines@.len() > 0 ==> next.lyrics == richsync_text(lines@, true)
            &&& lines@.len() > 0 ==> (next.stage is WriteSidecar <==> job.settings.sidecar)
            &&& lines@.len() > 0 ==> !asks_service(next.stage)
            &&& lines@.len() == 0 ==> next.lyrics == job.lyrics && next.stage is Done
        }),
{
    law_subtitle_is_handed_out_whole(start, body, end, job.settings.offset as int);
    law_reply_gives_all_its_lines(RichsyncReply::NoTrack, lines, true);
}

/// However writing the file for the lyrics goes, an audio file is next where that is asked for,
/// and nothing where it is not.
pub proof fn law_what_follows_the_sidecar(
    job: JobView,
    path: Seq<char>,
    error: Option<Seq<char>>,
)
    ensures
        ({
            let next = job.after_sidecar(path, error);
            &&& next.lyrics == job.lyrics
            &&& job.settings.embed && job.given ==> next.stage == Stage::Embed(Target::Given)
            &&& job.settings.embed && !job.given ==> next.stage is ListAudio
            &&& !job.settings.embed ==> next.stage is Done
        }),
{
}

/// Of the listed audio files, the lyrics go into the first that belongs to their name, wherever it
/// stands in the list; where none does, nothing is left to do.
pub proof fn law_lyrics_go_into_the_first_match(
    job: JobView,
    before: Seq<FoundFile>,
    file: FoundFile,
    after: Seq<FoundFile>,
)
    requires
        normalized(job.base_name).len() > 0,
        before.len() <= usize::MAX,
        forall|i: int| 0 <= i < before.len() ==> !belongs_to(#[trigger] before[i], job.base_name),
    ensures
        belongs_to(file, job.base_name) ==> job.after_listing(before + seq![file] + after).stage
            == Stage::Embed(Target::Found(before.len() as usize)),
        job.after_listing(before).stage is Done,
        job.after_listing(before + seq![file] + after).lyrics == job.lyrics,
{
    if belongs_to(file, job.base_name) {
        law_match_is_found_anywhere(before, file, after, job.base_name);
    }
    law_found_file_is_the_first(job.base_name, before);
}

/// What stands in the middle of a text is part of it.
proof fn lemma_in_the_middle(before: Seq<char>, part: Seq<char>, after: Seq<char>, s: Seq<char>)
    requires
        s =~= before + part + after,
    ensures
        has_part(s, part),
{
    law_text_around_a_part(s, part);
    assert(s == before + part + after);
}

/// The log tells what it is about, in full: the file or the name that is worked on, the artist and
/// the title that are asked for, the path of what is written, and the reason of each failure.
pub proof fn law_log_tells_what_it_is_about(job: JobView, task: Seq<char>, text: Seq<char>)
    ensures
        has_part(header(task, text), task + text),
        has_part(job.searching().log, job.artist),
        has_part(job.searching().log, job.title),
        has_part(job.after_sidecar(text, None).log, text),
        has_part(job.after_sidecar(task, Some(text)).log, text),
        has_part(job.after_saving(Some(text)).log, text),
        has_part(open_failure(text), text),
        has_part(embed_report(None, text, true), text),
{
    let empty = Seq::<char>::empty();
    let end = seq!['\n'];
    let rule = line("--------------------------------------------------"@);
    lemma_in_the_middle(rule, task + text, end, header(task, text));
    let ask = "  -> Searching Musixmatch for: "@;
    let log = job.searching().log;
    lemma_in_the_middle(job.log + ask, job.artist, " - "@ + job.title + end, log);
    lemma_in_the_middle(job.log + ask + job.artist + " - "@, job.title, end, log);
    lemma_in_the_middle(
        job.log + "  -> Saved sidecar file to "@,
        text,
        end,
        job.after_sidecar(text, None).log,
    );
    lemma_in_the_middle(
        job.log + "  -> Failed to write sidecar file: "@,
        text,
        end,
        job.after_sidecar(task, Some(text)).log,
    );
    lemma_in_the_middle(
        job.log + "  -> Failed to save metadata: "@,
        text,
        ". Make sure the file isn't open elsewhere!"@ + end,
        job.after_saving(Some(text)).log,
    );
    lemma_in_the_middle("  -> Failed to open audio file "@, text, end, open_failure(text));
    lemma_in_the_middle(
        "[DEBUG] Attempting to embed into: "@,
        text,
        end + open_failure(text),
        embed_report(None, text, true),
    );
}

} // verus!
