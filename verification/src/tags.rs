//! Lyrics in the tags of an audio file: writing them, removing them, and reading whose they are.

use vstd::prelude::*;
use vstd::string::StringExecFns;

use lofty::file::TaggedFile;

use crate::files::{stem, stem_of};
use crate::log::{debug_line, line, push_debug_line2, push_debug_line3, push_line, push_line2};
use crate::log::push_line3;
use crate::tag_store::{artist, file_type, first_of_kind, first_tag, first_text};
use crate::tag_store::{empty_tag, format_of, has_kind, insert_tag, insert_text, new_tag, primary_kind};
use crate::tag_store::{primary_tag, primary_tag_type, remove_key, supports, supports_tag_type};
use crate::tag_store::{tag_of_kind, tag_of_kind_mut, tags_of, text_entry, title, without_key};
use crate::tag_store::{AudioFormat, TagContents, TagEntry, TagKey, TagKind};
use crate::text::{str_view, trim_start, CharClass};
use crate::titles::{artist_and_title, filename_report, pair_view, parse_filename_for_tags};

verus! {

/// `entries` without the lyrics.
pub open spec fn not_lyrics(entries: Seq<TagEntry>) -> Seq<TagEntry> {
    without_key(entries, "Lyrics"@)
}

/// `tag` without the lyrics, and with all else that it holds.
pub open spec fn stripped(tag: TagContents) -> TagContents {
    TagContents { entries: not_lyrics(tag.entries), ..tag }
}

/// The index of the first tag of format `kind`.
pub open spec fn kind_index(tags: Seq<TagContents>, kind: TagKind) -> int {
    choose|i: int| first_of_kind(tags, kind, i)
}

/// The format of tag that lyrics go to in an audio file of format `format`, of which `primary`
/// is the primary one.
pub open spec fn lyrics_kind(format: AudioFormat, primary: TagKind) -> TagKind {
    match format {
        AudioFormat::Mpeg => TagKind::Id3v2,
        AudioFormat::Flac
        | AudioFormat::Opus
        | AudioFormat::Vorbis
        | AudioFormat::Speex => TagKind::VorbisComments,
        AudioFormat::Mp4 => TagKind::Mp4Ilst,
        _ => primary,
    }
}

/// `tags` without the lyrics in the first tag of format `kind`.
pub open spec fn cleared(tags: Seq<TagContents>, kind: TagKind) -> Seq<TagContents> {
    if has_kind(tags, kind) {
        let i = kind_index(tags, kind);
        tags.update(i, stripped(tags[i]))
    } else {
        tags
    }
}

/// `tags` without the lyrics in the tags of the three formats that commonly hold them.
pub open spec fn without_lyrics(tags: Seq<TagContents>) -> Seq<TagContents> {
    cleared(cleared(cleared(tags, TagKind::Id3v2), TagKind::VorbisComments), TagKind::Mp4Ilst)
}

/// `tags` with a tag of format `kind`.
pub open spec fn with_tag(tags: Seq<TagContents>, kind: TagKind) -> Seq<TagContents> {
    if has_kind(tags, kind) {
        tags
    } else {
        tags.push(empty_tag(kind))
    }
}

/// `tags` with `lyrics` as the lyrics of the first tag of format `kind`.
pub open spec fn with_lyrics(tags: Seq<TagContents>, kind: TagKind, lyrics: Seq<char>) -> Seq<
    TagContents,
> {
    let i = kind_index(tags, kind);
    tags.update(
        i,
        TagContents {
            entries: not_lyrics(tags[i].entries).push(text_entry("Lyrics"@, lyrics)),
            ..tags[i]
        },
    )
}

/// `tags` with `lyrics` in a tag of format `kind`, in place of all lyrics that were there.
pub open spec fn embedded(tags: Seq<TagContents>, kind: TagKind, lyrics: Seq<char>) -> Seq<
    TagContents,
> {
    with_lyrics(with_tag(without_lyrics(tags), kind), kind, lyrics)
}

/// Whether any of `tags` is of one of the three formats that commonly hold lyrics.
pub open spec fn may_hold_lyrics(tags: Seq<TagContents>) -> bool {
    has_kind(tags, TagKind::Id3v2) || has_kind(tags, TagKind::VorbisComments) || has_kind(
        tags,
        TagKind::Mp4Ilst,
    )
}

/// The name of a tag format.
pub open spec fn kind_name(kind: TagKind) -> Seq<char> {
    match kind {
        TagKind::Ape => "Ape"@,
        TagKind::Id3v1 => "Id3v1"@,
        TagKind::Id3v2 => "Id3v2"@,
        TagKind::Mp4Ilst => "Mp4Ilst"@,
        TagKind::VorbisComments => "VorbisComments"@,
        TagKind::RiffInfo => "RiffInfo"@,
        TagKind::AiffText => "AiffText"@,
    }
}

/// The name of a tag format.
pub fn tag_kind_name(kind: TagKind) -> (r: &'static str)
    ensures
        r@ == kind_name(kind),
{
    match kind {
        TagKind::Ape => "Ape",
        TagKind::Id3v1 => "Id3v1",
        TagKind::Id3v2 => "Id3v2",
        TagKind::Mp4Ilst => "Mp4Ilst",
        TagKind::VorbisComments => "VorbisComments",
        TagKind::RiffInfo => "RiffInfo",
        TagKind::AiffText => "AiffText",
    }
}

/// The format of an audio file.
pub fn audio_format(file: &TaggedFile) -> (r: AudioFormat)
    ensures
        r == format_of(*file),
{
    file_type(file)
}

/// The format of tag that lyrics go to in an audio file of format `format`, of which `primary`
/// is the primary one.
pub fn preferred_lyrics_tag_type(format: AudioFormat, primary: TagKind) -> (r: TagKind)
    ensures
        r == lyrics_kind(format, primary),
{
    match format {
        AudioFormat::Mpeg => TagKind::Id3v2,
        AudioFormat::Flac
        | AudioFormat::Opus
        | AudioFormat::Vorbis
        | AudioFormat::Speex => TagKind::VorbisComments,
        AudioFormat::Mp4 => TagKind::Mp4Ilst,
        _ => primary,
    }
}

/// Takes the lyrics out of the first tag of format `kind`, and says whether there is one.
fn clear_kind(file: &mut TaggedFile, kind: TagKind) -> (r: bool)
    ensures
        r == has_kind(tags_of(*old(file)), kind),
        tags_of(*final(file)) == cleared(tags_of(*old(file)), kind),
        format_of(*final(file)) == format_of(*old(file)),
{
    if let Some(tag) = tag_of_kind_mut(file, kind) {
        remove_key(tag, TagKey::Lyrics);
        true
    } else {
        false
    }
}

/// What the log says of an audio file that could not be opened.
pub open spec fn open_failure(display: Seq<char>) -> Seq<char> {
    line("  -> Failed to open audio file "@ + display)
}

/// The format of tag that lyrics go to in `file`.
pub open spec fn lyrics_home(file: TaggedFile) -> TagKind {
    lyrics_kind(format_of(file), primary_kind(format_of(file)))
}

/// What `embed_into_audio` writes to the log.
pub open spec fn embed_report(
    opened: Option<TaggedFile>,
    display: Seq<char>,
    debug: bool,
) -> Seq<char> {
    debug_line(debug, "[DEBUG] Attempting to embed into: "@ + display) + match opened {
        Some(file) => if supports(format_of(file), lyrics_home(file)) {
            debug_line(debug, "[DEBUG] Embedded lyrics using "@ + kind_name(lyrics_home(file)))
        } else {
            line(
                "  -> "@ + display + (" does not support "@ + kind_name(lyrics_home(file))
                    + " lyric tags."@),
            )
        },
        None => open_failure(display),
    }
}

/// Puts `lyrics` into the tags of an audio file, in place of all lyrics that were there, and
/// gives back the file to be saved. `opened` is the file, or nothing where it could not be
/// opened.
pub fn embed_into_audio(
    opened: Option<TaggedFile>,
    lyrics: &str,
    display: &str,
    debug: bool,
    log: &mut String,
) -> (r: Option<TaggedFile>)
    requires
        opened matches Some(file) ==> format_of(file) !is Custom,
    ensures
        match opened {
            Some(file) if supports(format_of(file), lyrics_home(file)) => {
                &&& r matches Some(out)
                &&& format_of(out) == format_of(file)
                &&& tags_of(out) == embedded(tags_of(file), lyrics_home(file), lyrics@)
            },
            _ => r is None,
        },
        final(log)@ == old(log)@ + embed_report(opened, display@, debug),
{
    push_debug_line2(log, debug, "[DEBUG] Attempting to embed into: ", display);
    let mut file = match opened {
        Some(file) => file,
        None => {
            push_line2(log, "  -> Failed to open audio file ", display);
            assert(log@ =~= old(log)@ + embed_report(opened, display@, debug));
            return None;
        },
    };
    let kind = preferred_lyrics_tag_type(file_type(&file), primary_tag_type(&file));
    if !supports_tag_type(&file, kind) {
        log.append("  -> ");
        log.append(display);
        push_line3(log, " does not support ", tag_kind_name(kind), " lyric tags.");
        assert(log@ =~= old(log)@ + embed_report(opened, display@, debug));
        return None;
    }
    clear_kind(&mut file, TagKind::Id3v2);
    clear_kind(&mut file, TagKind::VorbisComments);
    clear_kind(&mut file, TagKind::Mp4Ilst);
    if tag_of_kind(&file, kind).is_none() {
        insert_tag(&mut file, new_tag(kind));
    }
    assert(tags_of(file) == with_tag(without_lyrics(tags_of(opened->0)), kind));
    proof {
        if !has_kind(without_lyrics(tags_of(opened->0)), kind) {
            lemma_new_kind(without_lyrics(tags_of(opened->0)), kind);
        }
    }
    if let Some(tag) = tag_of_kind_mut(&mut file, kind) {
        insert_text(tag, TagKey::Lyrics, lyrics);
        push_debug_line2(log, debug, "[DEBUG] Embedded lyrics using ", tag_kind_name(kind));
    }
    assert(log@ =~= old(log)@ + embed_report(opened, display@, debug));
    Some(file)
}

/// A tag that is added behind others none of which has its format is the first of its format.
pub proof fn lemma_new_kind(tags: Seq<TagContents>, kind: TagKind)
    requires
        !has_kind(tags, kind),
    ensures
        first_of_kind(tags.push(empty_tag(kind)), kind, tags.len() as int),
{
    lemma_has_kind(tags, kind);
}

/// Where no tag is the first of a format, none has that format.
pub proof fn lemma_has_kind(tags: Seq<TagContents>, kind: TagKind)
    ensures
        has_kind(tags, kind) <==> exists|i: int| 0 <= i < tags.len() && (#[trigger] tags[i]).kind == kind,
    decreases tags.len(),
{
    if tags.len() > 0 {
        let front = tags.drop_last();
        lemma_has_kind(front, kind);
        if has_kind(front, kind) {
            let i = choose|i: int| first_of_kind(front, kind, i);
            assert forall|j: int| 0 <= j < i implies (#[trigger] tags[j]).kind != kind by {
                assert(front[j].kind != kind);
            }
            assert(first_of_kind(tags, kind, i));
        } else if tags.last().kind == kind {
            assert forall|j: int| 0 <= j < tags.len() - 1 implies (#[trigger] tags[j]).kind != kind by {
                assert(front[j].kind != kind);
            }
            assert(first_of_kind(tags, kind, tags.len() - 1));
        } else {
            assert forall|j: int| 0 <= j < tags.len() implies (#[trigger] tags[j]).kind != kind by {
                if j < tags.len() - 1 {
                    assert(front[j].kind != kind);
                }
            }
        }
    }
}

/// What the log says of saving a file with new lyrics.
pub open spec fn save_report(error: Option<Seq<char>>) -> Seq<char> {
    match error {
        Some(error) => line(
            "  -> Failed to save metadata: "@ + error
                + ". Make sure the file isn't open elsewhere!"@,
        ),
        None => line("  -> Successfully embedded lyrics into metadata!"@),
    }
}

/// Writes to the log how saving a file with new lyrics went; `error` says why it failed.
pub fn record_embedding(error: Option<&str>, log: &mut String)
    ensures
        final(log)@ == old(log)@ + save_report(str_view(error)),
{
    match error {
        Some(error) => push_line3(
            log,
            "  -> Failed to save metadata: ",
            error,
            ". Make sure the file isn't open elsewhere!",
        ),
        None => push_line(log, "  -> Successfully embedded lyrics into metadata!"),
    }
}

/// What the log says of a tag of format `kind` from which lyrics are taken out.
pub open spec fn strip_line(tags: Seq<TagContents>, kind: TagKind, debug: bool) -> Seq<char> {
    if has_kind(tags, kind) {
        debug_line(debug, "[DEBUG] Stripped lyrics key from "@ + kind_name(kind))
    } else {
        Seq::empty()
    }
}

/// What `remove_lyrics_from_audio` writes to the log.
pub open spec fn removal_report(
    opened: Option<TaggedFile>,
    display: Seq<char>,
    debug: bool,
) -> Seq<char> {
    match opened {
        Some(file) => if may_hold_lyrics(tags_of(file)) {
            strip_line(tags_of(file), TagKind::Id3v2, debug) + strip_line(
                tags_of(file),
                TagKind::VorbisComments,
                debug,
            ) + strip_line(tags_of(file), TagKind::Mp4Ilst, debug)
        } else {
            line("  -> No metadata tags found to clean."@)
        },
        None => open_failure(display),
    }
}

/// Takes the lyrics out of the first tag of format `kind`, says so in a debug run, and returns
/// whether there is such a tag.
fn strip_kind(file: &mut TaggedFile, kind: TagKind, debug: bool, log: &mut String) -> (r: bool)
    ensures
        r == has_kind(tags_of(*old(file)), kind),
        tags_of(*final(file)) == cleared(tags_of(*old(file)), kind),
        format_of(*final(file)) == format_of(*old(file)),
        final(log)@ == old(log)@ + strip_line(tags_of(*old(file)), kind, debug),
{
    let r = clear_kind(file, kind);
    if r {
        push_debug_line2(log, debug, "[DEBUG] Stripped lyrics key from ", tag_kind_name(kind));
    }
    assert(log@ =~= old(log)@ + strip_line(tags_of(*old(file)), kind, debug));
    r
}

/// Takes the lyrics out of the tags of an audio file, and gives back the file to be saved, or
/// nothing where it has no tag that may hold lyrics. `opened` is the file, or nothing where it
/// could not be opened.
pub fn remove_lyrics_from_audio(
    opened: Option<TaggedFile>,
    display: &str,
    debug: bool,
    log: &mut String,
) -> (r: Option<TaggedFile>)
    ensures
        match opened {
            Some(file) if may_hold_lyrics(tags_of(file)) => {
                &&& r matches Some(out)
                &&& format_of(out) == format_of(file)
                &&& tags_of(out) == without_lyrics(tags_of(file))
            },
            _ => r is None,
        },
        final(log)@ == old(log)@ + removal_report(opened, display@, debug),
{
    let mut file = match opened {
        Some(file) => file,
        None => {
            push_line2(log, "  -> Failed to open audio file ", display);
            return None;
        },
    };
    let ghost tags = tags_of(file);
    proof {
        lemma_cleared_kinds(tags, TagKind::Id3v2);
        lemma_cleared_kinds(cleared(tags, TagKind::Id3v2), TagKind::VorbisComments);
    }
    let id3v2 = strip_kind(&mut file, TagKind::Id3v2, debug, log);
    let vorbis = strip_kind(&mut file, TagKind::VorbisComments, debug, log);
    let mp4 = strip_kind(&mut file, TagKind::Mp4Ilst, debug, log);
    if id3v2 || vorbis || mp4 {
        assert(log@ =~= old(log)@ + removal_report(opened, display@, debug));
        Some(file)
    } else {
        push_line(log, "  -> No metadata tags found to clean.");
        assert(log@ =~= old(log)@ + removal_report(opened, display@, debug));
        None
    }
}

/// Writes to the log how saving a file without its lyrics went; `error` says why it failed.
pub fn record_removal(error: Option<&str>, log: &mut String)
    ensures
        final(log)@ == old(log)@ + match error {
            Some(error) => line("  -> Failed to save metadata: "@ + error@),
            None => line("  -> Successfully purged embedded lyrics!"@),
        },
{
    match error {
        Some(error) => push_line2(log, "  -> Failed to save metadata: ", error),
        None => push_line(log, "  -> Successfully purged embedded lyrics!"),
    }
}

/// An optional file behind a reference.
pub open spec fn file_view(file: Option<&TaggedFile>) -> Option<TaggedFile> {
    match file {
        Some(file) => Some(*file),
        None => None,
    }
}

/// The tag that is read for artist and title: the first of the file's primary format, or else
/// the first of all.
pub open spec fn naming_tag(file: TaggedFile) -> Option<TagContents> {
    let tags = tags_of(file);
    let primary = primary_kind(format_of(file));
    if has_kind(tags, primary) {
        Some(tags[kind_index(tags, primary)])
    } else if tags.len() > 0 {
        Some(tags[0])
    } else {
        None
    }
}

/// The artist and the title in a tag that has both.
pub open spec fn named_by(tag: TagContents) -> Option<(Seq<char>, Seq<char>)> {
    match (first_text(tag.entries, "TrackArtist"@), first_text(tag.entries, "TrackTitle"@)) {
        (Some(artist), Some(title)) => Some((artist, title)),
        _ => None,
    }
}

/// The artist and the title that the tags of a file give.
pub open spec fn tagged_names(opened: Option<TaggedFile>) -> Option<(Seq<char>, Seq<char>)> {
    match opened {
        Some(file) => match naming_tag(file) {
            Some(tag) => named_by(tag),
            None => None,
        },
        None => None,
    }
}

/// The artist and the title of a file with the tags `opened` and the file name `name`.
pub open spec fn names_of(opened: Option<TaggedFile>, name: Seq<char>) -> Option<
    (Seq<char>, Seq<char>),
> {
    match tagged_names(opened) {
        Some(names) => Some(names),
        None => artist_and_title(trim_start(stem(name), CharClass::TrackNumber)),
    }
}

/// What `get_artist_and_title` writes to the log.
pub open spec fn names_report(opened: Option<TaggedFile>, name: Seq<char>, debug: bool) -> Seq<
    char,
> {
    match tagged_names(opened) {
        Some(names) => Seq::empty(),
        None => debug_line(
            debug,
            "[DEBUG] Metadata missing, falling back to filename: '"@ + stem(name) + "'"@,
        ) + filename_report(stem(name), debug),
    }
}

/// The artist and the title that the tags of a file give.
fn read_names(file: &TaggedFile) -> (r: Option<(String, String)>)
    requires
        format_of(*file) !is Custom,
    ensures
        pair_view(r) == tagged_names(Some(*file)),
{
    let primary = primary_tag(file);
    let chosen = if primary.is_some() {
        primary
    } else {
        first_tag(file)
    };
    match chosen {
        Some(tag) => match (artist(tag), title(tag)) {
            (Some(artist), Some(title)) => Some((artist, title)),
            _ => None,
        },
        None => None,
    }
}

/// The artist and the title of an audio file: those in its tags, or else those in its file name
/// `name`. `opened` is the file, or nothing where it could not be opened.
pub fn get_artist_and_title(
    opened: Option<&TaggedFile>,
    name: &str,
    debug: bool,
    log: &mut String,
) -> (r: Option<(String, String)>)
    requires
        opened matches Some(file) ==> format_of(*file) !is Custom,
    ensures
        pair_view(r) == names_of(file_view(opened), name@),
        final(log)@ == old(log)@ + names_report(file_view(opened), name@, debug),
{
    let names = match opened {
        Some(file) => read_names(file),
        None => None,
    };
    if names.is_some() {
        assert(log@ =~= old(log)@ + Seq::<char>::empty());
        return names;
    }
    let stem = stem_of(name);
    push_debug_line3(
        log,
        debug,
        "[DEBUG] Metadata missing, falling back to filename: '",
        stem.as_str(),
        "'",
    );
    let r = parse_filename_for_tags(stem.as_str(), debug, log);
    assert(tagged_names(file_view(opened)) is None);
    assert(log@ =~= old(log)@ + names_report(file_view(opened), name@, debug));
    r
}

/// Taking lyrics out of tags leaves their number and their formats as they are.
pub proof fn lemma_cleared_kinds(tags: Seq<TagContents>, kind: TagKind)
    ensures
        cleared(tags, kind).len() == tags.len(),
        forall|i: int| 0 <= i < tags.len() ==> (#[trigger] cleared(tags, kind)[i]).kind == tags[i].kind,
        forall|k: TagKind, i: int|
            first_of_kind(cleared(tags, kind), k, i) == first_of_kind(tags, k, i),
        forall|k: TagKind| has_kind(cleared(tags, kind), k) == has_kind(tags, k),
        forall|k: TagKind|
            has_kind(tags, k) ==> kind_index(cleared(tags, kind), k) == kind_index(tags, k),
{
    let out = cleared(tags, kind);
    assert forall|i: int| 0 <= i < tags.len() implies (#[trigger] out[i]).kind == tags[i].kind by {
        if has_kind(tags, kind) {
            assert(first_of_kind(tags, kind, kind_index(tags, kind)));
        }
    }
    assert forall|k: TagKind, i: int| first_of_kind(out, k, i) == first_of_kind(tags, k, i) by {
        if first_of_kind(out, k, i) {
            assert forall|j: int| 0 <= j < i implies (#[trigger] tags[j]).kind != k by {
                assert(out[j].kind != k);
            }
        }
        if first_of_kind(tags, k, i) {
            assert forall|j: int| 0 <= j < i implies (#[trigger] out[j]).kind != k by {
                assert(tags[j].kind != k);
            }
        }
    }
    assert forall|k: TagKind| has_kind(out, k) == has_kind(tags, k) by {
        if has_kind(out, k) {
            assert(first_of_kind(tags, k, kind_index(out, k)));
        }
        if has_kind(tags, k) {
            assert(first_of_kind(out, k, kind_index(tags, k)));
        }
    }
    assert forall|k: TagKind| has_kind(tags, k) implies kind_index(out, k) == kind_index(
        tags,
        k,
    ) by {
        let i = kind_index(out, k);
        let j = kind_index(tags, k);
        assert(first_of_kind(tags, k, i) && first_of_kind(tags, k, j));
        if i < j {
            assert(tags[i].kind != k);
        } else if j < i {
            assert(tags[j].kind != k);
        }
    }
}

} // verus!
