//! The tags of an audio file, as the `lofty` crate holds them in memory.
//!
//! The types and functions marked external here are trusted: their contracts say what `lofty`
//! does, and nothing proves them.

use vstd::prelude::*;

use lofty::file::{FileType, TaggedFile, TaggedFileExt};
use lofty::tag::{Accessor, ItemKey, ItemValue, Tag, TagItem, TagType};

use crate::text::text_view;

verus! {

/// The format of a tag.
#[derive(Clone, Copy, Debug, PartialEq, Eq, Structural)]
pub enum TagKind {
    Ape,
    Id3v1,
    Id3v2,
    Mp4Ilst,
    VorbisComments,
    RiffInfo,
    AiffText,
}

/// The format of an audio file.
#[derive(Clone, Copy, Debug, PartialEq, Eq, Structural)]
pub enum AudioFormat {
    Aac,
    Aiff,
    Ape,
    Flac,
    Mpeg,
    Mp4,
    Mpc,
    Opus,
    Vorbis,
    Speex,
    Wav,
    WavPack,
    /// A format that a program has registered with `lofty` itself.
    Custom,
}

/// The key of an item of a tag.
#[derive(Clone, Copy, Debug, PartialEq, Eq, Structural)]
pub enum TagKey {
    Lyrics,
    TrackArtist,
    TrackTitle,
}

/// The value of an item of a tag.
pub enum TagValue {
    Text(Seq<char>),
    Locator(Seq<char>),
    Binary(Seq<u8>),
}

/// One item of a tag.
pub struct TagEntry {
    /// The name of the key, as the key's `Debug` form gives it.
    pub key: Seq<char>,
    /// The value.
    pub value: TagValue,
    /// The code of the language.
    pub language: Seq<u8>,
    /// The description.
    pub description: Seq<char>,
}

/// One picture of a tag.
pub struct TagPicture {
    /// The code of what the picture shows.
    pub picture_type: u8,
    /// The type of the data.
    pub mime_type: Option<Seq<char>>,
    /// The description.
    pub description: Option<Seq<char>>,
    /// The data.
    pub data: Seq<u8>,
}

/// What a tag holds.
pub struct TagContents {
    /// The format.
    pub kind: TagKind,
    /// The items, in order.
    pub entries: Seq<TagEntry>,
    /// The pictures, in order.
    pub pictures: Seq<TagPicture>,
    /// Whether there are items that only this format has. What these are is left unsaid.
    pub format_specific: bool,
}

/// `lofty::file::TaggedFile`: the format of an audio file and its tags.
#[verifier::external_type_specification]
#[verifier::external_body]
pub struct ExTaggedFile(lofty::file::TaggedFile);

/// `lofty::tag::Tag`: the items of one tag.
#[verifier::external_type_specification]
#[verifier::external_body]
pub struct ExTag(lofty::tag::Tag);

/// The format of the audio file.
pub uninterp spec fn format_of(file: TaggedFile) -> AudioFormat;

/// What each of the file's tags holds, in order.
pub uninterp spec fn tags_of(file: TaggedFile) -> Seq<TagContents>;

/// What the tag holds.
pub uninterp spec fn contents_of(tag: Tag) -> TagContents;

/// Whether the tag at `i` is the first one in `tags` of format `kind`.
pub open spec fn first_of_kind(tags: Seq<TagContents>, kind: TagKind, i: int) -> bool {
    &&& 0 <= i < tags.len()
    &&& tags[i].kind == kind
    &&& forall|j: int| 0 <= j < i ==> (#[trigger] tags[j]).kind != kind
}

/// Whether any of `tags` is of format `kind`.
pub open spec fn has_kind(tags: Seq<TagContents>, kind: TagKind) -> bool {
    exists|i: int| first_of_kind(tags, kind, i)
}

/// The format of tag that is most at home in an audio file of format `format`.
pub open spec fn primary_kind(format: AudioFormat) -> TagKind {
    match format {
        AudioFormat::Aac | AudioFormat::Aiff | AudioFormat::Mpeg | AudioFormat::Wav =>
            TagKind::Id3v2,
        AudioFormat::Flac | AudioFormat::Opus | AudioFormat::Vorbis | AudioFormat::Speex =>
            TagKind::VorbisComments,
        AudioFormat::Mp4 => TagKind::Mp4Ilst,
        _ => TagKind::Ape,
    }
}

/// Whether an audio file of format `format` may hold a tag of format `kind`.
pub open spec fn supports(format: AudioFormat, kind: TagKind) -> bool {
    match kind {
        TagKind::Ape => format is Ape || format is Mpeg || format is Mpc || format is WavPack,
        TagKind::Id3v1 => format is Aac || format is Ape || format is Mpeg || format is WavPack
            || format is Mpc,
        TagKind::Id3v2 => format is Aac || format is Aiff || format is Mpeg || format is Wav
            || format is Ape || format is Flac || format is Mpc,
        TagKind::Mp4Ilst => format is Mp4,
        TagKind::VorbisComments => format is Flac || format is Opus || format is Speex
            || format is Vorbis,
        TagKind::RiffInfo => format is Wav,
        TagKind::AiffText => format is Aiff,
    }
}

/// The name of a key.
pub open spec fn key_name(key: TagKey) -> Seq<char> {
    match key {
        TagKey::Lyrics => "Lyrics"@,
        TagKey::TrackArtist => "TrackArtist"@,
        TagKey::TrackTitle => "TrackTitle"@,
    }
}

/// Whether a tag of format `kind` has a place for items with the key `key`.
pub open spec fn holds_key(kind: TagKind, key: TagKey) -> bool {
    match key {
        TagKey::Lyrics => kind is Ape || kind is Id3v2 || kind is Mp4Ilst || kind is VorbisComments,
        TagKey::TrackArtist | TagKey::TrackTitle => true,
    }
}

/// `entries` without those whose key is named `name`.
pub open spec fn without_key(entries: Seq<TagEntry>, name: Seq<char>) -> Seq<TagEntry> {
    entries.filter(|e: TagEntry| e.key != name)
}

/// The text of a value, where it is text.
pub open spec fn text_of(value: TagValue) -> Option<Seq<char>> {
    match value {
        TagValue::Text(text) => Some(text),
        _ => None,
    }
}

/// An item with the key named `name` and the text `text`, without language and description: the
/// code `XXX` stands for no language.
pub open spec fn text_entry(name: Seq<char>, text: Seq<char>) -> TagEntry {
    TagEntry {
        key: name,
        value: TagValue::Text(text),
        language: seq![88u8, 88u8, 88u8],
        description: Seq::empty(),
    }
}

/// A tag of format `kind` that holds nothing.
pub open spec fn empty_tag(kind: TagKind) -> TagContents {
    TagContents {
        kind,
        entries: Seq::empty(),
        pictures: Seq::empty(),
        format_specific: false,
    }
}

/// Whether the item at `i` is the first one in `entries` whose key is named `key`.
pub open spec fn first_of_key(entries: Seq<TagEntry>, key: Seq<char>, i: int) -> bool {
    &&& 0 <= i < entries.len()
    &&& entries[i].key == key
    &&& forall|j: int| 0 <= j < i ==> (#[trigger] entries[j]).key != key
}

/// The text of the first item in `entries` whose key is named `key`: nothing where there is no
/// such item, or where its value is not text.
pub open spec fn first_text(entries: Seq<TagEntry>, key: Seq<char>) -> Option<Seq<char>> {
    if exists|i: int| first_of_key(entries, key, i) {
        text_of(entries[choose|i: int| first_of_key(entries, key, i)].value)
    } else {
        None
    }
}

/// `TaggedFileExt::file_type`: the format of the audio file.
#[verifier::external_body]
pub(crate) fn file_type(file: &TaggedFile) -> (r: AudioFormat)
    ensures
        r == format_of(*file),
{
    match file.file_type() {
        FileType::Aac => AudioFormat::Aac,
        FileType::Aiff => AudioFormat::Aiff,
        FileType::Ape => AudioFormat::Ape,
        FileType::Flac => AudioFormat::Flac,
        FileType::Mpeg => AudioFormat::Mpeg,
        FileType::Mp4 => AudioFormat::Mp4,
        FileType::Mpc => AudioFormat::Mpc,
        FileType::Opus => AudioFormat::Opus,
        FileType::Vorbis => AudioFormat::Vorbis,
        FileType::Speex => AudioFormat::Speex,
        FileType::Wav => AudioFormat::Wav,
        FileType::WavPack => AudioFormat::WavPack,
        _ => AudioFormat::Custom,
    }
}

/// `TaggedFileExt::primary_tag_type`: the table of `FileType::primary_tag_type`, read at the
/// file's own format. On a registered format it asks what was registered, or panics.
#[verifier::external_body]
pub(crate) fn primary_tag_type(file: &TaggedFile) -> (r: TagKind)
    requires
        format_of(*file) !is Custom,
    ensures
        r == primary_kind(format_of(*file)),
{
    match file.primary_tag_type() {
        TagType::Ape => TagKind::Ape,
        TagType::Id3v1 => TagKind::Id3v1,
        TagType::Id3v2 => TagKind::Id3v2,
        TagType::Mp4Ilst => TagKind::Mp4Ilst,
        TagType::VorbisComments => TagKind::VorbisComments,
        TagType::RiffInfo => TagKind::RiffInfo,
        _ => TagKind::AiffText,
    }
}

/// `TaggedFileExt::supports_tag_type`: whether the file's format is among those that the tag
/// format lists as supported. On a registered format it asks what was registered, or panics.
#[verifier::external_body]
pub(crate) fn supports_tag_type(file: &TaggedFile, kind: TagKind) -> (r: bool)
    requires
        format_of(*file) !is Custom,
    ensures
        r == supports(format_of(*file), kind),
{
    let tag_type = match kind {
        TagKind::Ape => TagType::Ape,
        TagKind::Id3v1 => TagType::Id3v1,
        TagKind::Id3v2 => TagType::Id3v2,
        TagKind::Mp4Ilst => TagType::Mp4Ilst,
        TagKind::VorbisComments => TagType::VorbisComments,
        TagKind::RiffInfo => TagType::RiffInfo,
        TagKind::AiffText => TagType::AiffText,
    };
    file.supports_tag_type(tag_type)
}

/// `TaggedFileExt::tag`: the first tag of the given format.
#[verifier::external_body]
pub(crate) fn tag_of_kind(file: &TaggedFile, kind: TagKind) -> (r: Option<&Tag>)
    ensures
        match r {
            Some(tag) => exists|i: int| #[trigger]
                first_of_kind(tags_of(*file), kind, i) && contents_of(*tag) == tags_of(*file)[i],
            None => !has_kind(tags_of(*file), kind),
        },
{
    let tag_type = match kind {
        TagKind::Ape => TagType::Ape,
        TagKind::Id3v1 => TagType::Id3v1,
        TagKind::Id3v2 => TagType::Id3v2,
        TagKind::Mp4Ilst => TagType::Mp4Ilst,
        TagKind::VorbisComments => TagType::VorbisComments,
        TagKind::RiffInfo => TagType::RiffInfo,
        TagKind::AiffText => TagType::AiffText,
    };
    file.tag(tag_type)
}

/// `TaggedFileExt::tag_mut`: the first tag of the given format, to be changed in place. The
/// other tags and the file's format stay as they are.
#[verifier::external_body]
pub(crate) fn tag_of_kind_mut(file: &mut TaggedFile, kind: TagKind) -> (r: Option<&mut Tag>)
    ensures
        format_of(*final(file)) == format_of(*old(file)),
        match r {
            Some(tag) => exists|i: int| #[trigger]
                first_of_kind(tags_of(*old(file)), kind, i) && contents_of(*tag) == tags_of(
                    *old(file),
                )[i] && tags_of(*final(file)) == tags_of(*old(file)).update(
                    i,
                    contents_of(*final(tag)),
                ),
            None => !has_kind(tags_of(*old(file)), kind) && tags_of(*final(file)) == tags_of(
                *old(file),
            ),
        },
{
    let tag_type = match kind {
        TagKind::Ape => TagType::Ape,
        TagKind::Id3v1 => TagType::Id3v1,
        TagKind::Id3v2 => TagType::Id3v2,
        TagKind::Mp4Ilst => TagType::Mp4Ilst,
        TagKind::VorbisComments => TagType::VorbisComments,
        TagKind::RiffInfo => TagType::RiffInfo,
        TagKind::AiffText => TagType::AiffText,
    };
    file.tag_mut(tag_type)
}

/// `TaggedFileExt::primary_tag`: the first tag of the file's primary format. On a registered
/// format it asks what was registered, or panics.
#[verifier::external_body]
pub(crate) fn primary_tag(file: &TaggedFile) -> (r: Option<&Tag>)
    requires
        format_of(*file) !is Custom,
    ensures
        match r {
            Some(tag) => exists|i: int| #[trigger]
                first_of_kind(tags_of(*file), primary_kind(format_of(*file)), i) && contents_of(
                    *tag,
                ) == tags_of(*file)[i],
            None => !has_kind(tags_of(*file), primary_kind(format_of(*file))),
        },
{
    file.primary_tag()
}

/// `TaggedFileExt::first_tag`: the first tag of any format.
#[verifier::external_body]
pub(crate) fn first_tag(file: &TaggedFile) -> (r: Option<&Tag>)
    ensures
        match r {
            Some(tag) => tags_of(*file).len() > 0 && contents_of(*tag) == tags_of(*file)[0],
            None => tags_of(*file).len() == 0,
        },
{
    file.first_tag()
}

/// `TaggedFileExt::insert_tag`: where the file supports the tag's format, takes out the first
/// tag of that format and adds the new one behind all others; otherwise does nothing. On a
/// registered format it asks what was registered, or panics.
#[verifier::external_body]
pub(crate) fn insert_tag(file: &mut TaggedFile, tag: Tag) -> (r: Option<Tag>)
    requires
        format_of(*old(file)) !is Custom,
    ensures
        format_of(*final(file)) == format_of(*old(file)),
        !supports(format_of(*old(file)), contents_of(tag).kind) ==> r is None && tags_of(*final(file))
            == tags_of(*old(file)),
        supports(format_of(*old(file)), contents_of(tag).kind) ==> match r {
            Some(out) => exists|i: int| #[trigger]
                first_of_kind(tags_of(*old(file)), contents_of(tag).kind, i) && contents_of(out)
                    == tags_of(*old(file))[i] && tags_of(*final(file)) == tags_of(
                    *old(file),
                ).remove(i).push(contents_of(tag)),
            None => !has_kind(tags_of(*old(file)), contents_of(tag).kind) && tags_of(*final(file))
                == tags_of(*old(file)).push(contents_of(tag)),
        },
{
    file.insert_tag(tag)
}

/// `Tag::new`: an empty tag of the given format.
#[verifier::external_body]
pub(crate) fn new_tag(kind: TagKind) -> (r: Tag)
    ensures
        contents_of(r) == empty_tag(kind),
{
    let tag_type = match kind {
        TagKind::Ape => TagType::Ape,
        TagKind::Id3v1 => TagType::Id3v1,
        TagKind::Id3v2 => TagType::Id3v2,
        TagKind::Mp4Ilst => TagType::Mp4Ilst,
        TagKind::VorbisComments => TagType::VorbisComments,
        TagKind::RiffInfo => TagType::RiffInfo,
        TagKind::AiffText => TagType::AiffText,
    };
    Tag::new(tag_type)
}

/// `Tag::remove_key`: takes out every item with the given key, and keeps the others in their
/// order and all else that the tag holds.
#[verifier::external_body]
pub(crate) fn remove_key(tag: &mut Tag, key: TagKey)
    ensures
        contents_of(*final(tag)) == (TagContents {
            entries: without_key(contents_of(*old(tag)).entries, key_name(key)),
            ..contents_of(*old(tag))
        }),
{
    let item_key = match key {
        TagKey::Lyrics => ItemKey::Lyrics,
        TagKey::TrackArtist => ItemKey::TrackArtist,
        TagKey::TrackTitle => ItemKey::TrackTitle,
    };
    tag.remove_key(&item_key)
}

/// `Tag::insert` for an item that `TagItem::new` makes of a text: where the tag's format has a
/// place for the key, takes out every item with that key and adds the new one behind the others;
/// otherwise does nothing. All else that the tag holds stays.
#[verifier::external_body]
pub(crate) fn insert_text(tag: &mut Tag, key: TagKey, text: &str) -> (r: bool)
    ensures
        r == holds_key(contents_of(*old(tag)).kind, key),
        contents_of(*final(tag)) == (TagContents {
            entries: if r {
                without_key(contents_of(*old(tag)).entries, key_name(key)).push(
                    text_entry(key_name(key), text@),
                )
            } else {
                contents_of(*old(tag)).entries
            },
            ..contents_of(*old(tag))
        }),
{
    let item_key = match key {
        TagKey::Lyrics => ItemKey::Lyrics,
        TagKey::TrackArtist => ItemKey::TrackArtist,
        TagKey::TrackTitle => ItemKey::TrackTitle,
    };
    tag.insert(TagItem::new(item_key, ItemValue::Text(text.to_string())))
}

/// `Accessor::artist`: the text of the first item whose key is the track's artist.
#[verifier::external_body]
pub(crate) fn artist(tag: &Tag) -> (r: Option<String>)
    ensures
        text_view(r) == first_text(contents_of(*tag).entries, key_name(TagKey::TrackArtist)),
{
    tag.artist().map(|s| s.into_owned())
}

/// `Accessor::title`: the text of the first item whose key is the track's title.
#[verifier::external_body]
pub(crate) fn title(tag: &Tag) -> (r: Option<String>)
    ensures
        text_view(r) == first_text(contents_of(*tag).entries, key_name(TagKey::TrackTitle)),
{
    tag.title().map(|s| s.into_owned())
}

} // verus!
