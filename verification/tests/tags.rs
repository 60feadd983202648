use lofty::file::{FileType, TaggedFile, TaggedFileExt};
use lofty::picture::{MimeType, Picture, PictureType};
use lofty::properties::FileProperties;
use lofty::tag::{Accessor, ItemKey, ItemValue, Tag, TagItem, TagType};
use lyrsync::tag_store::{AudioFormat, TagKind};
use lyrsync::tags::{
    audio_format, embed_into_audio, get_artist_and_title, preferred_lyrics_tag_type,
    record_embedding, record_removal, remove_lyrics_from_audio, tag_kind_name,
};

fn file(ty: FileType, tags: Vec<Tag>) -> TaggedFile {
    TaggedFile::new(ty, FileProperties::default(), tags)
}

fn tag(ty: TagType, items: &[(ItemKey, &str)]) -> Tag {
    let mut tag = Tag::new(ty);
    for (key, value) in items {
        assert!(tag.push(TagItem::new(key.clone(), ItemValue::Text(value.to_string()))));
    }
    tag
}

fn items(tag: &Tag) -> Vec<(ItemKey, String)> {
    tag.items().map(|i| (i.key().clone(), i.value().text().unwrap().to_string())).collect()
}

fn text(items: &[(ItemKey, &str)]) -> Vec<(ItemKey, String)> {
    items.iter().map(|(k, v)| (k.clone(), v.to_string())).collect()
}

fn embed(file: TaggedFile, lyrics: &str) -> TaggedFile {
    let mut log = String::new();
    embed_into_audio(Some(file), lyrics, "f", false, &mut log).unwrap()
}

const FORMATS: [(FileType, AudioFormat, TagType); 12] = [
    (FileType::Aac, AudioFormat::Aac, TagType::Id3v2),
    (FileType::Aiff, AudioFormat::Aiff, TagType::Id3v2),
    (FileType::Ape, AudioFormat::Ape, TagType::Ape),
    (FileType::Flac, AudioFormat::Flac, TagType::VorbisComments),
    (FileType::Mpeg, AudioFormat::Mpeg, TagType::Id3v2),
    (FileType::Mp4, AudioFormat::Mp4, TagType::Mp4Ilst),
    (FileType::Mpc, AudioFormat::Mpc, TagType::Ape),
    (FileType::Opus, AudioFormat::Opus, TagType::VorbisComments),
    (FileType::Vorbis, AudioFormat::Vorbis, TagType::VorbisComments),
    (FileType::Speex, AudioFormat::Speex, TagType::VorbisComments),
    (FileType::Wav, AudioFormat::Wav, TagType::Id3v2),
    (FileType::WavPack, AudioFormat::WavPack, TagType::Ape),
];

#[test]
fn formats_are_told_apart() {
    for (ty, format, _) in FORMATS {
        assert_eq!(audio_format(&file(ty, vec![])), format);
    }
    assert_eq!(audio_format(&file(FileType::Custom("x"), vec![])), AudioFormat::Custom);
}

#[test]
fn lyrics_go_where_players_look_for_them() {
    assert_eq!(preferred_lyrics_tag_type(AudioFormat::Mpeg, TagKind::Ape), TagKind::Id3v2);
    for format in [AudioFormat::Flac, AudioFormat::Opus, AudioFormat::Vorbis, AudioFormat::Speex] {
        assert_eq!(preferred_lyrics_tag_type(format, TagKind::Ape), TagKind::VorbisComments);
    }
    assert_eq!(preferred_lyrics_tag_type(AudioFormat::Mp4, TagKind::Ape), TagKind::Mp4Ilst);
    for format in [AudioFormat::Wav, AudioFormat::Aac, AudioFormat::Custom] {
        assert_eq!(preferred_lyrics_tag_type(format, TagKind::Id3v2), TagKind::Id3v2);
        assert_eq!(preferred_lyrics_tag_type(format, TagKind::RiffInfo), TagKind::RiffInfo);
    }
}

#[test]
fn tag_kinds_have_names() {
    for (kind, ty) in [
        (TagKind::Ape, TagType::Ape),
        (TagKind::Id3v1, TagType::Id3v1),
        (TagKind::Id3v2, TagType::Id3v2),
        (TagKind::Mp4Ilst, TagType::Mp4Ilst),
        (TagKind::VorbisComments, TagType::VorbisComments),
        (TagKind::RiffInfo, TagType::RiffInfo),
        (TagKind::AiffText, TagType::AiffText),
    ] {
        assert_eq!(tag_kind_name(kind), format!("{:?}", ty));
    }
}

#[test]
fn lyrics_are_embedded_in_every_format() {
    for (ty, _, home) in FORMATS {
        let mut log = String::new();
        let out =
            embed_into_audio(Some(file(ty, vec![])), "[00:01.00]la", "song", true, &mut log).unwrap();
        assert_eq!(out.file_type(), ty);
        assert_eq!(out.tags().len(), 1);
        assert_eq!(out.tags()[0].tag_type(), home);
        assert_eq!(items(&out.tags()[0]), text(&[(ItemKey::Lyrics, "[00:01.00]la")]));
        assert_eq!(
            log,
            format!(
                "[DEBUG] Attempting to embed into: song\n[DEBUG] Embedded lyrics using {:?}\n",
                home
            )
        );
    }
}

#[test]
fn old_lyrics_are_replaced_everywhere() {
    let out = embed(
        file(
            FileType::Flac,
            vec![
                tag(TagType::Id3v2, &[(ItemKey::Lyrics, "old"), (ItemKey::TrackTitle, "T")]),
                tag(
                    TagType::VorbisComments,
                    &[
                        (ItemKey::Lyrics, "older"),
                        (ItemKey::TrackArtist, "A"),
                        (ItemKey::Lyrics, "oldest"),
                    ],
                ),
            ],
        ),
        "new",
    );
    assert_eq!(out.tags().len(), 2);
    assert_eq!(items(&out.tags()[0]), text(&[(ItemKey::TrackTitle, "T")]));
    assert_eq!(
        items(&out.tags()[1]),
        text(&[(ItemKey::TrackArtist, "A"), (ItemKey::Lyrics, "new")])
    );
}

#[test]
fn a_missing_tag_is_added_behind_the_others() {
    let out = embed(
        file(FileType::Mpeg, vec![tag(TagType::Ape, &[(ItemKey::Lyrics, "ape")])]),
        "new",
    );
    assert_eq!(out.tags().len(), 2);
    assert_eq!(out.tags()[0].tag_type(), TagType::Ape);
    assert_eq!(items(&out.tags()[0]), text(&[(ItemKey::Lyrics, "ape")]));
    assert_eq!(out.tags()[1].tag_type(), TagType::Id3v2);
    assert_eq!(items(&out.tags()[1]), text(&[(ItemKey::Lyrics, "new")]));
}

#[test]
fn the_last_embedding_wins() {
    let twice = embed(embed(file(FileType::Mp4, vec![]), "first"), "second");
    assert_eq!(twice.tags().len(), 1);
    assert_eq!(items(&twice.tags()[0]), text(&[(ItemKey::Lyrics, "second")]));
}

#[test]
fn a_file_that_cannot_be_opened() {
    let mut log = String::new();
    assert!(embed_into_audio(None, "x", "./a.mp3", false, &mut log).is_none());
    assert!(remove_lyrics_from_audio(None, "./a.mp3", true, &mut log).is_none());
    assert_eq!(
        log,
        "  -> Failed to open audio file ./a.mp3\n  -> Failed to open audio file ./a.mp3\n"
    );
    let mut debug = String::new();
    assert!(embed_into_audio(None, "x", "./a.mp3", true, &mut debug).is_none());
    assert_eq!(
        debug,
        "[DEBUG] Attempting to embed into: ./a.mp3\n  -> Failed to open audio file ./a.mp3\n"
    );
}

#[test]
fn lyrics_are_removed() {
    let mut log = String::new();
    let out = remove_lyrics_from_audio(
        Some(file(
            FileType::Flac,
            vec![
                tag(TagType::VorbisComments, &[(ItemKey::Lyrics, "a"), (ItemKey::Genre, "g")]),
                tag(TagType::Id3v2, &[(ItemKey::TrackTitle, "T"), (ItemKey::Lyrics, "b")]),
            ],
        )),
        "f",
        true,
        &mut log,
    )
    .unwrap();
    assert_eq!(out.file_type(), FileType::Flac);
    assert_eq!(items(&out.tags()[0]), text(&[(ItemKey::Genre, "g")]));
    assert_eq!(items(&out.tags()[1]), text(&[(ItemKey::TrackTitle, "T")]));
    assert_eq!(
        log,
        "[DEBUG] Stripped lyrics key from Id3v2\n[DEBUG] Stripped lyrics key from VorbisComments\n"
    );
}

#[test]
fn removal_undoes_embedding() {
    let before = file(FileType::Mp4, vec![tag(TagType::Mp4Ilst, &[(ItemKey::TrackTitle, "T")])]);
    let mut log = String::new();
    let out = remove_lyrics_from_audio(Some(embed(before, "la")), "f", false, &mut log).unwrap();
    assert_eq!(out.tags().len(), 1);
    assert_eq!(items(&out.tags()[0]), text(&[(ItemKey::TrackTitle, "T")]));
    assert_eq!(log, "");
}

#[test]
fn nothing_to_clean() {
    let mut log = String::new();
    assert!(
        remove_lyrics_from_audio(Some(file(FileType::Wav, vec![])), "f", true, &mut log).is_none()
    );
    let ape = file(FileType::Ape, vec![tag(TagType::Ape, &[(ItemKey::Lyrics, "x")])]);
    assert!(remove_lyrics_from_audio(Some(ape), "f", true, &mut log).is_none());
    assert_eq!(
        log,
        "  -> No metadata tags found to clean.\n  -> No metadata tags found to clean.\n"
    );
}

#[test]
fn results_of_saving() {
    let mut log = String::new();
    record_embedding(None, &mut log);
    record_embedding(Some("locked"), &mut log);
    record_removal(None, &mut log);
    record_removal(Some("locked"), &mut log);
    assert_eq!(
        log,
        "  -> Successfully embedded lyrics into metadata!\n  \
         -> Failed to save metadata: locked. Make sure the file isn't open elsewhere!\n  \
         -> Successfully purged embedded lyrics!\n  \
         -> Failed to save metadata: locked\n"
    );
}

#[test]
fn names_come_from_the_primary_tag() {
    let tagged = file(
        FileType::Mpeg,
        vec![
            tag(TagType::Ape, &[(ItemKey::TrackArtist, "X"), (ItemKey::TrackTitle, "Y")]),
            tag(TagType::Id3v2, &[(ItemKey::TrackTitle, "T"), (ItemKey::TrackArtist, "A")]),
        ],
    );
    let mut log = String::new();
    assert_eq!(
        get_artist_and_title(Some(&tagged), "P - Q.mp3", true, &mut log),
        Some(("A".to_string(), "T".to_string()))
    );
    assert_eq!(log, "");
    assert_eq!(tagged.primary_tag().unwrap().artist().as_deref(), Some("A"));
}

#[test]
fn names_come_from_the_first_tag_without_a_primary_one() {
    let tagged = file(
        FileType::Mpeg,
        vec![tag(TagType::Ape, &[(ItemKey::TrackArtist, "X"), (ItemKey::TrackTitle, "Y")])],
    );
    let mut log = String::new();
    assert_eq!(
        get_artist_and_title(Some(&tagged), "P - Q.mp3", true, &mut log),
        Some(("X".to_string(), "Y".to_string()))
    );
}

#[test]
fn names_come_from_the_file_name_otherwise() {
    let incomplete =
        file(FileType::Flac, vec![tag(TagType::VorbisComments, &[(ItemKey::TrackArtist, "A")])]);
    let mut log = String::new();
    let names = Some(("Artist".to_string(), "Title".to_string()));
    assert_eq!(
        get_artist_and_title(Some(&incomplete), "03. Artist - Title.flac", true, &mut log),
        names
    );
    assert_eq!(
        log,
        "[DEBUG] Metadata missing, falling back to filename: '03. Artist - Title'\n"
    );
    let mut quiet = String::new();
    let empty = file(FileType::Flac, vec![]);
    assert_eq!(get_artist_and_title(Some(&empty), "Artist-Title.flac", false, &mut quiet), names);
    assert_eq!(get_artist_and_title(None, "Artist_-_Title.flac", false, &mut quiet), names);
    assert_eq!(get_artist_and_title(None, "Untitled.flac", false, &mut quiet), None);
    assert_eq!(quiet, "");
}

#[test]
fn embedding_keeps_the_names() {
    let tagged = file(
        FileType::Opus,
        vec![tag(
            TagType::VorbisComments,
            &[(ItemKey::TrackArtist, "A"), (ItemKey::TrackTitle, "T"), (ItemKey::Lyrics, "old")],
        )],
    );
    let mut log = String::new();
    assert_eq!(
        get_artist_and_title(Some(&embed(tagged, "new")), "x", false, &mut log),
        Some(("A".to_string(), "T".to_string()))
    );
}

#[test]
fn removal_keeps_the_names_and_can_be_repeated() {
    let tagged = file(
        FileType::Mpeg,
        vec![tag(
            TagType::Id3v2,
            &[(ItemKey::Lyrics, "la"), (ItemKey::TrackArtist, "A"), (ItemKey::TrackTitle, "T")],
        )],
    );
    let mut log = String::new();
    let once = remove_lyrics_from_audio(Some(tagged), "f", false, &mut log).unwrap();
    let first = items(&once.tags()[0]);
    assert_eq!(first, text(&[(ItemKey::TrackArtist, "A"), (ItemKey::TrackTitle, "T")]));
    assert_eq!(
        get_artist_and_title(Some(&once), "x", false, &mut log),
        Some(("A".to_string(), "T".to_string()))
    );
    let twice = remove_lyrics_from_audio(Some(once), "f", false, &mut log).unwrap();
    assert_eq!(items(&twice.tags()[0]), first);
}

#[test]
fn old_lyrics_make_no_difference() {
    let with = |old: &[(ItemKey, &str)]| {
        let mut all = vec![(ItemKey::TrackTitle, "T")];
        all.extend(old.iter().cloned());
        embed(file(FileType::Flac, vec![tag(TagType::VorbisComments, &all)]), "new")
    };
    let bare = with(&[]);
    let full = with(&[(ItemKey::Lyrics, "a"), (ItemKey::Lyrics, "b")]);
    assert_eq!(items(&bare.tags()[0]), items(&full.tags()[0]));
}

#[test]
fn a_new_tag_hides_names_in_another() {
    let tagged = file(
        FileType::Mpeg,
        vec![tag(TagType::Ape, &[(ItemKey::TrackArtist, "X"), (ItemKey::TrackTitle, "Y")])],
    );
    let mut log = String::new();
    assert_eq!(get_artist_and_title(Some(&embed(tagged, "la")), "x.mp3", false, &mut log), None);
}

#[test]
fn names_are_read_from_text_alone() {
    let mut odd = Tag::new(TagType::VorbisComments);
    odd.push(TagItem::new(ItemKey::TrackArtist, ItemValue::Locator("l".to_string())));
    odd.push(TagItem::new(ItemKey::TrackArtist, ItemValue::Text("A".to_string())));
    odd.push(TagItem::new(ItemKey::TrackTitle, ItemValue::Text("T".to_string())));
    let mut log = String::new();
    let tagged = file(FileType::Flac, vec![odd]);
    assert_eq!(get_artist_and_title(Some(&tagged), "x.flac", false, &mut log), None);
}

#[test]
fn all_else_in_a_tag_is_kept() {
    let mut tag = Tag::new(TagType::Id3v2);
    let mut comment = TagItem::new(ItemKey::Comment, ItemValue::Text("c".to_string()));
    comment.set_lang(*b"deu");
    comment.set_description("d".to_string());
    tag.push(comment);
    tag.push(TagItem::new(ItemKey::Lyrics, ItemValue::Text("old".to_string())));
    tag.push(TagItem::new(ItemKey::AudioFileUrl, ItemValue::Locator("l".to_string())));
    tag.push_unchecked(TagItem::new(ItemKey::EncoderSettings, ItemValue::Binary(vec![1, 2])));
    let picture = || {
        Picture::new_unchecked(PictureType::CoverFront, Some(MimeType::Png), None, vec![7, 8])
    };
    tag.push_picture(picture());
    let mut kept: Vec<TagItem> = tag.items().cloned().collect();
    kept.remove(1);

    let out = embed(file(FileType::Mpeg, vec![tag]), "new");
    let items: Vec<TagItem> = out.tags()[0].items().cloned().collect();
    assert_eq!(items[..3], kept[..]);
    assert_eq!(items[3], TagItem::new(ItemKey::Lyrics, ItemValue::Text("new".to_string())));
    assert_eq!(items[3].lang(), b"XXX");
    assert_eq!(items[3].description(), "");
    assert_eq!(out.tags()[0].pictures(), [picture()]);

    let mut log = String::new();
    let out = remove_lyrics_from_audio(Some(out), "f", false, &mut log).unwrap();
    let items: Vec<TagItem> = out.tags()[0].items().cloned().collect();
    assert_eq!(items, kept);
    assert_eq!(out.tags()[0].pictures(), [picture()]);
}

#[test]
fn removal_passes_over_ape_tags() {
    for ty in [FileType::Ape, FileType::Mpc, FileType::WavPack] {
        let mut log = String::new();
        let embedded = embed(file(ty, vec![]), "la");
        assert!(remove_lyrics_from_audio(Some(embedded), "f", true, &mut log).is_none());
        assert_eq!(log, "  -> No metadata tags found to clean.\n");
    }
}
