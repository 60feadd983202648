//! What a file name says of a file, in terms of the parts that it is put together from.

use vstd::prelude::*;

use crate::files::{audio_name, extension, extension_start, json_name, lemma_extension_start, stem};
use crate::text::lowercase;
use crate::walk::{components, Entry, FileKind};

verus! {

/// Where the extension of a name starts that is put together from its parts.
proof fn lemma_extension_behind_dot(base: Seq<char>, ext: Seq<char>)
    requires
        base.len() > 0,
        !ext.contains('.'),
    ensures
        extension_start(base + seq!['.'] + ext) == Some((base.len() + 1) as int),
    decreases ext.len(),
{
    let name = base + seq!['.'] + ext;
    if ext.len() > 0 {
        let less = ext.drop_last();
        assert(ext.contains(ext[ext.len() - 1]));
        assert(name.last() == ext.last());
        assert(name.drop_last() =~= base + seq!['.'] + less);
        assert forall|i: int| 0 <= i < less.len() implies less[i] != '.' by {
            assert(ext.contains(ext[i]));
        }
        lemma_extension_behind_dot(base, less);
    } else {
        assert(name.last() == '.');
    }
}

/// A name that is put together from a base, a dot and an extension without a dot has that base
/// as its stem and that extension, whatever the base is, as long as it is not empty.
pub proof fn law_names_fall_apart(base: Seq<char>, ext: Seq<char>)
    requires
        base.len() > 0,
        !ext.contains('.'),
    ensures
        extension(base + seq!['.'] + ext) == Some(ext),
        stem(base + seq!['.'] + ext) == base,
{
    let name = base + seq!['.'] + ext;
    lemma_extension_behind_dot(base, ext);
    assert(name.skip((base.len() + 1) as int) =~= ext);
    assert(name.take(base.len() as int) =~= base);
}

/// A name with no dot behind its first character has no extension, and is its own stem. It is
/// neither that of an audio file nor that of a JSON file.
pub proof fn law_names_without_extension(name: Seq<char>)
    requires
        forall|i: int| 1 <= i < name.len() ==> #[trigger] name[i] != '.',
    ensures
        extension(name) is None,
        stem(name) == name,
        !audio_name(name),
        !json_name(name),
{
    lemma_extension_start(name);
    if let Some(start) = extension_start(name) {
        assert(name[start - 1] == '.');
    }
}

/// A file is an audio file if and only if its extension, in lower case, is one of seven; what it
/// is called otherwise makes no difference. It is a JSON file if and only if its extension is
/// `json`.
pub proof fn law_extension_decides(base: Seq<char>, ext: Seq<char>)
    requires
        base.len() > 0,
        !ext.contains('.'),
    ensures
        audio_name(base + seq!['.'] + ext) <==> {
            ||| lowercase(ext) == "flac"@
            ||| lowercase(ext) == "mp3"@
            ||| lowercase(ext) == "opus"@
            ||| lowercase(ext) == "m4a"@
            ||| lowercase(ext) == "mp4"@
            ||| lowercase(ext) == "wav"@
            ||| lowercase(ext) == "ogg"@
        },
        json_name(base + seq!['.'] + ext) <==> ext == "json"@,
{
    law_names_fall_apart(base, ext);
}

/// A walk for audio files collects an entry if and only if it is a regular file with the name of
/// an audio file; one for JSON files collects it if and only if it is no directory and has the
/// name of a JSON file. Nothing else about an entry matters.
pub proof fn law_what_counts(entry: Entry)
    ensures
        entry.counts(FileKind::Audio) == (!entry.is_dir && entry.is_file && audio_name(
            entry.file.name@,
        )),
        entry.counts(FileKind::Json) == (!entry.is_dir && json_name(entry.file.name@)),
{
}

/// The components of a path are those that it is made of, in order.
pub proof fn law_components(path: Vec<Vec<u8>>)
    ensures
        components(path).len() == path@.len(),
        forall|i: int| 0 <= i < path@.len() ==> #[trigger] components(path)[i] == path@[i]@,
{
}

} // verus!
