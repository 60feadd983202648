//! File names: their parts, and which of them are those of audio and JSON files.

use vstd::prelude::*;
use vstd::slice::slice_subrange;

use crate::text::{chars_of, lowercase, same_text, string_of};

verus! {

/// Where the extension of the file name `name` starts: behind its last dot, if that is not its
/// first character.
pub open spec fn extension_start(name: Seq<char>) -> Option<int>
    decreases name.len(),
{
    if name.len() <= 1 {
        None
    } else if name.last() == '.' {
        Some(name.len() as int)
    } else {
        extension_start(name.drop_last())
    }
}

/// The extension of the file name `name`.
pub open spec fn extension(name: Seq<char>) -> Option<Seq<char>> {
    match extension_start(name) {
        Some(start) => Some(name.skip(start)),
        None => None,
    }
}

/// The file name `name` without its extension and the dot in front of that.
pub open spec fn stem(name: Seq<char>) -> Seq<char> {
    match extension_start(name) {
        Some(start) => name.take(start - 1),
        None => name,
    }
}

/// Whether `ext`, in lower case, is the extension of a supported audio format.
pub open spec fn audio_extension(ext: Seq<char>) -> bool {
    ||| ext == "flac"@
    ||| ext == "mp3"@
    ||| ext == "opus"@
    ||| ext == "m4a"@
    ||| ext == "mp4"@
    ||| ext == "wav"@
    ||| ext == "ogg"@
}

/// Whether a file of this name is an audio file of a supported format.
pub open spec fn audio_name(name: Seq<char>) -> bool {
    match extension(name) {
        Some(ext) => audio_extension(lowercase(ext)),
        None => false,
    }
}

/// Whether a file of this name is a JSON file.
pub open spec fn json_name(name: Seq<char>) -> bool {
    extension(name) == Some("json"@)
}

/// An extension starts behind a dot that is not the first character.
pub proof fn lemma_extension_start(name: Seq<char>)
    ensures
        match extension_start(name) {
            Some(start) => {
                &&& 2 <= start <= name.len()
                &&& name[start - 1] == '.'
                &&& !name.skip(start).contains('.')
            },
            None => forall|i: int| 1 <= i < name.len() ==> name[i] != '.',
        },
    decreases name.len(),
{
    if name.len() > 1 && name.last() != '.' {
        lemma_extension_start(name.drop_last());
        match extension_start(name) {
            Some(start) => {
                assert forall|i: int| 0 <= i < name.skip(start).len() implies name.skip(start)[i]
                    != '.' by {
                    if start + i < name.len() - 1 {
                        assert(name.drop_last().skip(start).contains(
                            name.drop_last().skip(start)[i],
                        ));
                    }
                }
            },
            None => {
                assert forall|i: int| 1 <= i < name.len() implies name[i] != '.' by {
                    if i < name.len() - 1 {
                        assert(name.drop_last()[i] == name[i]);
                    }
                }
            },
        }
    }
}

/// Where the extension of `name` starts.
fn find_extension(name: &[char]) -> (r: Option<usize>)
    ensures
        match r {
            Some(start) => extension_start(name@) == Some(start as int),
            None => extension_start(name@) is None,
        },
{
    let mut n: usize = name.len();
    assert(name@.take(n as int) =~= name@);
    while n > 1
        invariant
            n <= name@.len(),
            extension_start(name@) == extension_start(name@.take(n as int)),
        decreases n,
    {
        if name[n - 1] == '.' {
            return Some(n);
        }
        assert(name@.take(n as int).drop_last() =~= name@.take(n as int - 1));
        n -= 1;
    }
    None
}

/// The extension of the file name `name`.
pub fn extension_of(name: &str) -> (r: Option<String>)
    ensures
        match r {
            Some(ext) => extension(name@) == Some(ext@),
            None => extension(name@) is None,
        },
{
    let chars = chars_of(name);
    match find_extension(chars.as_slice()) {
        Some(start) => {
            proof {
                lemma_extension_start(name@);
            }
            let ext = string_of(slice_subrange(chars.as_slice(), start, chars.len()));
            assert(ext@ =~= name@.skip(start as int));
            Some(ext)
        },
        None => None,
    }
}

/// The file name `name` without its extension.
pub fn stem_of(name: &str) -> (r: String)
    ensures
        r@ == stem(name@),
{
    let chars = chars_of(name);
    match find_extension(chars.as_slice()) {
        Some(start) => {
            proof {
                lemma_extension_start(name@);
            }
            let stem = string_of(slice_subrange(chars.as_slice(), 0, start - 1));
            assert(stem@ =~= name@.take(start - 1));
            stem
        },
        None => string_of(chars.as_slice()),
    }
}

/// Whether `lowered`, an extension in lower case, is that of a supported audio format.
pub fn is_audio_extension(lowered: &str) -> (r: bool)
    ensures
        r == audio_extension(lowered@),
{
    same_text(lowered, "flac") || same_text(lowered, "mp3") || same_text(lowered, "opus")
        || same_text(lowered, "m4a") || same_text(lowered, "mp4") || same_text(lowered, "wav")
        || same_text(lowered, "ogg")
}

/// Whether the path with the file name `name` is an audio file of a supported format. `is_file`
/// says whether there is a file at that path.
pub fn is_supported_audio_file(is_file: bool, name: &str) -> (r: bool)
    ensures
        r == (is_file && audio_name(name@)),
{
    is_file && match extension_of(name) {
        Some(ext) => is_audio_extension(ext.as_str().to_lowercase().as_str()),
        None => false,
    }
}

/// Whether the file name `name` is that of a JSON file.
pub fn is_json_file(name: &str) -> (r: bool)
    ensures
        r == json_name(name@),
{
    match extension_of(name) {
        Some(ext) => same_text(ext.as_str(), "json"),
        None => false,
    }
}

/// Whether a search in the directory `dir` is a search in the current directory: it is where
/// `dir` is empty, as the parent of a bare file name is.
pub fn searches_here(dir: &str) -> (r: bool)
    ensures
        r == (dir@.len() == 0),
{
    dir.is_empty()
}

} // verus!
