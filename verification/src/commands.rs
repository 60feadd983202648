//! What a command line asks for, and how it is answered.

use vstd::prelude::*;
use vstd::string::StringExecFns;

use crate::files::{audio_name, is_supported_audio_file};
use crate::text::{chars_of, lemma_trim_keeps, str_view, trim, trim_of, white_space, CharClass};
use crate::text_laws::law_trim_cuts_the_edges;
use crate::walk::FoundFile;

verus! {

/// How many audio files are cleared of lyrics at a time.
pub const REMOVALS_AT_A_TIME: usize = 50;

/// For how many audio files the lyrics service is asked at a time.
pub const FETCHES_AT_A_TIME: usize = 5;

/// The options that decide what is done.
pub struct Options {
    /// Whether a file is named.
    pub has_file: bool,
    /// Whether all files are to be processed.
    pub all: bool,
    /// Whether all audio files are to be processed, with lyrics from the lyrics service.
    pub auto: bool,
    /// The query for the lyrics service, where lyrics are to come from there.
    pub fetch: Option<String>,
    /// Whether lyrics are to be removed.
    pub remove: bool,
}

/// What is to be done.
#[derive(Clone, Copy, Debug, PartialEq, Eq, Structural)]
pub enum Command {
    /// Remove the lyrics of all audio files.
    RemoveAll,
    /// Remove the lyrics of the named file.
    RemoveFile,
    /// Get lyrics for all audio files.
    FetchAuto,
    /// Get lyrics for all audio files, as asked for together with a fetch.
    FetchAll,
    /// Get the lyrics that the query asks for.
    FetchQuery,
    /// Get lyrics for the named file.
    FetchFile,
    /// Get lyrics for the only audio file that there is.
    FetchOnly,
    /// Convert all JSON files.
    ConvertAll,
    /// Convert the named file.
    ConvertFile,
    /// Complain that there is nothing to remove lyrics from.
    RefuseRemoval,
    /// Nothing.
    Nothing,
}

/// Why a command cannot be carried out.
#[derive(Clone, Copy, Debug, PartialEq, Eq, Structural)]
pub enum Refusal {
    /// There is nothing to remove lyrics from.
    RemoveWhat,
    /// The file to remove lyrics from is no audio file.
    RemoveNotAudio,
    /// The query does not name an artist and a title.
    QueryFormat,
    /// The file to get lyrics for is no audio file.
    FetchNotAudio,
    /// There is no audio file to get lyrics for.
    NoAudioFile,
    /// There are several audio files to get lyrics for.
    ManyAudioFiles,
}

/// What a command line asks for. A removal goes before everything else; then comes the automatic
/// fetch, then any other fetch, and a conversion only where nothing is to be fetched.
pub open spec fn planned(options: Options) -> Command {
    if options.remove {
        if options.auto || options.all {
            Command::RemoveAll
        } else if options.has_file {
            Command::RemoveFile
        } else {
            Command::RefuseRemoval
        }
    } else if options.auto {
        Command::FetchAuto
    } else {
        match options.fetch {
            Some(query) => if options.all {
                Command::FetchAll
            } else if trim(query@, CharClass::Space).len() > 0 {
                Command::FetchQuery
            } else if options.has_file {
                Command::FetchFile
            } else {
                Command::FetchOnly
            },
            None => if options.all {
                Command::ConvertAll
            } else if options.has_file {
                Command::ConvertFile
            } else {
                Command::Nothing
            },
        }
    }
}

/// Whether a command gets lyrics from the lyrics service.
pub open spec fn fetches(command: Command) -> bool {
    match command {
        Command::FetchAuto
        | Command::FetchAll
        | Command::FetchQuery
        | Command::FetchFile
        | Command::FetchOnly => true,
        _ => false,
    }
}

/// What a command line asks for.
pub fn plan(options: &Options) -> (command: Command)
    ensures
        command == planned(*options),
{
    if options.remove {
        if options.auto || options.all {
            return Command::RemoveAll;
        }
        if options.has_file {
            return Command::RemoveFile;
        }
        return Command::RefuseRemoval;
    }
    if options.auto {
        return Command::FetchAuto;
    }
    match &options.fetch {
        Some(query) => {
            if options.all {
                return Command::FetchAll;
            }
            let chars = chars_of(query.as_str());
            if trim_of(chars.as_slice(), CharClass::Space).len() > 0 {
                Command::FetchQuery
            } else if options.has_file {
                Command::FetchFile
            } else {
                Command::FetchOnly
            }
        },
        None => {
            if options.all {
                Command::ConvertAll
            } else if options.has_file {
                Command::ConvertFile
            } else {
                Command::Nothing
            }
        },
    }
}

/// Whether the lyrics service is needed.
pub fn needs_service(command: Command) -> (r: bool)
    ensures
        r == fetches(command),
{
    match command {
        Command::FetchAuto
        | Command::FetchAll
        | Command::FetchQuery
        | Command::FetchFile
        | Command::FetchOnly => true,
        _ => false,
    }
}

/// What is said before a command is carried out.
pub open spec fn announced(command: Command) -> Option<Seq<char>> {
    match command {
        Command::RemoveAll => Some("Starting automatic lyric removal pipeline..."@),
        Command::FetchAuto => Some("Starting automatic audio fetch pipeline..."@),
        Command::FetchAll => Some("Starting fetch pipeline for all audio files..."@),
        Command::FetchOnly => Some(
            "No fetch query provided; using the only audio file in the current directory."@,
        ),
        _ => None,
    }
}

/// What is said before a command is carried out.
pub fn announcement(command: Command) -> (r: Option<&'static str>)
    ensures
        str_view(r) == announced(command),
{
    match command {
        Command::RemoveAll => Some("Starting automatic lyric removal pipeline..."),
        Command::FetchAuto => Some("Starting automatic audio fetch pipeline..."),
        Command::FetchAll => Some("Starting fetch pipeline for all audio files..."),
        Command::FetchOnly => Some(
            "No fetch query provided; using the only audio file in the current directory.",
        ),
        _ => None,
    }
}

/// What is said of a command that cannot be carried out.
pub open spec fn complaint(refusal: Refusal) -> Seq<char> {
    match refusal {
        Refusal::RemoveWhat =>
            "Error: Use --remove with --auto, --all, or provide a specific FILE."@,
        Refusal::RemoveNotAudio =>
            "Error: FILE must be a valid audio file when used with --remove."@,
        Refusal::QueryFormat => "Error: --fetch query must be in \"Artist - Title\" format."@,
        Refusal::FetchNotAudio => "Error: FILE must be a valid audio file when used with --fetch."@,
        Refusal::NoAudioFile =>
            "Error: No supported audio files found. Use --fetch \"Artist - Title\" or --fetch --all."@,
        Refusal::ManyAudioFiles =>
            "Error: Multiple audio files found. Use --fetch --all, provide FILE, or pass a query."@,
    }
}

/// What is said of a command that cannot be carried out.
pub fn refusal_text(refusal: Refusal) -> (r: &'static str)
    ensures
        r@ == complaint(refusal),
{
    match refusal {
        Refusal::RemoveWhat =>
            "Error: Use --remove with --auto, --all, or provide a specific FILE.",
        Refusal::RemoveNotAudio =>
            "Error: FILE must be a valid audio file when used with --remove.",
        Refusal::QueryFormat => "Error: --fetch query must be in \"Artist - Title\" format.",
        Refusal::FetchNotAudio => "Error: FILE must be a valid audio file when used with --fetch.",
        Refusal::NoAudioFile =>
            "Error: No supported audio files found. Use --fetch \"Artist - Title\" or --fetch --all.",
        Refusal::ManyAudioFiles =>
            "Error: Multiple audio files found. Use --fetch --all, provide FILE, or pass a query.",
    }
}

/// Checks that the file named on the command line is an audio file: its name is `name`, and
/// `exists` and `is_file` say what there is at its path.
pub fn accept_file(
    exists: bool,
    is_file: bool,
    name: &str,
    refusal: Refusal,
) -> (r: Result<(), Refusal>)
    ensures
        r == (if exists && is_file && audio_name(name@) {
            Ok::<(), Refusal>(())
        } else {
            Err(refusal)
        }),
{
    if exists && is_supported_audio_file(is_file, name) {
        Ok(())
    } else {
        Err(refusal)
    }
}

/// The handle of the only one of `files`.
pub fn only_file(files: &Vec<FoundFile>) -> (r: Result<usize, Refusal>)
    ensures
        r == (if files@.len() == 0 {
            Err::<usize, Refusal>(Refusal::NoAudioFile)
        } else if files@.len() == 1 {
            Ok(files@[0].handle)
        } else {
            Err(Refusal::ManyAudioFiles)
        }),
{
    if files.len() == 0 {
        Err(Refusal::NoAudioFile)
    } else if files.len() == 1 {
        Ok(files[0].handle)
    } else {
        Err(Refusal::ManyAudioFiles)
    }
}

/// Files that are processed at the same time, but not too many of them.
pub struct Batch {
    /// The handles of the files, in order.
    pub handles: Vec<usize>,
    /// How many files are processed at a time.
    pub at_a_time: usize,
}

/// The handles of all files, or the complaint that there are none in the directory `dir`.
pub open spec fn is_batch(
    r: Result<Batch, String>,
    files: Seq<FoundFile>,
    dir: Seq<char>,
    at_a_time: usize,
) -> bool {
    match r {
        Ok(batch) => {
            &&& files.len() > 0
            &&& batch.handles@ == files.map_values(|f: FoundFile| f.handle)
            &&& batch.at_a_time == at_a_time
        },
        Err(text) => {
            &&& files.len() == 0
            &&& text@ == "Error: No supported audio files found in "@ + dir + "."@
        },
    }
}

/// The handles of all files, or the complaint that there are none in the directory `dir`.
fn batch_of(files: &Vec<FoundFile>, dir: &str, at_a_time: usize) -> (r: Result<Batch, String>)
    ensures
        is_batch(r, files@, dir@, at_a_time),
{
    if files.len() == 0 {
        let mut text = String::new();
        text.append("Error: No supported audio files found in ");
        text.append(dir);
        text.append(".");
        assert(text@ =~= "Error: No supported audio files found in "@ + dir@ + "."@);
        return Err(text);
    }
    let ghost all = files@.map_values(|f: FoundFile| f.handle);
    let mut handles: Vec<usize> = Vec::new();
    let mut i: usize = 0;
    while i < files.len()
        invariant
            i <= files@.len(),
            all == files@.map_values(|f: FoundFile| f.handle),
            handles@ =~= all.take(i as int),
        decreases files@.len() - i,
    {
        handles.push(files[i].handle);
        i += 1;
    }
    assert(all.take(all.len() as int) =~= all);
    Ok(Batch { handles, at_a_time })
}

/// The audio files of the directory `dir`, to be cleared of lyrics.
pub fn remove_for_audio_directory(files: &Vec<FoundFile>, dir: &str) -> (r: Result<Batch, String>)
    ensures
        is_batch(r, files@, dir@, REMOVALS_AT_A_TIME),
{
    batch_of(files, dir, REMOVALS_AT_A_TIME)
}

/// The audio files of the directory `dir`, to get lyrics for.
pub fn fetch_for_audio_directory(files: &Vec<FoundFile>, dir: &str) -> (r: Result<Batch, String>)
    ensures
        is_batch(r, files@, dir@, FETCHES_AT_A_TIME),
{
    batch_of(files, dir, FETCHES_AT_A_TIME)
}

/// What is said of a file at the path `display` that cannot be read.
pub fn unreadable_text(display: &str) -> (text: String)
    ensures
        text@ == "Error: File not found or unreadable: "@ + display@,
{
    let mut text = String::new();
    text.append("Error: File not found or unreadable: ");
    text.append(display);
    assert(text@ =~= "Error: File not found or unreadable: "@ + display@);
    text
}

/// A removal goes before everything else: whatever other options there are, nothing is fetched
/// and nothing converted.
pub proof fn law_removal_goes_first(options: Options)
    requires
        options.remove,
    ensures
        planned(options) is RemoveAll || planned(options) is RemoveFile || planned(
            options,
        ) is RefuseRemoval,
        !fetches(planned(options)),
{
}

/// The lyrics service is needed if and only if a fetch is asked for and no removal.
pub proof fn law_service_only_for_fetches(options: Options)
    ensures
        fetches(planned(options)) == (!options.remove && (options.auto || options.fetch is Some)),
{
}

/// A fetch goes before a conversion. The automatic one goes before all others, then one for all
/// files, then one for a query that is more than white space, then one for the named file, and
/// then one for the only file.
pub proof fn law_which_fetch(options: Options)
    requires
        !options.remove,
    ensures
        planned(options) is FetchAuto <==> options.auto,
        !options.auto ==> match options.fetch {
            Some(query) => {
                let asks = exists|i: int|
                    0 <= i < query@.len() && !white_space(#[trigger] query@[i]);
                &&& planned(options) is FetchAll <==> options.all
                &&& planned(options) is FetchQuery <==> !options.all && asks
                &&& planned(options) is FetchFile <==> !options.all && !asks && options.has_file
                &&& planned(options) is FetchOnly <==> !options.all && !asks && !options.has_file
            },
            None => !fetches(planned(options)),
        },
{
    if let Some(query) = options.fetch {
        let empty = Seq::<char>::empty();
        if exists|i: int| 0 <= i < query@.len() && !white_space(#[trigger] query@[i]) {
            let i = choose|i: int| 0 <= i < query@.len() && !white_space(#[trigger] query@[i]);
            lemma_trim_keeps(query@, CharClass::Space, i);
            let t = trim(query@, CharClass::Space);
            let j = choose|j: int| 0 <= j < t.len() && t[j] == query@[i];
            assert(t.len() > 0);
        } else {
            assert(query@ =~= query@ + empty + empty);
            law_trim_cuts_the_edges(query@, empty, empty, CharClass::Space);
        }
    }
}

/// A conversion is for all files where that is asked for, or else for the named file; a removal
/// is for all files, or else for the named file, and needs one of them.
pub proof fn law_which_conversion_or_removal(options: Options)
    ensures
        !options.remove && !options.auto && options.fetch is None ==> {
            &&& planned(options) is ConvertAll <==> options.all
            &&& planned(options) is ConvertFile <==> !options.all && options.has_file
            &&& planned(options) is Nothing <==> !options.all && !options.has_file
        },
        options.remove ==> {
            &&& planned(options) is RemoveAll <==> options.auto || options.all
            &&& planned(options) is RemoveFile <==> !options.auto && !options.all
                && options.has_file
            &&& planned(options) is RefuseRemoval <==> !options.auto && !options.all
                && !options.has_file
        },
{
}

/// A batch holds every file, each in its place, however many there are; without files there is
/// none.
pub proof fn law_batch_holds_every_file(
    r: Result<Batch, String>,
    files: Seq<FoundFile>,
    dir: Seq<char>,
    at_a_time: usize,
)
    requires
        is_batch(r, files, dir, at_a_time),
    ensures
        r is Ok <==> files.len() > 0,
        r matches Ok(batch) ==> {
            &&& batch.at_a_time == at_a_time
            &&& batch.handles@.len() == files.len()
            &&& forall|i: int|
                0 <= i < files.len() ==> #[trigger] batch.handles@[i] == files[i].handle
        },
        r matches Err(text) ==> text@ == "Error: No supported audio files found in "@ + dir
            + "."@,
        REMOVALS_AT_A_TIME == 50,
        FETCHES_AT_A_TIME == 5,
{
}

} // verus!
