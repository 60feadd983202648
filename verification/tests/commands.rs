use lyrsync::commands::{
    accept_file, announcement, fetch_for_audio_directory, needs_service, only_file, plan,
    refusal_text, remove_for_audio_directory, unreadable_text, Command, Options, Refusal,
};
use lyrsync::walk::FoundFile;

fn options(flags: &str, fetch: Option<&str>) -> Options {
    Options {
        has_file: flags.contains('f'),
        all: flags.contains('a'),
        auto: flags.contains('u'),
        fetch: fetch.map(|s| s.to_string()),
        remove: flags.contains('r'),
    }
}

fn planned(flags: &str, fetch: Option<&str>) -> Command {
    plan(&options(flags, fetch))
}

fn file(handle: usize, name: &str) -> FoundFile {
    FoundFile {
        handle,
        path: vec![name.as_bytes().to_vec()],
        name: name.to_string(),
        display: name.to_string(),
    }
}

#[test]
fn removal_goes_first() {
    assert_eq!(planned("ru", None), Command::RemoveAll);
    assert_eq!(planned("ra", Some("A - T")), Command::RemoveAll);
    assert_eq!(planned("rauf", Some("")), Command::RemoveAll);
    assert_eq!(planned("rf", Some("A - T")), Command::RemoveFile);
    assert_eq!(planned("r", Some("A - T")), Command::RefuseRemoval);
}

#[test]
fn fetches() {
    assert_eq!(planned("uaf", Some("A - T")), Command::FetchAuto);
    assert_eq!(planned("u", None), Command::FetchAuto);
    assert_eq!(planned("af", Some("A - T")), Command::FetchAll);
    assert_eq!(planned("f", Some("A - T")), Command::FetchQuery);
    assert_eq!(planned("f", Some(" \t")), Command::FetchFile);
    assert_eq!(planned("", Some("")), Command::FetchOnly);
}

#[test]
fn conversions() {
    assert_eq!(planned("af", None), Command::ConvertAll);
    assert_eq!(planned("f", None), Command::ConvertFile);
    assert_eq!(planned("", None), Command::Nothing);
}

#[test]
fn the_service_is_needed_for_fetches_only() {
    for flags in ["", "f", "a", "u", "r", "fa", "fu", "fr", "au", "ar", "ur", "faur"] {
        for fetch in [None, Some(""), Some("A - T")] {
            let o = options(flags, fetch);
            let expected = !o.remove && (o.auto || o.fetch.is_some());
            assert_eq!(needs_service(plan(&o)), expected);
        }
    }
}

#[test]
fn announcements() {
    assert_eq!(
        announcement(Command::RemoveAll),
        Some("Starting automatic lyric removal pipeline...")
    );
    assert_eq!(
        announcement(Command::FetchAuto),
        Some("Starting automatic audio fetch pipeline...")
    );
    assert_eq!(
        announcement(Command::FetchAll),
        Some("Starting fetch pipeline for all audio files...")
    );
    assert_eq!(
        announcement(Command::FetchOnly),
        Some("No fetch query provided; using the only audio file in the current directory.")
    );
    assert_eq!(announcement(Command::FetchFile), None);
}

#[test]
fn refusals() {
    assert_eq!(
        refusal_text(Refusal::RemoveWhat),
        "Error: Use --remove with --auto, --all, or provide a specific FILE."
    );
    assert_eq!(
        refusal_text(Refusal::RemoveNotAudio),
        "Error: FILE must be a valid audio file when used with --remove."
    );
    assert_eq!(
        refusal_text(Refusal::QueryFormat),
        "Error: --fetch query must be in \"Artist - Title\" format."
    );
    assert_eq!(
        refusal_text(Refusal::FetchNotAudio),
        "Error: FILE must be a valid audio file when used with --fetch."
    );
    assert_eq!(
        refusal_text(Refusal::NoAudioFile),
        "Error: No supported audio files found. Use --fetch \"Artist - Title\" or --fetch --all."
    );
    assert_eq!(
        refusal_text(Refusal::ManyAudioFiles),
        "Error: Multiple audio files found. Use --fetch --all, provide FILE, or pass a query."
    );
}

#[test]
fn named_files_must_be_audio_files() {
    assert_eq!(accept_file(true, true, "x.flac", Refusal::FetchNotAudio), Ok(()));
    assert_eq!(
        accept_file(true, true, "x.json", Refusal::FetchNotAudio),
        Err(Refusal::FetchNotAudio)
    );
    assert_eq!(
        accept_file(true, false, "x.flac", Refusal::RemoveNotAudio),
        Err(Refusal::RemoveNotAudio)
    );
    assert_eq!(
        accept_file(false, true, "x.flac", Refusal::RemoveNotAudio),
        Err(Refusal::RemoveNotAudio)
    );
}

#[test]
fn the_only_audio_file() {
    assert_eq!(only_file(&vec![]), Err(Refusal::NoAudioFile));
    assert_eq!(only_file(&vec![file(4, "a.mp3")]), Ok(4));
    assert_eq!(
        only_file(&vec![file(4, "a.mp3"), file(5, "b.mp3")]),
        Err(Refusal::ManyAudioFiles)
    );
}

#[test]
fn whole_directories() {
    let files = vec![file(4, "a.mp3"), file(2, "b.mp3"), file(9, "c.mp3")];
    let removal = remove_for_audio_directory(&files, ".");
    assert!(matches!(&removal, Ok(b) if b.handles == vec![4, 2, 9] && b.at_a_time == 50));
    let fetch = fetch_for_audio_directory(&files, ".");
    assert!(matches!(&fetch, Ok(b) if b.handles == vec![4, 2, 9] && b.at_a_time == 5));
    let none = "Error: No supported audio files found in ..";
    assert!(matches!(remove_for_audio_directory(&vec![], "."), Err(text) if text == none));
    assert!(matches!(fetch_for_audio_directory(&vec![], "."), Err(text) if text == none));
}

#[test]
fn unreadable_files() {
    assert_eq!(unreadable_text("x.json"), "Error: File not found or unreadable: x.json");
}
