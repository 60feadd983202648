use lyrsync::files::{
    extension_of, is_audio_extension, is_json_file, is_supported_audio_file, searches_here, stem_of,
};

#[test]
fn supported_extensions() {
    for ext in ["flac", "mp3", "opus", "m4a", "mp4", "wav", "ogg"] {
        assert!(is_audio_extension(ext));
        assert!(is_supported_audio_file(true, &format!("song.{}", ext)));
        assert!(!is_supported_audio_file(false, &format!("song.{}", ext)));
    }
    for ext in ["aac", "txt", "lrc", "json", "flac2", ""] {
        assert!(!is_audio_extension(ext));
        assert!(!is_supported_audio_file(true, &format!("song.{}", ext)));
    }
}

#[test]
fn extension_case_does_not_matter() {
    assert!(is_supported_audio_file(true, "SONG.FLAC"));
    assert!(is_supported_audio_file(true, "song.Mp3"));
    assert!(!is_audio_extension("FLAC"));
}

#[test]
fn names_without_extension() {
    assert!(!is_supported_audio_file(true, "flac"));
    assert!(!is_supported_audio_file(true, ".flac"));
    assert!(!is_supported_audio_file(true, "song."));
    assert_eq!(extension_of("flac"), None);
    assert_eq!(extension_of(".flac"), None);
    assert_eq!(extension_of("song."), Some(String::new()));
    assert_eq!(extension_of(""), None);
    assert_eq!(stem_of("flac"), "flac");
    assert_eq!(stem_of(".flac"), ".flac");
    assert_eq!(stem_of("song."), "song");
    assert_eq!(stem_of(""), "");
}

#[test]
fn names_with_several_dots() {
    assert_eq!(extension_of("a.b.json"), Some("json".to_string()));
    assert_eq!(stem_of("a.b.json"), "a.b");
    assert_eq!(stem_of("..json"), ".");
}

#[test]
fn names_agree_with_paths() {
    for name in ["a", "a.b", ".a", ".a.b", "a.", "a..b", "Björk - Jóga.flac", "01. x.mp3"] {
        let path = std::path::Path::new(name);
        assert_eq!(extension_of(name), path.extension().map(|s| s.to_string_lossy().into_owned()));
        assert_eq!(stem_of(name), path.file_stem().unwrap().to_string_lossy());
    }
}

#[test]
fn json_files() {
    assert!(is_json_file("track_data.json"));
    assert!(!is_json_file("track_data.JSON"));
    assert!(!is_json_file("json"));
    assert!(!is_json_file(".json"));
    assert!(!is_json_file("a.json.txt"));
}

#[test]
fn a_bare_file_name_lies_in_the_current_directory() {
    let parent = std::path::Path::new("track.json").parent().unwrap().to_string_lossy();
    assert!(searches_here(&parent));
    assert!(!searches_here("."));
    assert!(!searches_here("music"));
}
