use lyrsync::matching::{
    find_matching_audio_file, fold_lowered, names_match, normalize_string, strip_accent,
};
use lyrsync::walk::FoundFile;

fn file(handle: usize, name: &str) -> FoundFile {
    FoundFile {
        handle,
        path: vec![name.as_bytes().to_vec()],
        name: name.to_string(),
        display: format!("./{}", name),
    }
}

#[test]
fn accents_are_stripped() {
    for (accented, plain) in [
        ("àáâãäåāăąǎǟǡǻȁȃȧḁạảấầẩẫậắằẳẵặ", 'a'),
        ("ḃḅḇ", 'b'),
        ("çćĉċčḉ", 'c'),
        ("ďḋḍḏḑḓ", 'd'),
        ("èéêëēĕėęěȅȇȩḕḗḙḛḝẹẻẽếềểễệ", 'e'),
        ("ḟ", 'f'),
        ("ĝğġģǧǵḡ", 'g'),
        ("ĥȟḣḥḧḩḫẖ", 'h'),
        ("ìíîïĩīĭįǐȉȋḭḯỉịı", 'i'),
        ("ĵǰ", 'j'),
        ("ķǩḱḳḵ", 'k'),
        ("ĺļľḷḹḻḽ", 'l'),
        ("ḿṁṃ", 'm'),
        ("ñńņňǹṅṇṉṋ", 'n'),
        ("òóôõöōŏőơǒǫǭȍȏȫȭȯȱṍṏṑṓọỏốồổỗộớờởỡợ", 'o'),
        ("ṕṗ", 'p'),
        ("ŕŗřȑȓṙṛṝṟ", 'r'),
        ("śŝşšșṡṣṥṧṩ", 's'),
        ("ţťțṫṭṯṱẗ", 't'),
        ("ùúûüũūŭůűųưǔǖǘǚǜȕȗṳṵṷṹṻụủứừửữự", 'u'),
        ("ṽṿ", 'v'),
        ("ŵẁẃẅẇẉẘ", 'w'),
        ("ẋẍ", 'x'),
        ("ýÿŷȳẏẙỳỵỷỹ", 'y'),
        ("źżžẑẓẕ", 'z'),
        ("ǣǽ", 'æ'),
        ("ǿ", 'ø'),
        ("ẛ", 'ſ'),
        ("ǯ", 'ʒ'),
    ] {
        for c in accented.chars() {
            assert_eq!(strip_accent(c), plain);
        }
        assert_eq!(strip_accent(plain), plain);
    }
    for c in "abzøłßþ1 -ήй".chars() {
        assert_eq!(strip_accent(c), c);
    }
}

#[test]
fn names_are_normalized() {
    assert_eq!(normalize_string("Björk - Jóga"), "bjorkjoga");
    assert_eq!(normalize_string("Bjork - Joga"), "bjorkjoga");
    assert_eq!(normalize_string("ÀÉ 1½ №!"), "ae1½");
    assert_eq!(normalize_string("Beyonc\u{e9}"), "beyonce");
    assert_eq!(normalize_string("Beyonce\u{301}"), "beyonce");
    assert_eq!(normalize_string("Dvořák: Růžičková, Łódź"), "dvorakruzickovałodz");
    assert_eq!(normalize_string("Sơn Tùng M-TP"), "sontungmtp");
    assert_eq!(normalize_string("İstanbul Işık"), "istanbulisik");
    assert_eq!(normalize_string("... --- !!!"), "");
    assert_eq!(fold_lowered("ñ-n"), "nn");
    assert_eq!(fold_lowered("AB"), "AB");
}

#[test]
fn folding_twice_is_folding_once() {
    for name in ["björk - jóga", "şarkı_1", "a (b)"] {
        let once = fold_lowered(name);
        assert_eq!(fold_lowered(&once), once);
    }
}

#[test]
fn names_match_in_both_directions() {
    assert!(names_match("abc", "b"));
    assert!(names_match("b", "abc"));
    assert!(names_match("abc", "abc"));
    assert!(names_match("abc", ""));
    assert!(!names_match("abc", "ac"));
}

#[test]
fn the_first_match_is_taken() {
    let files = vec![
        file(7, "Other.mp3"),
        file(8, "01 Björk - Jóga (Live).flac"),
        file(9, "Bjork - Joga.mp3"),
    ];
    let mut log = String::new();
    assert_eq!(find_matching_audio_file("Bjork - Joga", &files, false, &mut log), Some(1));
    assert_eq!(log, "");
    assert_eq!(find_matching_audio_file("Bjork - Joga", &files, true, &mut log), Some(1));
    assert_eq!(
        log,
        "[DEBUG] Matched './01 Björk - Jóga (Live).flac' for target 'Bjork - Joga'\n"
    );
}

#[test]
fn a_longer_name_matches_too() {
    let files = vec![file(0, "Joga.mp3")];
    let mut log = String::new();
    assert_eq!(find_matching_audio_file("Björk - Jóga", &files, false, &mut log), Some(0));
}

#[test]
fn the_extension_does_not_count() {
    let files = vec![file(0, "a.mp3")];
    let mut log = String::new();
    assert_eq!(find_matching_audio_file("mp3", &files, true, &mut log), None);
    assert_eq!(log, "");
}

#[test]
fn nothing_matches_an_empty_name() {
    let files = vec![file(0, "a.mp3"), file(1, "---.mp3")];
    let mut log = String::new();
    assert_eq!(find_matching_audio_file("", &files, true, &mut log), None);
    assert_eq!(find_matching_audio_file("?!", &files, true, &mut log), None);
    assert_eq!(find_matching_audio_file("b", &vec![], true, &mut log), None);
    assert_eq!(log, "");
}

#[test]
fn a_file_without_letters_matches_every_name() {
    let files = vec![file(0, "---.mp3")];
    let mut log = String::new();
    assert_eq!(find_matching_audio_file("b", &files, false, &mut log), Some(0));
}

#[test]
fn accents_do_not_break_a_match() {
    let mut log = String::new();
    for (accented, plain) in [
        ("Beyoncé - Déjà Vu", "Beyonce - Deja Vu"),
        ("Sigur Rós - Sæglópur", "Sigur Ros - Sæglopur"),
        ("Häagen - Ångström", "Haagen - Angstrom"),
        ("Antônio Carlos - Águas de Março", "Antonio Carlos - Aguas de Marco"),
    ] {
        assert_eq!(normalize_string(accented), normalize_string(plain));
        let files = vec![file(0, &format!("{}.flac", accented))];
        assert_eq!(find_matching_audio_file(plain, &files, false, &mut log), Some(0));
        let files = vec![file(0, &format!("{}.flac", plain))];
        assert_eq!(find_matching_audio_file(accented, &files, false, &mut log), Some(0));
    }
}
