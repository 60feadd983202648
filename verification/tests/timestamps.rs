use lyrsync::text::chars_of;
use lyrsync::timestamps::{format_time, push_time, shift_stamps};

fn shift(text: &str, offset: i64) -> String {
    shift_stamps(&chars_of(text), offset)
}

#[test]
fn times_have_two_digits_each() {
    assert_eq!(format_time(0), "00:00.00");
    assert_eq!(format_time(1), "00:00.01");
    assert_eq!(format_time(5999), "00:59.99");
    assert_eq!(format_time(6000), "01:00.00");
    assert_eq!(format_time(12345), "02:03.45");
    assert_eq!(format_time(599_999), "99:59.99");
    assert_eq!(format_time(600_000), "100:00.00");
}

#[test]
fn times_out_of_range() {
    assert_eq!(format_time(-1), "00:00.00");
    assert_eq!(format_time(i128::MIN), "00:00.00");
    assert_eq!(format_time(i128::MAX), format_time(u64::MAX as i128));
    assert_eq!(format_time(u64::MAX as i128), "3074457345618258:36.15");
}

#[test]
fn times_are_appended() {
    let mut out = String::from("at ");
    push_time(&mut out, 150);
    assert_eq!(out, "at 00:01.50");
}

#[test]
fn stamps_move() {
    assert_eq!(shift("[00:10.00]a\n[01:00.50]b", 150), "[00:11.50]a\n[01:02.00]b");
    assert_eq!(shift("[00:10.00]a\n[01:00.50]b", -150), "[00:08.50]a\n[00:59.00]b");
    assert_eq!(shift("[00:01.00]a", -150), "[00:00.00]a");
    assert_eq!(shift("[99:59.99]a", 1), "[100:00.00]a");
    assert_eq!(shift("[00:01.00][00:02.00]a", 100), "[00:02.00][00:03.00]a");
}

#[test]
fn other_text_stays() {
    for text in [
        "",
        "[ar:Artist]",
        "00:10.00",
        "[00:10]",
        "[00:10.0]",
        "[00:60.00]",
        "[0:10.00]",
        "[000:10.00]",
        "[00:10.00",
        "[[00-10.00]]",
        "[99999999999999999999:10.00]",
        "<00:10.00>",
    ] {
        assert_eq!(shift(text, 100), text);
    }
    assert_eq!(shift("[[00:10.00]]", 100), "[[00:11.00]]");
}

#[test]
fn shift_by_nothing() {
    let text = "[ti:x]\n[00:10.00]a [00:11.11] b";
    assert_eq!(shift(text, 0), text);
}

#[test]
fn shifts_add_up() {
    let text = "[00:10.00]a\n[00:20.00]b";
    assert_eq!(shift(&shift(text, 250), -100), shift(text, 150));
    assert_eq!(shift(&shift(text, -500), 500), text);
}

#[test]
fn different_times_have_different_stamps() {
    let mut seen: Vec<String> = (0..20_000).map(format_time).collect();
    seen.sort();
    seen.dedup();
    assert_eq!(seen.len(), 20_000);
}

#[test]
fn lines_shift_alone() {
    let a = "[00:01.00]a [00:\n";
    let b = "02.00]b\n[00:03.00]c";
    assert_eq!(shift(&format!("{}{}", a, b), 100), format!("{}{}", shift(a, 100), shift(b, 100)));
}
