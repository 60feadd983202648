use lyrsync::walk::{
    collect_audio_files, collect_files, collect_json_files, Entry, FileKind, FoundFile, Walk,
};

fn entry(handle: usize, path: &str, is_dir: bool, is_file: bool) -> Entry {
    let components: Vec<Vec<u8>> = path.split('/').map(|c| c.as_bytes().to_vec()).collect();
    let name = path.rsplit('/').next().unwrap().to_string();
    let file = FoundFile { handle, path: components, name, display: path.to_string() };
    Entry { file, is_dir, is_file }
}

fn file(handle: usize, path: &str) -> Entry {
    entry(handle, path, false, true)
}

fn dir(handle: usize, path: &str) -> Entry {
    entry(handle, path, true, false)
}

fn listing(handle: usize) -> Vec<Entry> {
    match handle {
        0 => vec![
            file(1, "./b.mp3"),
            dir(2, "./sub"),
            file(3, "./a.flac"),
            file(4, "./notes.txt"),
            file(5, "./data.json"),
            dir(6, "./dir.mp3"),
            entry(7, "./broken.ogg", false, false),
        ],
        2 => vec![file(8, "./sub/c.OGG"), dir(9, "./sub/deep"), file(10, "./sub/a.json")],
        9 => vec![file(11, "./sub/deep/x.wav")],
        _ => vec![],
    }
}

fn run(mut walk: Walk) -> Vec<usize> {
    while let Some(d) = walk.next_directory() {
        walk.visit(listing(d));
    }
    walk.finish().iter().map(|f| f.handle).collect()
}

#[test]
fn walk_of_one_directory() {
    assert_eq!(run(collect_audio_files(0, false)), vec![3, 1]);
    assert_eq!(run(collect_json_files(0, false)), vec![5]);
}

#[test]
fn walk_of_a_tree() {
    assert_eq!(run(collect_audio_files(0, true)), vec![3, 1, 8, 11]);
    assert_eq!(run(collect_json_files(0, true)), vec![5, 10]);
    assert_eq!(run(collect_files(9, true, FileKind::Audio)), vec![11]);
}

#[test]
fn walk_takes_the_last_directory_first() {
    let mut walk = collect_files(0, true, FileKind::Audio);
    assert_eq!(walk.next_directory(), Some(0));
    walk.visit(listing(0));
    assert_eq!(walk.next_directory(), Some(6));
    walk.visit(vec![]);
    assert_eq!(walk.next_directory(), Some(2));
    assert_eq!(walk.next_directory(), None);
    assert_eq!(walk.next_directory(), None);
}

#[test]
fn json_walk_does_not_ask_for_a_regular_file() {
    let mut walk = collect_json_files(0, false);
    walk.visit(vec![entry(1, "./x.json", false, false)]);
    assert_eq!(walk.finish().len(), 1);
}

#[test]
fn files_are_ordered_like_paths() {
    let names = ["./b", "./a/z", "./a b", "./a", "./a/b/c", "./ä", "./B", "./a.x", "./a/b", "."];
    let mut walk = collect_files(0, false, FileKind::Json);
    let entries: Vec<Entry> =
        names.iter().enumerate().map(|(i, n)| file(i, &format!("{}/1.json", n))).collect();
    walk.visit(entries);
    let found: Vec<String> = walk.finish().iter().map(|f| f.display.clone()).collect();
    let mut expected: Vec<std::path::PathBuf> =
        names.iter().map(|n| std::path::PathBuf::from(format!("{}/1.json", n))).collect();
    expected.sort();
    let expected: Vec<String> = expected.iter().map(|p| p.display().to_string()).collect();
    assert_eq!(found, expected);
}

#[test]
fn order_does_not_depend_on_the_listing() {
    let mut forward = collect_files(0, false, FileKind::Audio);
    forward.visit(listing(0));
    let mut backward = collect_files(0, false, FileKind::Audio);
    let mut entries = listing(0);
    entries.reverse();
    backward.visit(entries);
    let a: Vec<usize> = forward.finish().iter().map(|f| f.handle).collect();
    let b: Vec<usize> = backward.finish().iter().map(|f| f.handle).collect();
    assert_eq!(a, b);
}

#[test]
fn recursion_only_adds_files() {
    let in_root = |handles: Vec<usize>| -> Vec<usize> {
        let root: Vec<usize> = listing(0).iter().map(|e| e.file.handle).collect();
        handles.into_iter().filter(|h| root.contains(h)).collect()
    };
    assert_eq!(run(collect_audio_files(0, false)), in_root(run(collect_audio_files(0, true))));
    assert_eq!(run(collect_json_files(0, false)), in_root(run(collect_json_files(0, true))));
}

#[test]
fn no_file_is_collected_twice() {
    for found in [run(collect_audio_files(0, true)), run(collect_json_files(0, true))] {
        let mut once = found.clone();
        once.sort();
        once.dedup();
        assert_eq!(once.len(), found.len());
    }
}

#[test]
fn unreachable_directories_are_not_listed() {
    let mut walk = collect_files(2, true, FileKind::Audio);
    let mut listed = vec![];
    while let Some(d) = walk.next_directory() {
        listed.push(d);
        walk.visit(listing(d));
    }
    assert_eq!(listed, vec![2, 9]);
}

#[test]
fn order_does_not_depend_on_the_handles() {
    let paths = |order: [&str; 3]| -> Vec<String> {
        let mut walk = collect_files(0, false, FileKind::Json);
        walk.visit(order.iter().enumerate().map(|(i, p)| file(i, p)).collect());
        walk.finish().iter().map(|f| f.display.clone()).collect()
    };
    let expected = vec!["./a.json", "./b.json", "./c.json"];
    assert_eq!(paths(["./c.json", "./a.json", "./b.json"]), expected);
    assert_eq!(paths(["./b.json", "./c.json", "./a.json"]), expected);
}
