//! The walk through a directory tree that collects files.
//!
//! The walk itself reads no directory: it says which directory to list next and takes in what
//! the listing shows.

use vstd::prelude::*;

use crate::files::{audio_name, is_json_file, is_supported_audio_file, json_name};

verus! {

/// A file that a walk has come across.
pub struct FoundFile {
    /// A number by which the caller finds the file again.
    pub handle: usize,
    /// The components of the file's path, as bytes, the outermost first.
    pub path: Vec<Vec<u8>>,
    /// The last component of the path, as text.
    pub name: String,
    /// The whole path, as text.
    pub display: String,
}

/// One entry of a directory.
pub struct Entry {
    /// What the entry is called.
    pub file: FoundFile,
    /// Whether it is a directory.
    pub is_dir: bool,
    /// Whether it is a regular file.
    pub is_file: bool,
}

/// The files that a walk collects.
#[derive(Clone, Copy, Debug, PartialEq, Eq, Structural)]
pub enum FileKind {
    Audio,
    Json,
}

/// A walk through a directory tree.
pub struct Walk {
    /// The handles of the directories that are still to be listed, the next one at the end.
    pub pending: Vec<usize>,
    /// The files collected so far, in the order of their paths.
    pub files: Vec<FoundFile>,
    /// Whether the walk goes into the directories that it finds.
    pub recursive: bool,
    /// The files to collect.
    pub kind: FileKind,
}

/// Whether `a` comes before `b` in the order of byte strings.
pub open spec fn bytes_before(a: Seq<u8>, b: Seq<u8>) -> bool
    decreases b.len(),
{
    if b.len() == 0 {
        false
    } else if a.len() == 0 {
        true
    } else if a[0] != b[0] {
        a[0] < b[0]
    } else {
        bytes_before(a.skip(1), b.skip(1))
    }
}

/// Whether `a` comes before `b` in the order of paths: component by component.
pub open spec fn path_before(a: Seq<Seq<u8>>, b: Seq<Seq<u8>>) -> bool
    decreases b.len(),
{
    if b.len() == 0 {
        false
    } else if a.len() == 0 {
        true
    } else if a[0] != b[0] {
        bytes_before(a[0], b[0])
    } else {
        path_before(a.skip(1), b.skip(1))
    }
}

/// The components of a path.
pub open spec fn components(path: Vec<Vec<u8>>) -> Seq<Seq<u8>> {
    path@.map_values(|c: Vec<u8>| c@)
}

/// Whether the path of `a` comes before that of `b`.
pub open spec fn file_before(a: FoundFile, b: FoundFile) -> bool {
    path_before(components(a.path), components(b.path))
}

/// Whether `files` stand in the order of their paths.
pub open spec fn in_order(files: Seq<FoundFile>) -> bool {
    forall|i: int, j: int| 0 <= i < j < files.len() ==> !file_before(files[j], files[i])
}

/// Where `file` belongs in `files`: in front of the first one that it comes before.
pub open spec fn place(files: Seq<FoundFile>, file: FoundFile) -> int
    decreases files.len(),
{
    if files.len() == 0 || file_before(file, files[0]) {
        0
    } else {
        1 + place(files.skip(1), file)
    }
}

impl Entry {
    /// Whether a walk that collects `kind` collects this entry.
    pub open spec fn counts(self, kind: FileKind) -> bool {
        !self.is_dir && match kind {
            FileKind::Audio => self.is_file && audio_name(self.file.name@),
            FileKind::Json => json_name(self.file.name@),
        }
    }
}

/// `files` and those of `entries` that count, each put in its place.
pub open spec fn with_entries(
    files: Seq<FoundFile>,
    entries: Seq<Entry>,
    kind: FileKind,
) -> Seq<FoundFile>
    decreases entries.len(),
{
    if entries.len() == 0 {
        files
    } else {
        let before = with_entries(files, entries.drop_last(), kind);
        if entries.last().counts(kind) {
            before.insert(place(before, entries.last().file), entries.last().file)
        } else {
            before
        }
    }
}

/// The handles of the directories among `entries`.
pub open spec fn directories(entries: Seq<Entry>) -> Seq<usize>
    decreases entries.len(),
{
    if entries.len() == 0 {
        Seq::empty()
    } else if entries.last().is_dir {
        directories(entries.drop_last()).push(entries.last().file.handle)
    } else {
        directories(entries.drop_last())
    }
}

/// No byte string comes before itself, and of two different ones one comes before the other.
proof fn lemma_bytes_order(a: Seq<u8>, b: Seq<u8>)
    ensures
        bytes_before(a, b) ==> !bytes_before(b, a) && a != b,
        !bytes_before(a, b) && !bytes_before(b, a) ==> a == b,
    decreases b.len(),
{
    if a.len() > 0 && b.len() > 0 && a[0] == b[0] {
        lemma_bytes_order(a.skip(1), b.skip(1));
        if a.skip(1) == b.skip(1) {
            assert(a =~= seq![a[0]] + a.skip(1));
            assert(b =~= seq![b[0]] + b.skip(1));
        }
    } else if a.len() == 0 && b.len() == 0 {
        assert(a =~= b);
    }
}

/// The order of byte strings is transitive.
proof fn lemma_bytes_transitive(a: Seq<u8>, b: Seq<u8>, c: Seq<u8>)
    requires
        bytes_before(a, b),
        bytes_before(b, c),
    ensures
        bytes_before(a, c),
    decreases c.len(),
{
    if a.len() > 0 && a[0] == b[0] && b[0] == c[0] {
        lemma_bytes_transitive(a.skip(1), b.skip(1), c.skip(1));
    }
}

/// No path comes before itself, and of two different ones one comes before the other.
pub proof fn lemma_path_order(a: Seq<Seq<u8>>, b: Seq<Seq<u8>>)
    ensures
        path_before(a, b) ==> !path_before(b, a) && a != b,
        !path_before(a, b) && !path_before(b, a) ==> a == b,
    decreases b.len(),
{
    if a.len() > 0 && b.len() > 0 {
        lemma_bytes_order(a[0], b[0]);
        if a[0] == b[0] {
            lemma_path_order(a.skip(1), b.skip(1));
            if a.skip(1) == b.skip(1) {
                assert(a =~= seq![a[0]] + a.skip(1));
                assert(b =~= seq![b[0]] + b.skip(1));
            }
        }
    } else if a.len() == 0 && b.len() == 0 {
        assert(a =~= b);
    }
}

/// The order of paths is transitive.
pub proof fn lemma_path_transitive(a: Seq<Seq<u8>>, b: Seq<Seq<u8>>, c: Seq<Seq<u8>>)
    requires
        path_before(a, b),
        path_before(b, c),
    ensures
        path_before(a, c),
    decreases c.len(),
{
    if a.len() > 0 {
        lemma_bytes_order(a[0], b[0]);
        lemma_bytes_order(b[0], c[0]);
        lemma_bytes_order(a[0], c[0]);
        if a[0] == b[0] && b[0] == c[0] {
            lemma_path_transitive(a.skip(1), b.skip(1), c.skip(1));
        } else if a[0] != b[0] && b[0] != c[0] {
            lemma_bytes_transitive(a[0], b[0], c[0]);
        }
    }
}

/// In a list that is in order, the place of a file is behind all that do not come after it.
proof fn lemma_place(files: Seq<FoundFile>, file: FoundFile, p: int)
    requires
        0 <= p <= files.len(),
        forall|i: int| 0 <= i < p ==> !file_before(file, #[trigger] files[i]),
        p < files.len() ==> file_before(file, files[p]),
    ensures
        place(files, file) == p,
    decreases files.len(),
{
    if p > 0 {
        assert(!file_before(file, files[0]));
        assert forall|i: int| 0 <= i < p - 1 implies !file_before(
            file,
            #[trigger] files.skip(1)[i],
        ) by {
            assert(files.skip(1)[i] == files[i + 1]);
        }
        lemma_place(files.skip(1), file, p - 1);
    }
}

/// In a list that is in order, what comes before one file comes before all behind that.
pub proof fn lemma_before_rest(files: Seq<FoundFile>, file: FoundFile, m: int, n: int)
    requires
        in_order(files),
        0 <= m <= n < files.len(),
        file_before(file, files[m]),
    ensures
        file_before(file, files[n]),
{
    if m < n {
        let f = components(file.path);
        let a = components(files[m].path);
        let b = components(files[n].path);
        assert(!file_before(files[n], files[m]));
        lemma_path_order(a, b);
        if path_before(a, b) {
            lemma_path_transitive(f, a, b);
        }
    }
}

/// Whether `a` comes before `b` in the order of byte strings.
fn is_bytes_before(a: &Vec<u8>, b: &Vec<u8>) -> (r: bool)
    ensures
        r == bytes_before(a@, b@),
{
    let mut i: usize = 0;
    assert(a@.skip(0) =~= a@);
    assert(b@.skip(0) =~= b@);
    while i < a.len() && i < b.len()
        invariant
            i <= a@.len(),
            i <= b@.len(),
            bytes_before(a@, b@) == bytes_before(a@.skip(i as int), b@.skip(i as int)),
        decreases a@.len() - i,
    {
        if a[i] != b[i] {
            return a[i] < b[i];
        }
        assert(a@.skip(i as int).skip(1) =~= a@.skip(i as int + 1));
        assert(b@.skip(i as int).skip(1) =~= b@.skip(i as int + 1));
        i += 1;
    }
    i < b.len()
}

/// Whether `a` comes before `b` in the order of paths.
fn is_path_before(a: &Vec<Vec<u8>>, b: &Vec<Vec<u8>>) -> (r: bool)
    ensures
        r == path_before(components(*a), components(*b)),
{
    let ghost x = components(*a);
    let ghost y = components(*b);
    let mut i: usize = 0;
    assert(x.skip(0) =~= x);
    assert(y.skip(0) =~= y);
    while i < a.len() && i < b.len()
        invariant
            i <= a@.len(),
            i <= b@.len(),
            x == components(*a),
            y == components(*b),
            path_before(x, y) == path_before(x.skip(i as int), y.skip(i as int)),
        decreases a@.len() - i,
    {
        proof {
            lemma_bytes_order(x[i as int], y[i as int]);
        }
        if is_bytes_before(&a[i], &b[i]) {
            return true;
        }
        if is_bytes_before(&b[i], &a[i]) {
            return false;
        }
        assert(x.skip(i as int).skip(1) =~= x.skip(i as int + 1));
        assert(y.skip(i as int).skip(1) =~= y.skip(i as int + 1));
        i += 1;
    }
    i < b.len()
}

/// Where `file` belongs in `files`, which are in order.
fn place_of(files: &Vec<FoundFile>, file: &FoundFile) -> (p: usize)
    requires
        in_order(files@),
    ensures
        p == place(files@, *file),
        p <= files@.len(),
        forall|i: int| 0 <= i < p ==> !file_before(*file, #[trigger] files@[i]),
        forall|i: int| p <= i < files@.len() ==> file_before(*file, #[trigger] files@[i]),
{
    let mut low: usize = 0;
    let mut high: usize = files.len();
    while low < high
        invariant
            in_order(files@),
            low <= high <= files@.len(),
            forall|i: int| 0 <= i < low ==> !file_before(*file, #[trigger] files@[i]),
            forall|i: int| high <= i < files@.len() ==> file_before(*file, #[trigger] files@[i]),
        decreases high - low,
    {
        let middle: usize = low + (high - low) / 2;
        if is_path_before(&file.path, &files[middle].path) {
            proof {
                assert forall|i: int| middle <= i < files@.len() implies file_before(
                    *file,
                    #[trigger] files@[i],
                ) by {
                    lemma_before_rest(files@, *file, middle as int, i);
                }
            }
            high = middle;
        } else {
            proof {
                assert forall|i: int| 0 <= i <= middle implies !file_before(
                    *file,
                    #[trigger] files@[i],
                ) by {
                    if file_before(*file, files@[i]) {
                        lemma_before_rest(files@, *file, i, middle as int);
                    }
                }
            }
            low = middle + 1;
        }
    }
    proof {
        lemma_place(files@, *file, low as int);
    }
    low
}

/// A walk through the tree below the directory `root` that collects the files of `kind`.
pub fn collect_files(root: usize, recursive: bool, kind: FileKind) -> (walk: Walk)
    ensures
        walk.wf(),
        walk.pending@ == seq![root],
        walk.files@ == Seq::<FoundFile>::empty(),
        walk.recursive == recursive,
        walk.kind == kind,
{
    let mut pending: Vec<usize> = Vec::new();
    pending.push(root);
    Walk { pending, files: Vec::new(), recursive, kind }
}

/// A walk through the tree below the directory `root` that collects the audio files.
pub fn collect_audio_files(root: usize, recursive: bool) -> (walk: Walk)
    ensures
        walk.wf(),
        walk.pending@ == seq![root],
        walk.files@ == Seq::<FoundFile>::empty(),
        walk.recursive == recursive,
        walk.kind == FileKind::Audio,
{
    collect_files(root, recursive, FileKind::Audio)
}

/// A walk through the tree below the directory `root` that collects the JSON files.
pub fn collect_json_files(root: usize, recursive: bool) -> (walk: Walk)
    ensures
        walk.wf(),
        walk.pending@ == seq![root],
        walk.files@ == Seq::<FoundFile>::empty(),
        walk.recursive == recursive,
        walk.kind == FileKind::Json,
{
    collect_files(root, recursive, FileKind::Json)
}

impl Walk {
    /// The collected files stand in order.
    pub open spec fn wf(self) -> bool {
        in_order(self.files@)
    }

    /// The directory to list next, or nothing where the walk is over.
    pub fn next_directory(&mut self) -> (r: Option<usize>)
        ensures
            final(self).files == old(self).files,
            final(self).recursive == old(self).recursive,
            final(self).kind == old(self).kind,
            match r {
                Some(d) => old(self).pending@ == final(self).pending@.push(d),
                None => old(self).pending@.len() == 0 && final(self).pending@.len() == 0,
            },
    {
        let r = self.pending.pop();
        assert(r is Some ==> old(self).pending@ =~= self.pending@.push(r->0));
        r
    }

    /// Takes in what the listing of a directory shows.
    pub fn visit(&mut self, entries: Vec<Entry>)
        requires
            old(self).wf(),
        ensures
            final(self).wf(),
            final(self).recursive == old(self).recursive,
            final(self).kind == old(self).kind,
            final(self).files@ == with_entries(old(self).files@, entries@, old(self).kind),
            final(self).pending@ == (if old(self).recursive {
                old(self).pending@ + directories(entries@)
            } else {
                old(self).pending@
            }),
    {
        let ghost all = entries@;
        assert(all.take(0) =~= Seq::<Entry>::empty());
        for entry in it: entries
            invariant
                it.seq() == all,
                self.wf(),
                self.recursive == old(self).recursive,
                self.kind == old(self).kind,
                self.files@ == with_entries(
                    old(self).files@,
                    all.take(it.index() as int),
                    old(self).kind,
                ),
                self.pending@ =~= (if old(self).recursive {
                    old(self).pending@ + directories(all.take(it.index() as int))
                } else {
                    old(self).pending@
                }),
        {
            assert(all.take(it.index() as int + 1).drop_last() =~= all.take(it.index() as int));
            assert(all.take(it.index() as int + 1).last() == entry);
            if entry.is_dir {
                if self.recursive {
                    self.pending.push(entry.file.handle);
                }
            } else {
                let counts = match self.kind {
                    FileKind::Audio => is_supported_audio_file(
                        entry.is_file,
                        entry.file.name.as_str(),
                    ),
                    FileKind::Json => is_json_file(entry.file.name.as_str()),
                };
                if counts {
                    let p = place_of(&self.files, &entry.file);
                    proof {
                        lemma_insert_in_order(self.files@, entry.file, p as int);
                    }
                    self.files.insert(p, entry.file);
                }
            }
        }
        assert(all.take(all.len() as int) =~= all);
    }

    /// The collected files, in the order of their paths.
    pub fn finish(self) -> (files: Vec<FoundFile>)
        ensures
            files@ == self.files@,
    {
        self.files
    }
}

/// A file that is put in its place keeps the list in order.
pub proof fn lemma_insert_in_order(files: Seq<FoundFile>, file: FoundFile, p: int)
    requires
        in_order(files),
        0 <= p <= files.len(),
        forall|i: int| 0 <= i < p ==> !file_before(file, #[trigger] files[i]),
        forall|i: int| p <= i < files.len() ==> file_before(file, #[trigger] files[i]),
    ensures
        in_order(files.insert(p, file)),
{
    let all = files.insert(p, file);
    assert forall|i: int, j: int| 0 <= i < j < all.len() implies !file_before(all[j], all[i]) by {
        let x = if i < p { i } else { i - 1 };
        let y = if j < p { j } else { j - 1 };
        if i == p {
            assert(all[j] == files[y]);
            lemma_path_order(components(file.path), components(files[y].path));
        } else if j == p {
            assert(all[i] == files[x]);
        } else {
            assert(all[i] == files[x] && all[j] == files[y]);
        }
    }
}

} // verus!
