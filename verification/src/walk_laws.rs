//! What holds of a whole walk through a directory tree.

use vstd::prelude::*;

use crate::walk::{bytes_before, components, directories, file_before, in_order, lemma_before_rest};
use crate::walk::{lemma_insert_in_order, lemma_path_order, path_before, place, with_entries};
use crate::walk::{Entry, FileKind, FoundFile};

verus! {

/// How far a walk has come: the directories that it has listed, and those that it is still to
/// list.
pub struct Progress {
    pub listed: Seq<usize>,
    pub pending: Seq<usize>,
}

/// A walk from the directory `root` after `n` listings, where `tree` says what each directory
/// holds.
pub open spec fn progress(
    root: usize,
    recursive: bool,
    tree: spec_fn(usize) -> Seq<Entry>,
    n: nat,
) -> Progress
    decreases n,
{
    if n == 0 {
        Progress { listed: Seq::empty(), pending: seq![root] }
    } else {
        let before = progress(root, recursive, tree, (n - 1) as nat);
        if before.pending.len() == 0 {
            before
        } else {
            let next = before.pending.last();
            Progress {
                listed: before.listed.push(next),
                pending: if recursive {
                    before.pending.drop_last() + directories(tree(next))
                } else {
                    before.pending.drop_last()
                },
            }
        }
    }
}

/// The files that a walk has collected when it has listed the directories `listed`.
pub open spec fn collected(
    listed: Seq<usize>,
    tree: spec_fn(usize) -> Seq<Entry>,
    kind: FileKind,
) -> Seq<FoundFile>
    decreases listed.len(),
{
    if listed.len() == 0 {
        Seq::empty()
    } else {
        with_entries(collected(listed.drop_last(), tree, kind), tree(listed.last()), kind)
    }
}

/// A walk starts with its root to be listed and nothing collected, and each listing takes it one
/// step further: what `Walk` does is what `progress` and `collected` say.
pub proof fn law_walk_advances(
    root: usize,
    recursive: bool,
    tree: spec_fn(usize) -> Seq<Entry>,
    kind: FileKind,
    n: nat,
    pending: Seq<usize>,
    next: usize,
)
    requires
        progress(root, recursive, tree, n).pending == pending.push(next),
    ensures
        progress(root, recursive, tree, 0).pending == seq![root],
        collected(progress(root, recursive, tree, 0).listed, tree, kind) == Seq::<
            FoundFile,
        >::empty(),
        ({
            let before = progress(root, recursive, tree, n);
            let after = progress(root, recursive, tree, n + 1);
            &&& after.pending == (if recursive {
                pending + directories(tree(next))
            } else {
                pending
            })
            &&& collected(after.listed, tree, kind) == with_entries(
                collected(before.listed, tree, kind),
                tree(next),
                kind,
            )
        }),
{
    let before = progress(root, recursive, tree, n);
    let after = progress(root, recursive, tree, n + 1);
    assert(pending.push(next).drop_last() =~= pending);
    assert(after.listed.drop_last() =~= before.listed);
}

/// Whether `file` is one of the files in the directory `dir` that a walk collects.
pub open spec fn lies_in(
    file: FoundFile,
    dir: usize,
    tree: spec_fn(usize) -> Seq<Entry>,
    kind: FileKind,
) -> bool {
    exists|i: int|
        0 <= i < tree(dir).len() && (#[trigger] tree(dir)[i]).counts(kind) && tree(dir)[i].file
            == file
}

/// Whether `sub` is one of the directories in the directory `dir`.
pub open spec fn is_directory_in(
    sub: usize,
    dir: usize,
    tree: spec_fn(usize) -> Seq<Entry>,
) -> bool {
    exists|i: int|
        0 <= i < tree(dir).len() && (#[trigger] tree(dir)[i]).is_dir && tree(dir)[i].file.handle
            == sub
}

/// The place of a file in an ordered list parts what comes before it from what comes after it.
proof fn lemma_place_parts(files: Seq<FoundFile>, file: FoundFile)
    requires
        in_order(files),
    ensures
        0 <= place(files, file) <= files.len(),
        forall|i: int|
            0 <= i < place(files, file) ==> !file_before(file, #[trigger] files[i]),
        forall|i: int|
            place(files, file) <= i < files.len() ==> file_before(file, #[trigger] files[i]),
    decreases files.len(),
{
    if files.len() > 0 {
        if file_before(file, files[0]) {
            assert forall|i: int| 0 <= i < files.len() implies file_before(
                file,
                #[trigger] files[i],
            ) by {
                lemma_before_rest(files, file, 0, i);
            }
        } else {
            let rest = files.skip(1);
            assert forall|i: int, j: int| 0 <= i < j < rest.len() implies !file_before(
                rest[j],
                rest[i],
            ) by {
                assert(!file_before(files[j + 1], files[i + 1]));
            }
            lemma_place_parts(rest, file);
            assert forall|i: int| 0 <= i < place(files, file) implies !file_before(
                file,
                #[trigger] files[i],
            ) by {
                if i > 0 {
                    assert(files[i] == rest[i - 1]);
                }
            }
            assert forall|i: int|
                place(files, file) <= i < files.len() implies file_before(
                file,
                #[trigger] files[i],
            ) by {
                assert(files[i] == rest[i - 1]);
            }
        }
    }
}

/// A listing adds the files in it that count, and keeps the order.
proof fn lemma_with_entries(files: Seq<FoundFile>, entries: Seq<Entry>, kind: FileKind)
    requires
        in_order(files),
    ensures
        in_order(with_entries(files, entries, kind)),
        forall|f: FoundFile| #[trigger]
            with_entries(files, entries, kind).contains(f) <==> files.contains(f) || exists|i: int|
                0 <= i < entries.len() && (#[trigger] entries[i]).counts(kind) && entries[i].file
                    == f,
    decreases entries.len(),
{
    if entries.len() > 0 {
        let front = entries.drop_last();
        let entry = entries.last();
        lemma_with_entries(files, front, kind);
        let before = with_entries(files, front, kind);
        let after = with_entries(files, entries, kind);
        if entry.counts(kind) {
            lemma_place_parts(before, entry.file);
            lemma_insert_in_order(before, entry.file, place(before, entry.file));
        }
        assert forall|f: FoundFile| #[trigger]
            after.contains(f) <==> files.contains(f) || exists|i: int|
                0 <= i < entries.len() && (#[trigger] entries[i]).counts(kind) && entries[i].file
                    == f by {
            if entry.counts(kind) {
                lemma_insert_contains(before, place(before, entry.file), entry.file, f);
            }
            if before.contains(f) && !files.contains(f) {
                let i = choose|i: int|
                    0 <= i < front.len() && (#[trigger] front[i]).counts(kind) && front[i].file
                        == f;
                assert(entries[i].counts(kind) && entries[i].file == f);
            }
            if exists|i: int|
                0 <= i < entries.len() && (#[trigger] entries[i]).counts(kind) && entries[i].file
                    == f {
                let i = choose|i: int|
                    0 <= i < entries.len() && (#[trigger] entries[i]).counts(kind)
                        && entries[i].file == f;
                if i < front.len() {
                    assert(front[i].counts(kind) && front[i].file == f);
                }
            }
            if entry.counts(kind) {
                assert(entries[entries.len() - 1].counts(kind));
            }
        }
    }
}

/// What a list holds when something is put into it.
proof fn lemma_insert_contains(s: Seq<FoundFile>, p: int, x: FoundFile, f: FoundFile)
    requires
        0 <= p <= s.len(),
    ensures
        s.insert(p, x).contains(f) <==> s.contains(f) || f == x,
{
    let t = s.insert(p, x);
    assert(t[p] == x);
    if s.contains(f) {
        let i = choose|i: int| 0 <= i < s.len() && s[i] == f;
        if i < p {
            assert(t[i] == f);
        } else {
            assert(t[i + 1] == f);
        }
    }
    if t.contains(f) {
        let i = choose|i: int| 0 <= i < t.len() && t[i] == f;
        if i < p {
            assert(s[i] == f);
        } else if i > p {
            assert(s[i - 1] == f);
        }
    }
}

/// Whatever directories are listed, in whatever order, a walk has collected just the files in
/// them that count, and holds them in the order of their paths.
pub proof fn law_walk_collects_what_counts(
    listed: Seq<usize>,
    tree: spec_fn(usize) -> Seq<Entry>,
    kind: FileKind,
)
    ensures
        in_order(collected(listed, tree, kind)),
        forall|f: FoundFile| #[trigger]
            collected(listed, tree, kind).contains(f) <==> exists|d: usize|
                listed.contains(d) && #[trigger] lies_in(f, d, tree, kind),
    decreases listed.len(),
{
    if listed.len() > 0 {
        let front = listed.drop_last();
        let last = listed.last();
        law_walk_collects_what_counts(front, tree, kind);
        let before = collected(front, tree, kind);
        lemma_with_entries(before, tree(last), kind);
        assert forall|f: FoundFile| #[trigger]
            collected(listed, tree, kind).contains(f) <==> exists|d: usize|
                listed.contains(d) && #[trigger] lies_in(f, d, tree, kind) by {
            if before.contains(f) {
                let d = choose|d: usize|
                    front.contains(d) && #[trigger] lies_in(f, d, tree, kind);
                let k = choose|k: int| 0 <= k < front.len() && front[k] == d;
                assert(listed[k] == d);
                assert(listed.contains(d) && lies_in(f, d, tree, kind));
            }
            if lies_in(f, last, tree, kind) {
                assert(listed[listed.len() - 1] == last);
                assert(listed.contains(last));
            }
            if exists|d: usize| listed.contains(d) && #[trigger] lies_in(f, d, tree, kind) {
                let d = choose|d: usize|
                    listed.contains(d) && #[trigger] lies_in(f, d, tree, kind);
                if d != last {
                    let k = choose|k: int| 0 <= k < listed.len() && listed[k] == d;
                    assert(front[k] == d);
                    assert(front.contains(d));
                }
            }
        }
    }
}

/// The handles of the directories among the entries of a directory.
proof fn lemma_directories(entries: Seq<Entry>, sub: usize)
    ensures
        directories(entries).contains(sub) <==> exists|i: int|
            0 <= i < entries.len() && (#[trigger] entries[i]).is_dir && entries[i].file.handle
                == sub,
    decreases entries.len(),
{
    if entries.len() > 0 {
        let front = entries.drop_last();
        let before = directories(front);
        lemma_directories(front, sub);
        if before.contains(sub) {
            let i = choose|i: int|
                0 <= i < front.len() && (#[trigger] front[i]).is_dir && front[i].file.handle
                    == sub;
            assert(entries[i].is_dir && entries[i].file.handle == sub);
            let k = choose|k: int| 0 <= k < before.len() && before[k] == sub;
            assert(directories(entries)[k] == sub);
        }
        if entries.last().is_dir {
            assert(directories(entries).last() == entries.last().file.handle);
            assert(entries[entries.len() - 1].is_dir);
        }
        if directories(entries).contains(sub) && !before.contains(sub) {
            let k = choose|k: int|
                0 <= k < directories(entries).len() && directories(entries)[k] == sub;
            if k < before.len() {
                assert(before[k] == sub);
            }
        }
        if exists|i: int|
            0 <= i < entries.len() && (#[trigger] entries[i]).is_dir && entries[i].file.handle
                == sub {
            let i = choose|i: int|
                0 <= i < entries.len() && (#[trigger] entries[i]).is_dir
                    && entries[i].file.handle == sub;
            if i < front.len() {
                assert(front[i].is_dir && front[i].file.handle == sub);
            }
        }
    }
}

/// At every moment of a walk that goes into directories, what it has found it has listed or is
/// still to list, and it lists nothing but its root and what it has found. A walk that does not
/// go into directories lists its root alone.
pub proof fn law_walk_goes_everywhere(
    root: usize,
    recursive: bool,
    tree: spec_fn(usize) -> Seq<Entry>,
    n: nat,
)
    ensures
        ({
            let now = progress(root, recursive, tree, n);
            &&& now.listed.contains(root) || now.pending.contains(root)
            &&& recursive ==> forall|d: usize, sub: usize|
                now.listed.contains(d) && #[trigger] is_directory_in(sub, d, tree)
                    ==> now.listed.contains(sub) || now.pending.contains(sub)
            &&& forall|d: usize|
                #![trigger now.listed.contains(d)]
                #![trigger now.pending.contains(d)]
                now.listed.contains(d) || now.pending.contains(d) ==> d == root || (recursive
                    && exists|up: usize|
                    now.listed.contains(up) && #[trigger] is_directory_in(d, up, tree))
            &&& !recursive ==> forall|d: usize| #[trigger] now.listed.contains(d) ==> d == root
        }),
    decreases n,
{
    let now = progress(root, recursive, tree, n);
    if n == 0 {
        assert(now.pending[0] == root);
    } else {
        let before = progress(root, recursive, tree, (n - 1) as nat);
        law_walk_goes_everywhere(root, recursive, tree, (n - 1) as nat);
        if before.pending.len() > 0 {
            let next = before.pending.last();
            let found = directories(tree(next));
            assert(now.listed.last() == next);
            assert(before.pending.contains(next));
            assert forall|d: usize| before.listed.contains(d) implies now.listed.contains(d) by {
                let k = choose|k: int| 0 <= k < before.listed.len() && before.listed[k] == d;
                assert(now.listed[k] == d);
            }
            assert forall|d: usize| before.pending.contains(d) implies now.listed.contains(d)
                || now.pending.contains(d) by {
                let k = choose|k: int| 0 <= k < before.pending.len() && before.pending[k] == d;
                if k < before.pending.len() - 1 {
                    assert(now.pending[k] == d);
                }
            }
            assert forall|d: usize| now.listed.contains(d) implies before.listed.contains(d) || d
                == next by {
                let k = choose|k: int| 0 <= k < now.listed.len() && now.listed[k] == d;
                if k < before.listed.len() {
                    assert(before.listed[k] == d);
                }
            }
            assert forall|d: usize| now.pending.contains(d) implies before.pending.contains(d) || (
            recursive && is_directory_in(d, next, tree)) by {
                let k = choose|k: int| 0 <= k < now.pending.len() && now.pending[k] == d;
                let m = before.pending.len() - 1;
                if k < m {
                    assert(before.pending[k] == d);
                } else {
                    assert(found[k - m] == d);
                    lemma_directories(tree(next), d);
                }
            }
            if recursive {
                assert forall|d: usize, sub: usize|
                    now.listed.contains(d) && #[trigger] is_directory_in(
                        sub,
                        d,
                        tree,
                    ) implies now.listed.contains(sub) || now.pending.contains(sub) by {
                    if d == next {
                        lemma_directories(tree(next), sub);
                        let k = choose|k: int| 0 <= k < found.len() && found[k] == sub;
                        assert(now.pending[before.pending.len() - 1 + k] == sub);
                    }
                }
            }
        }
    }
}

/// Whether the directory `d` is `root` or is found in at most `n` steps from there, each of them
/// from a directory to one that lies in it.
pub open spec fn within(
    root: usize,
    recursive: bool,
    tree: spec_fn(usize) -> Seq<Entry>,
    d: usize,
    n: nat,
) -> bool
    decreases n,
{
    if n == 0 {
        d == root
    } else {
        ||| within(root, recursive, tree, d, (n - 1) as nat)
        ||| recursive && exists|up: usize|
            within(root, recursive, tree, up, (n - 1) as nat) && #[trigger] is_directory_in(
                d,
                up,
                tree,
            )
    }
}

/// Whether a walk from `root` can reach the directory `d`: it is the root, or, where the walk goes
/// into directories, it lies in a directory that the walk can reach.
pub open spec fn reachable(
    root: usize,
    recursive: bool,
    tree: spec_fn(usize) -> Seq<Entry>,
    d: usize,
) -> bool {
    exists|n: nat| within(root, recursive, tree, d, n)
}

/// What lies in a directory that a walk can reach, the walk can reach.
proof fn lemma_reaches_further(
    root: usize,
    tree: spec_fn(usize) -> Seq<Entry>,
    up: usize,
    sub: usize,
)
    requires
        reachable(root, true, tree, up),
        is_directory_in(sub, up, tree),
    ensures
        reachable(root, true, tree, sub),
{
    let n = choose|n: nat| within(root, true, tree, up, n);
    assert(within(root, true, tree, sub, n + 1));
}

/// A walk lists nothing but what it can reach, and is to list nothing else.
proof fn lemma_only_reachable(
    root: usize,
    recursive: bool,
    tree: spec_fn(usize) -> Seq<Entry>,
    n: nat,
)
    ensures
        ({
            let now = progress(root, recursive, tree, n);
            forall|d: usize|
                #![trigger now.listed.contains(d)]
                #![trigger now.pending.contains(d)]
                now.listed.contains(d) || now.pending.contains(d) ==> reachable(
                    root,
                    recursive,
                    tree,
                    d,
                )
        }),
    decreases n,
{
    let now = progress(root, recursive, tree, n);
    if n == 0 {
        assert(within(root, recursive, tree, root, 0));
    } else {
        let before = progress(root, recursive, tree, (n - 1) as nat);
        lemma_only_reachable(root, recursive, tree, (n - 1) as nat);
        if before.pending.len() > 0 {
            let next = before.pending.last();
            let m = before.pending.len() - 1;
            assert(before.pending.contains(next));
            assert forall|d: usize|
                now.listed.contains(d) || now.pending.contains(d) implies reachable(
                root,
                recursive,
                tree,
                d,
            ) by {
                if now.listed.contains(d) {
                    let k = choose|k: int| 0 <= k < now.listed.len() && now.listed[k] == d;
                    if k < before.listed.len() {
                        assert(before.listed[k] == d);
                        assert(before.listed.contains(d));
                    }
                } else {
                    let k = choose|k: int| 0 <= k < now.pending.len() && now.pending[k] == d;
                    if k < m {
                        assert(before.pending[k] == d);
                        assert(before.pending.contains(d));
                    } else {
                        assert(directories(tree(next))[k - m] == d);
                        lemma_directories(tree(next), d);
                        assert(is_directory_in(d, next, tree));
                        lemma_reaches_further(root, tree, next, d);
                    }
                }
            }
        }
    }
}

/// A walk that is over has listed all that lies in a number of steps from its root.
proof fn lemma_all_within(
    root: usize,
    recursive: bool,
    tree: spec_fn(usize) -> Seq<Entry>,
    n: nat,
    d: usize,
    steps: nat,
)
    requires
        progress(root, recursive, tree, n).pending.len() == 0,
        within(root, recursive, tree, d, steps),
    ensures
        progress(root, recursive, tree, n).listed.contains(d),
    decreases steps,
{
    law_walk_goes_everywhere(root, recursive, tree, n);
    if steps > 0 {
        let less = (steps - 1) as nat;
        if within(root, recursive, tree, d, less) {
            lemma_all_within(root, recursive, tree, n, d, less);
        } else {
            let up = choose|up: usize|
                within(root, recursive, tree, up, less) && #[trigger] is_directory_in(d, up, tree);
            lemma_all_within(root, recursive, tree, n, up, less);
        }
    }
}

/// A walk that is over has listed just the directories that it could reach, has collected just
/// the files that count in these, and holds them in the order of their paths.
pub proof fn law_finished_walk_is_complete(
    root: usize,
    recursive: bool,
    tree: spec_fn(usize) -> Seq<Entry>,
    kind: FileKind,
    n: nat,
)
    requires
        progress(root, recursive, tree, n).pending.len() == 0,
    ensures
        ({
            let listed = progress(root, recursive, tree, n).listed;
            let files = collected(listed, tree, kind);
            &&& forall|d: usize| #[trigger]
                listed.contains(d) <==> reachable(root, recursive, tree, d)
            &&& !recursive ==> forall|d: usize| #[trigger] listed.contains(d) <==> d == root
            &&& in_order(files)
            &&& forall|f: FoundFile| #[trigger]
                files.contains(f) <==> exists|d: usize|
                    reachable(root, recursive, tree, d) && #[trigger] lies_in(f, d, tree, kind)
        }),
{
    let listed = progress(root, recursive, tree, n).listed;
    let files = collected(listed, tree, kind);
    law_walk_goes_everywhere(root, recursive, tree, n);
    law_walk_collects_what_counts(listed, tree, kind);
    lemma_only_reachable(root, recursive, tree, n);
    assert forall|d: usize| #[trigger] listed.contains(d) <==> reachable(
        root,
        recursive,
        tree,
        d,
    ) by {
        if reachable(root, recursive, tree, d) {
            let steps = choose|steps: nat| within(root, recursive, tree, d, steps);
            lemma_all_within(root, recursive, tree, n, d, steps);
        }
    }
    assert forall|f: FoundFile| #[trigger]
        files.contains(f) <==> exists|d: usize|
            reachable(root, recursive, tree, d) && #[trigger] lies_in(f, d, tree, kind) by {
        if files.contains(f) {
            let d = choose|d: usize| listed.contains(d) && #[trigger] lies_in(f, d, tree, kind);
            assert(reachable(root, recursive, tree, d));
        }
        if exists|d: usize|
            reachable(root, recursive, tree, d) && #[trigger] lies_in(f, d, tree, kind) {
            let d = choose|d: usize|
                reachable(root, recursive, tree, d) && #[trigger] lies_in(f, d, tree, kind);
            assert(listed.contains(d));
        }
    }
}

/// The paths of `files`.
pub open spec fn paths_of(files: Seq<FoundFile>) -> Seq<Seq<Seq<u8>>> {
    files.map_values(|f: FoundFile| components(f.path))
}

/// Two lists of the same paths in order are the same.
proof fn lemma_ordered_paths(a: Seq<Seq<Seq<u8>>>, b: Seq<Seq<Seq<u8>>>)
    requires
        forall|i: int, j: int| 0 <= i < j < a.len() ==> !path_before(a[j], a[i]),
        forall|i: int, j: int| 0 <= i < j < b.len() ==> !path_before(b[j], b[i]),
        a.to_multiset() == b.to_multiset(),
    ensures
        a == b,
    decreases a.len(),
{
    broadcast use vstd::seq_lib::group_to_multiset_ensures;

    assert(a.len() == a.to_multiset().len());
    assert(b.len() == b.to_multiset().len());
    if a.len() == 0 {
        assert(a =~= b);
    } else {
        assert(a.to_multiset().count(a[0]) > 0) by {
            assert(a.contains(a[0]));
        }
        assert(b.contains(a[0]));
        assert(b.to_multiset().count(b[0]) > 0) by {
            assert(b.contains(b[0]));
        }
        assert(a.contains(b[0]));
        let k = choose|k: int| 0 <= k < b.len() && b[k] == a[0];
        let m = choose|m: int| 0 <= m < a.len() && a[m] == b[0];
        if k > 0 && m > 0 {
            assert(!path_before(b[k], b[0]));
            assert(!path_before(a[m], a[0]));
            lemma_path_order(a[0], b[0]);
        }
        assert(a[0] == b[0]);
        let x = a.remove(0);
        let y = b.remove(0);
        assert(x.to_multiset() =~= y.to_multiset());
        assert forall|i: int, j: int| 0 <= i < j < x.len() implies !path_before(x[j], x[i]) by {
            assert(!path_before(a[j + 1], a[i + 1]));
        }
        assert forall|i: int, j: int| 0 <= i < j < y.len() implies !path_before(y[j], y[i]) by {
            assert(!path_before(b[j + 1], b[i + 1]));
        }
        lemma_ordered_paths(x, y);
        assert(a =~= seq![a[0]] + x);
        assert(b =~= seq![b[0]] + y);
    }
}

/// The order of the collected files does not depend on the order in which they were found, nor on
/// their handles: two lists in order that hold the same paths hold them in the same order.
pub proof fn law_order_is_predictable(a: Seq<FoundFile>, b: Seq<FoundFile>)
    requires
        in_order(a),
        in_order(b),
        paths_of(a).to_multiset() == paths_of(b).to_multiset(),
    ensures
        paths_of(a) == paths_of(b),
{
    let x = paths_of(a);
    let y = paths_of(b);
    assert forall|i: int, j: int| 0 <= i < j < x.len() implies !path_before(x[j], x[i]) by {
        assert(!file_before(a[j], a[i]));
    }
    assert forall|i: int, j: int| 0 <= i < j < y.len() implies !path_before(y[j], y[i]) by {
        assert(!file_before(b[j], b[i]));
    }
    lemma_ordered_paths(x, y);
}

/// Whether `tree` is a tree of directories of which `at` gives the paths: the path of an entry is
/// that of its directory and one component more, no two entries of a directory have the same
/// path, and no two directories do.
pub open spec fn is_tree(
    tree: spec_fn(usize) -> Seq<Entry>,
    at: spec_fn(usize) -> Seq<Seq<u8>>,
) -> bool {
    &&& forall|d: usize, i: int|
        0 <= i < tree(d).len() ==> in_directory((#[trigger] tree(d)[i]).file, at(d))
    &&& forall|d: usize, i: int, j: int|
        0 <= i < j < tree(d).len() ==> components((#[trigger] tree(d)[i]).file.path) != components(
            (#[trigger] tree(d)[j]).file.path,
        )
    &&& forall|d: usize, i: int|
        0 <= i < tree(d).len() && (#[trigger] tree(d)[i]).is_dir ==> at(tree(d)[i].file.handle)
            == components(tree(d)[i].file.path)
    &&& forall|d: usize, e: usize| d != e ==> #[trigger] at(d) != #[trigger] at(e)
}

/// Whether the file lies in the directory with the path `dir` itself, and not further below.
pub open spec fn in_directory(file: FoundFile, dir: Seq<Seq<u8>>) -> bool {
    components(file.path).len() > 0 && components(file.path).drop_last() == dir
}

/// Whether no two of `files` have the same path.
pub open spec fn distinct_paths(files: Seq<FoundFile>) -> bool {
    forall|i: int, j: int|
        0 <= i < j < files.len() ==> components((#[trigger] files[i]).path) != components(
            (#[trigger] files[j]).path,
        )
}

/// Directories with different handles give a list without repeats.
proof fn lemma_distinct_directories(entries: Seq<Entry>)
    requires
        forall|i: int, j: int|
            0 <= i < j < entries.len() && (#[trigger] entries[i]).is_dir && (
            #[trigger] entries[j]).is_dir ==> entries[i].file.handle != entries[j].file.handle,
    ensures
        directories(entries).no_duplicates(),
    decreases entries.len(),
{
    if entries.len() > 0 {
        let front = entries.drop_last();
        assert forall|i: int, j: int|
            0 <= i < j < front.len() && (#[trigger] front[i]).is_dir && (
            #[trigger] front[j]).is_dir implies front[i].file.handle != front[j].file.handle by {
            assert(entries[i].is_dir && entries[j].is_dir);
        }
        lemma_distinct_directories(front);
        if entries.last().is_dir {
            let last = entries.last().file.handle;
            lemma_directories(front, last);
            if directories(front).contains(last) {
                let i = choose|i: int|
                    0 <= i < front.len() && (#[trigger] front[i]).is_dir && front[i].file.handle
                        == last;
                assert(entries[i].is_dir && entries[entries.len() - 1].is_dir);
            }
            let before = directories(front);
            assert forall|i: int, j: int|
                0 <= i < before.len() + 1 && 0 <= j < before.len() + 1 && i != j implies
                before.push(last)[i] != before.push(last)[j] by {
                if i < before.len() {
                    assert(before.contains(before[i]));
                }
                if j < before.len() {
                    assert(before.contains(before[j]));
                }
            }
        }
    }
}

/// The directories in a directory of a tree are new to a walk that has not listed it yet.
proof fn lemma_new_directory(
    root: usize,
    tree: spec_fn(usize) -> Seq<Entry>,
    at: spec_fn(usize) -> Seq<Seq<u8>>,
    n: nat,
    next: usize,
    sub: usize,
)
    requires
        is_tree(tree, at),
        !progress(root, true, tree, n).listed.contains(next),
        at(next).len() >= at(root).len(),
        is_directory_in(sub, next, tree),
    ensures
        at(sub).len() > at(root).len(),
        !progress(root, true, tree, n).listed.contains(sub),
        !progress(root, true, tree, n).pending.contains(sub),
{
    let now = progress(root, true, tree, n);
    law_walk_goes_everywhere(root, true, tree, n);
    let i = choose|i: int|
        0 <= i < tree(next).len() && (#[trigger] tree(next)[i]).is_dir
            && tree(next)[i].file.handle == sub;
    assert(in_directory(tree(next)[i].file, at(next)));
    if now.listed.contains(sub) || now.pending.contains(sub) {
        let up = choose|up: usize|
            now.listed.contains(up) && #[trigger] is_directory_in(sub, up, tree);
        let k = choose|k: int|
            0 <= k < tree(up).len() && (#[trigger] tree(up)[k]).is_dir
                && tree(up)[k].file.handle == sub;
        assert(in_directory(tree(up)[k].file, at(up)));
        assert(at(up) == at(next));
    }
}

/// A walk through a tree lists no directory twice.
pub proof fn law_no_directory_twice(
    root: usize,
    recursive: bool,
    tree: spec_fn(usize) -> Seq<Entry>,
    at: spec_fn(usize) -> Seq<Seq<u8>>,
    n: nat,
)
    requires
        is_tree(tree, at),
    ensures
        ({
            let now = progress(root, recursive, tree, n);
            &&& (now.listed + now.pending).no_duplicates()
            &&& now.listed.no_duplicates()
            &&& forall|d: usize|
                #![trigger now.listed.contains(d)]
                #![trigger now.pending.contains(d)]
                now.listed.contains(d) || now.pending.contains(d) ==> at(d).len() >= at(root).len()
        }),
    decreases n,
{
    let now = progress(root, recursive, tree, n);
    if n > 0 {
        let m = (n - 1) as nat;
        let before = progress(root, recursive, tree, m);
        law_no_directory_twice(root, recursive, tree, at, m);
        if before.pending.len() > 0 {
            let next = before.pending.last();
            let found = if recursive {
                directories(tree(next))
            } else {
                Seq::empty()
            };
            let old_all = before.listed + before.pending;
            let l = before.listed.len() as int;
            let p = before.pending.len() as int;
            assert(old_all[l + p - 1] == next);
            assert(before.pending.contains(next));
            assert(!before.listed.contains(next)) by {
                if before.listed.contains(next) {
                    let k = choose|k: int| 0 <= k < l && before.listed[k] == next;
                    assert(old_all[k] == next);
                }
            }
            assert forall|i: int, j: int|
                0 <= i < j < tree(next).len() && (#[trigger] tree(next)[i]).is_dir && (
                #[trigger] tree(next)[j]).is_dir implies tree(next)[i].file.handle
                != tree(next)[j].file.handle by {
                assert(components(tree(next)[i].file.path) != components(
                    tree(next)[j].file.path,
                ));
            }
            lemma_distinct_directories(tree(next));
            assert forall|k: int| 0 <= k < found.len() implies at(#[trigger] found[k]).len()
                > at(root).len() && !before.listed.contains(found[k]) && !before.pending.contains(
                found[k],
            ) by {
                lemma_directories(tree(next), found[k]);
                assert(found.contains(found[k]));
                assert(is_directory_in(found[k], next, tree));
                lemma_new_directory(root, tree, at, m, next, found[k]);
            }
            let all = now.listed + now.pending;
            assert(all =~= before.listed.push(next) + (before.pending.drop_last() + found));
            let home = |a: int|
                if a < l {
                    a
                } else if a == l {
                    l + p - 1
                } else {
                    a - 1
                };
            assert forall|a: int| 0 <= a < l + p implies #[trigger] all[a] == old_all[home(a)] by {}
            assert forall|a: int| l + p <= a < all.len() implies #[trigger] all[a] == found[a - l
                - p] by {}
            assert forall|a: int, b: int|
                0 <= a < all.len() && 0 <= b < all.len() && a != b implies all[a] != all[b] by {
                if a < l + p && b < l + p {
                    assert(home(a) != home(b));
                } else if a < l + p {
                    lemma_in_parts(before.listed, before.pending, home(a));
                    assert(all[b] == found[b - l - p]);
                } else if b < l + p {
                    lemma_in_parts(before.listed, before.pending, home(b));
                    assert(all[a] == found[a - l - p]);
                } else {
                    assert(found[a - l - p] != found[b - l - p]);
                }
            }
            assert forall|d: usize| now.listed.contains(d) || now.pending.contains(d) implies at(
                d,
            ).len() >= at(root).len() by {
                if now.listed.contains(d) {
                    let k = choose|k: int| 0 <= k < now.listed.len() && now.listed[k] == d;
                    if k < l {
                        assert(before.listed[k] == d);
                        assert(before.listed.contains(d));
                    }
                } else {
                    let k = choose|k: int| 0 <= k < now.pending.len() && now.pending[k] == d;
                    if k < p - 1 {
                        assert(before.pending[k] == d);
                        assert(before.pending.contains(d));
                    } else {
                        assert(found[k - (p - 1)] == d);
                    }
                }
            }
        }
    } else {
        assert(now.listed + now.pending =~= seq![root]);
    }
    let all = now.listed + now.pending;
    assert forall|i: int, j: int|
        0 <= i < now.listed.len() && 0 <= j < now.listed.len() && i != j implies now.listed[i]
        != now.listed[j] by {
        assert(all[i] == now.listed[i] && all[j] == now.listed[j]);
    }
}

/// What stands in two lists in a row stands in one of them.
proof fn lemma_in_parts(a: Seq<usize>, b: Seq<usize>, i: int)
    requires
        0 <= i < a.len() + b.len(),
    ensures
        a.contains((a + b)[i]) || b.contains((a + b)[i]),
{
    if i < a.len() {
        assert(a[i] == (a + b)[i]);
    } else {
        assert(b[i - a.len()] == (a + b)[i]);
    }
}

/// A file that is put into a list with a path of its own.
proof fn lemma_insert_distinct(files: Seq<FoundFile>, file: FoundFile, p: int)
    requires
        distinct_paths(files),
        0 <= p <= files.len(),
        forall|i: int|
            0 <= i < files.len() ==> components((#[trigger] files[i]).path) != components(
                file.path,
            ),
    ensures
        distinct_paths(files.insert(p, file)),
{
    let all = files.insert(p, file);
    assert forall|i: int, j: int| 0 <= i < j < all.len() implies components(
        (#[trigger] all[i]).path,
    ) != components((#[trigger] all[j]).path) by {
        let x = if i < p {
            i
        } else {
            i - 1
        };
        let y = if j < p {
            j
        } else {
            j - 1
        };
        if i != p {
            assert(all[i] == files[x]);
        }
        if j != p {
            assert(all[j] == files[y]);
        }
    }
}

/// A listing of files with paths of their own leaves no path twice.
proof fn lemma_entries_distinct(files: Seq<FoundFile>, entries: Seq<Entry>, kind: FileKind)
    requires
        in_order(files),
        distinct_paths(files),
        forall|i: int, j: int|
            0 <= i < j < entries.len() ==> components((#[trigger] entries[i]).file.path)
                != components((#[trigger] entries[j]).file.path),
        forall|i: int, j: int|
            0 <= i < files.len() && 0 <= j < entries.len() ==> components(
                (#[trigger] files[i]).path,
            ) != components((#[trigger] entries[j]).file.path),
    ensures
        distinct_paths(with_entries(files, entries, kind)),
    decreases entries.len(),
{
    if entries.len() > 0 {
        let front = entries.drop_last();
        let entry = entries.last();
        assert forall|i: int, j: int| 0 <= i < j < front.len() implies components(
            (#[trigger] front[i]).file.path,
        ) != components((#[trigger] front[j]).file.path) by {
            assert(components(entries[i].file.path) != components(entries[j].file.path));
        }
        assert forall|i: int, j: int|
            0 <= i < files.len() && 0 <= j < front.len() implies components(
            (#[trigger] files[i]).path,
        ) != components((#[trigger] front[j]).file.path) by {
            assert(components(files[i].path) != components(entries[j].file.path));
        }
        lemma_entries_distinct(files, front, kind);
        let before = with_entries(files, front, kind);
        lemma_with_entries(files, front, kind);
        if entry.counts(kind) {
            lemma_place_parts(before, entry.file);
            assert forall|i: int| 0 <= i < before.len() implies components(
                (#[trigger] before[i]).path,
            ) != components(entry.file.path) by {
                let f = before[i];
                assert(before.contains(f));
                let n = entries.len() - 1;
                if files.contains(f) {
                    let k = choose|k: int| 0 <= k < files.len() && files[k] == f;
                    assert(components(files[k].path) != components(entries[n].file.path));
                } else {
                    let k = choose|k: int|
                        0 <= k < front.len() && (#[trigger] front[k]).counts(kind)
                            && front[k].file == f;
                    assert(components(entries[k].file.path) != components(entries[n].file.path));
                }
            }
            lemma_insert_distinct(before, entry.file, place(before, entry.file));
        }
    }
}

/// A list of directories without repeats gives files without repeats.
proof fn lemma_collected_distinct(
    listed: Seq<usize>,
    tree: spec_fn(usize) -> Seq<Entry>,
    at: spec_fn(usize) -> Seq<Seq<u8>>,
    kind: FileKind,
)
    requires
        is_tree(tree, at),
        listed.no_duplicates(),
    ensures
        distinct_paths(collected(listed, tree, kind)),
    decreases listed.len(),
{
    if listed.len() > 0 {
        let front = listed.drop_last();
        let last = listed.last();
        lemma_collected_distinct(front, tree, at, kind);
        law_walk_collects_what_counts(front, tree, kind);
        let before = collected(front, tree, kind);
        assert forall|i: int, j: int|
            0 <= i < before.len() && 0 <= j < tree(last).len() implies components(
            (#[trigger] before[i]).path,
        ) != components((#[trigger] tree(last)[j]).file.path) by {
            assert(before.contains(before[i]));
            let d = choose|d: usize|
                front.contains(d) && #[trigger] lies_in(before[i], d, tree, kind);
            let k = choose|k: int|
                0 <= k < tree(d).len() && (#[trigger] tree(d)[k]).counts(kind) && tree(d)[k].file
                    == before[i];
            let m = choose|m: int| 0 <= m < front.len() && front[m] == d;
            assert(listed[m] == d && listed[listed.len() - 1] == last);
            assert(in_directory(tree(d)[k].file, at(d)));
            assert(in_directory(tree(last)[j].file, at(last)));
            assert(at(d) != at(last));
        }
        lemma_entries_distinct(before, tree(last), kind);
    }
}

/// A walk through a tree collects no file twice: each of the collected files comes before all
/// that stand behind it.
pub proof fn law_no_file_twice(
    root: usize,
    recursive: bool,
    tree: spec_fn(usize) -> Seq<Entry>,
    at: spec_fn(usize) -> Seq<Seq<u8>>,
    kind: FileKind,
    n: nat,
)
    requires
        is_tree(tree, at),
    ensures
        ({
            let files = collected(progress(root, recursive, tree, n).listed, tree, kind);
            &&& distinct_paths(files)
            &&& forall|i: int, j: int|
                0 <= i < j < files.len() ==> file_before(#[trigger] files[i], #[trigger] files[j])
        }),
{
    let listed = progress(root, recursive, tree, n).listed;
    let files = collected(listed, tree, kind);
    law_no_directory_twice(root, recursive, tree, at, n);
    lemma_collected_distinct(listed, tree, at, kind);
    law_walk_collects_what_counts(listed, tree, kind);
    assert forall|i: int, j: int| 0 <= i < j < files.len() implies file_before(
        #[trigger] files[i],
        #[trigger] files[j],
    ) by {
        assert(!file_before(files[j], files[i]));
        assert(components(files[i].path) != components(files[j].path));
        lemma_path_order(components(files[i].path), components(files[j].path));
    }
}

/// The first directory that a walk lists is its root, and the only one where it does not go into
/// directories.
proof fn lemma_root_is_first(
    root: usize,
    recursive: bool,
    tree: spec_fn(usize) -> Seq<Entry>,
    n: nat,
)
    requires
        n > 0,
    ensures
        progress(root, recursive, tree, n).listed.len() > 0,
        progress(root, recursive, tree, n).listed[0] == root,
        !recursive ==> progress(root, recursive, tree, n).listed == seq![root],
        !recursive ==> progress(root, recursive, tree, n).pending.len() == 0,
    decreases n,
{
    reveal_with_fuel(progress, 2);
    if n > 1 {
        lemma_root_is_first(root, recursive, tree, (n - 1) as nat);
    } else {
        assert(seq![root].drop_last() =~= Seq::<usize>::empty());
        assert(progress(root, recursive, tree, 1).listed =~= seq![root]);
    }
}

/// What a filter drops can be put into a list without a trace.
proof fn lemma_filter_insert(
    s: Seq<FoundFile>,
    p: int,
    x: FoundFile,
    keep: spec_fn(FoundFile) -> bool,
)
    requires
        0 <= p <= s.len(),
        !keep(x),
    ensures
        s.insert(p, x).filter(keep) == s.filter(keep),
{
    let a = s.take(p);
    let b = s.skip(p);
    assert(s =~= a + b);
    assert(s.insert(p, x) =~= a + (seq![x] + b));
    Seq::filter_distributes_over_add(a, b, keep);
    Seq::filter_distributes_over_add(a, seq![x] + b, keep);
    Seq::filter_distributes_over_add(seq![x], b, keep);
    assert(seq![x].filter(keep) =~= Seq::empty()) by {
        reveal_with_fuel(Seq::filter, 2);
        assert(seq![x].drop_last() =~= Seq::empty());
        assert(seq![x].last() == x);
    }
    assert(Seq::<FoundFile>::empty() + b.filter(keep) =~= b.filter(keep));
}

/// A filter that drops nothing.
proof fn lemma_filter_all(s: Seq<FoundFile>, keep: spec_fn(FoundFile) -> bool)
    requires
        forall|i: int| 0 <= i < s.len() ==> keep(#[trigger] s[i]),
    ensures
        s.filter(keep) == s,
    decreases s.len(),
{
    reveal(Seq::filter);
    if s.len() > 0 {
        let front = s.drop_last();
        assert forall|i: int| 0 <= i < front.len() implies keep(#[trigger] front[i]) by {
            assert(keep(s[i]));
        }
        lemma_filter_all(front, keep);
        assert(keep(s[s.len() - 1]));
        assert(s =~= front.push(s.last()));
    } else {
        assert(s.filter(keep) =~= s);
    }
}

/// A listing of files that a filter drops leaves what the filter keeps as it is.
proof fn lemma_filter_entries(
    files: Seq<FoundFile>,
    entries: Seq<Entry>,
    kind: FileKind,
    keep: spec_fn(FoundFile) -> bool,
)
    requires
        in_order(files),
        forall|i: int| 0 <= i < entries.len() ==> !keep((#[trigger] entries[i]).file),
    ensures
        with_entries(files, entries, kind).filter(keep) == files.filter(keep),
    decreases entries.len(),
{
    if entries.len() > 0 {
        let front = entries.drop_last();
        assert forall|i: int| 0 <= i < front.len() implies !keep((#[trigger] front[i]).file) by {
            assert(!keep(entries[i].file));
        }
        lemma_filter_entries(files, front, kind, keep);
        lemma_with_entries(files, front, kind);
        let before = with_entries(files, front, kind);
        let last = entries.last();
        assert(!keep(entries[entries.len() - 1].file));
        if last.counts(kind) {
            lemma_place_parts(before, last.file);
            lemma_filter_insert(before, place(before, last.file), last.file, keep);
        }
    }
}

/// Of the files in listed directories, those in the first one are what that one alone gives.
proof fn lemma_files_of_first(
    listed: Seq<usize>,
    tree: spec_fn(usize) -> Seq<Entry>,
    at: spec_fn(usize) -> Seq<Seq<u8>>,
    kind: FileKind,
)
    requires
        is_tree(tree, at),
        listed.no_duplicates(),
        listed.len() > 0,
    ensures
        collected(listed, tree, kind).filter(|f: FoundFile| in_directory(f, at(listed[0])))
            == collected(seq![listed[0]], tree, kind),
    decreases listed.len(),
{
    let root = listed[0];
    let keep = |f: FoundFile| in_directory(f, at(root));
    if listed.len() == 1 {
        assert(listed =~= seq![root]);
        let files = collected(listed, tree, kind);
        law_walk_collects_what_counts(listed, tree, kind);
        assert forall|i: int| 0 <= i < files.len() implies keep(#[trigger] files[i]) by {
            assert(files.contains(files[i]));
            let d = choose|d: usize|
                listed.contains(d) && #[trigger] lies_in(files[i], d, tree, kind);
            assert(d == root);
            let k = choose|k: int|
                0 <= k < tree(d).len() && (#[trigger] tree(d)[k]).counts(kind) && tree(d)[k].file
                    == files[i];
            assert(in_directory(tree(d)[k].file, at(d)));
        }
        lemma_filter_all(files, keep);
    } else {
        let front = listed.drop_last();
        let last = listed.last();
        assert(front[0] == root);
        lemma_files_of_first(front, tree, at, kind);
        law_walk_collects_what_counts(front, tree, kind);
        assert(listed[listed.len() - 1] != listed[0]);
        assert(at(last) != at(root));
        assert forall|i: int| 0 <= i < tree(last).len() implies !keep(
            (#[trigger] tree(last)[i]).file,
        ) by {
            assert(in_directory(tree(last)[i].file, at(last)));
        }
        lemma_filter_entries(collected(front, tree, kind), tree(last), kind, keep);
    }
}

/// To go into directories only adds files: a walk that does not gives just those files of a walk
/// that does which lie in the root itself, in the same order. A walk that is over has listed its
/// root, so that neither number is zero.
pub proof fn law_recursion_only_adds_files(
    root: usize,
    tree: spec_fn(usize) -> Seq<Entry>,
    at: spec_fn(usize) -> Seq<Seq<u8>>,
    kind: FileKind,
    flat: nat,
    deep: nat,
)
    requires
        is_tree(tree, at),
        flat > 0,
        deep > 0,
    ensures
        collected(progress(root, false, tree, flat).listed, tree, kind) == collected(
            progress(root, true, tree, deep).listed,
            tree,
            kind,
        ).filter(|f: FoundFile| in_directory(f, at(root))),
        progress(root, false, tree, flat).pending.len() == 0,
        progress(root, true, tree, 0).pending.len() > 0,
{
    lemma_root_is_first(root, false, tree, flat);
    lemma_root_is_first(root, true, tree, deep);
    law_no_directory_twice(root, true, tree, at, deep);
    lemma_files_of_first(progress(root, true, tree, deep).listed, tree, at, kind);
}

/// Byte strings are ordered by the first byte in which they differ, and one that another starts
/// with comes before that.
pub proof fn law_first_byte_decides(
    start: Seq<u8>,
    a: u8,
    x: Seq<u8>,
    b: u8,
    y: Seq<u8>,
)
    requires
        a != b,
    ensures
        bytes_before(start + seq![a] + x, start + seq![b] + y) == (a < b),
        bytes_before(start, start + seq![a] + x),
        !bytes_before(start + seq![a] + x, start),
        !bytes_before(start, start),
    decreases start.len(),
{
    let p = start + seq![a] + x;
    let q = start + seq![b] + y;
    if start.len() > 0 {
        let less = start.skip(1);
        law_first_byte_decides(less, a, x, b, y);
        assert(p.skip(1) =~= less + seq![a] + x);
        assert(q.skip(1) =~= less + seq![b] + y);
        assert(p[0] == start[0] && q[0] == start[0]);
    }
}

/// Paths are ordered by the first component in which they differ, and one that another starts
/// with comes before that.
pub proof fn law_first_component_decides(
    start: Seq<Seq<u8>>,
    a: Seq<u8>,
    x: Seq<Seq<u8>>,
    b: Seq<u8>,
    y: Seq<Seq<u8>>,
)
    requires
        a != b,
    ensures
        path_before(start + seq![a] + x, start + seq![b] + y) == bytes_before(a, b),
        path_before(start, start + seq![a] + x),
        !path_before(start + seq![a] + x, start),
        !path_before(start, start),
    decreases start.len(),
{
    let p = start + seq![a] + x;
    let q = start + seq![b] + y;
    if start.len() > 0 {
        let less = start.skip(1);
        law_first_component_decides(less, a, x, b, y);
        assert(p.skip(1) =~= less + seq![a] + x);
        assert(q.skip(1) =~= less + seq![b] + y);
        assert(p[0] == start[0] && q[0] == start[0]);
    }
}

/// Files come before others as their paths do, and a list is in order if and only if none comes
/// before one that stands in front of it.
pub proof fn law_files_are_ordered_by_path(files: Seq<FoundFile>, a: FoundFile, b: FoundFile)
    ensures
        file_before(a, b) == path_before(components(a.path), components(b.path)),
        in_order(files) <==> forall|i: int, j: int|
            0 <= i < j < files.len() ==> !path_before(
                components((#[trigger] files[j]).path),
                components((#[trigger] files[i]).path),
            ),
{
    if in_order(files) {
        assert forall|i: int, j: int| 0 <= i < j < files.len() implies !path_before(
            components((#[trigger] files[j]).path),
            components((#[trigger] files[i]).path),
        ) by {
            assert(!file_before(files[j], files[i]));
        }
    }
}

} // verus!
