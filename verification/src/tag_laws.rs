//! What holds of lyrics in tags across several steps.

use vstd::prelude::*;

use lofty::file::TaggedFile;

use crate::file_laws::law_names_fall_apart;
use crate::tag_store::{empty_tag, first_of_key, first_of_kind, first_text, format_of, has_kind};
use crate::tag_store::{holds_key, primary_kind, supports, tags_of, text_entry, text_of};
use crate::tag_store::{without_key, AudioFormat, TagContents, TagEntry, TagKey, TagKind, TagValue};
use crate::tags::{cleared, embedded, file_view, kind_index, lemma_cleared_kinds, lemma_has_kind};
use crate::tags::{lemma_new_kind, lyrics_home, lyrics_kind, may_hold_lyrics, named_by, names_of};
use crate::tags::{not_lyrics, stripped, tagged_names, with_tag, without_lyrics};
use crate::text::{has_part, trim_start, CharClass};
use crate::text_laws::{all_in, law_trim_cuts_the_edges, law_trim_start_cuts_the_edge};
use crate::title_laws::{law_query_reads_back, tidy};
use crate::titles::artist_and_title;

verus! {

/// Whether no item of `entries` is lyrics.
pub open spec fn no_lyrics(entries: Seq<TagEntry>) -> bool {
    forall|i: int| 0 <= i < entries.len() ==> (#[trigger] entries[i]).key != "Lyrics"@
}

/// Whether a tag of format `kind` is one that lyrics are taken out of.
pub open spec fn is_cleared(kind: TagKind) -> bool {
    kind is Id3v2 || kind is VorbisComments || kind is Mp4Ilst
}

/// Taking lyrics out leaves no lyrics, and changes nothing where there are none.
proof fn lemma_not_lyrics(entries: Seq<TagEntry>)
    ensures
        no_lyrics(not_lyrics(entries)),
        no_lyrics(entries) ==> not_lyrics(entries) == entries,
        not_lyrics(not_lyrics(entries)) == not_lyrics(entries),
    decreases entries.len(),
{
    let keep = |e: TagEntry| e.key != "Lyrics"@;
    reveal(Seq::filter);
    if entries.len() > 0 {
        let front = entries.drop_last();
        lemma_not_lyrics(front);
        let kept = not_lyrics(front);
        if keep(entries.last()) {
            assert(not_lyrics(entries) == kept.push(entries.last()));
            assert(kept.push(entries.last()).drop_last() =~= kept);
            assert(not_lyrics(kept.push(entries.last())) == not_lyrics(kept).push(entries.last()));
        }
        if no_lyrics(entries) {
            assert forall|i: int| 0 <= i < front.len() implies (#[trigger] front[i]).key
                != "Lyrics"@ by {
                assert(entries[i].key != "Lyrics"@);
            }
            assert(entries[entries.len() - 1].key != "Lyrics"@);
            assert(entries =~= front.push(entries.last()));
        }
    }
}

/// Taking lyrics out undoes putting them in.
proof fn lemma_not_lyrics_push(entries: Seq<TagEntry>, lyrics: Seq<char>)
    ensures
        not_lyrics(entries.push(text_entry("Lyrics"@, lyrics))) == not_lyrics(entries),
{
    reveal(Seq::filter);
    assert(entries.push(text_entry("Lyrics"@, lyrics)).drop_last() =~= entries);
}

/// The three formats that lyrics are taken out of, and what that does to each tag.
proof fn lemma_without_lyrics(tags: Seq<TagContents>)
    ensures
        without_lyrics(tags).len() == tags.len(),
        forall|i: int|
            0 <= i < tags.len() ==> #[trigger] without_lyrics(tags)[i] == (if is_cleared(
                tags[i].kind,
            ) && first_of_kind(tags, tags[i].kind, i) {
                stripped(tags[i])
            } else {
                tags[i]
            }),
        forall|k: TagKind, i: int|
            first_of_kind(without_lyrics(tags), k, i) == first_of_kind(tags, k, i),
        forall|k: TagKind| has_kind(without_lyrics(tags), k) == has_kind(tags, k),
        forall|k: TagKind|
            has_kind(tags, k) ==> kind_index(without_lyrics(tags), k) == kind_index(tags, k),
{
    let a = cleared(tags, TagKind::Id3v2);
    let b = cleared(a, TagKind::VorbisComments);
    lemma_cleared_kinds(tags, TagKind::Id3v2);
    lemma_cleared_kinds(a, TagKind::VorbisComments);
    lemma_cleared_kinds(b, TagKind::Mp4Ilst);
    assert forall|i: int| 0 <= i < tags.len() implies #[trigger] without_lyrics(tags)[i] == (
    if is_cleared(tags[i].kind) && first_of_kind(tags, tags[i].kind, i) {
        stripped(tags[i])
    } else {
        tags[i]
    }) by {
        lemma_cleared_at(tags, TagKind::Id3v2, i);
        lemma_cleared_at(a, TagKind::VorbisComments, i);
        lemma_cleared_at(b, TagKind::Mp4Ilst, i);
    }
}

/// What taking the lyrics out of one format does to one tag.
proof fn lemma_cleared_at(tags: Seq<TagContents>, kind: TagKind, i: int)
    requires
        0 <= i < tags.len(),
    ensures
        cleared(tags, kind)[i] == (if first_of_kind(tags, kind, i) {
            stripped(tags[i])
        } else {
            tags[i]
        }),
{
    lemma_cleared_kinds(tags, kind);
    if has_kind(tags, kind) {
        let k = kind_index(tags, kind);
        assert(first_of_kind(tags, kind, k));
        if first_of_kind(tags, kind, i) {
            lemma_one_first(tags, kind, i, k);
        }
    }
}

/// Only one tag is the first of a format.
proof fn lemma_one_first(tags: Seq<TagContents>, kind: TagKind, i: int, j: int)
    requires
        first_of_kind(tags, kind, i),
        first_of_kind(tags, kind, j),
    ensures
        i == j,
{
    if i < j {
        assert(tags[i].kind != kind);
    } else if j < i {
        assert(tags[j].kind != kind);
    }
}

/// What embedding lyrics does to each tag.
proof fn lemma_embedded(tags: Seq<TagContents>, kind: TagKind, lyrics: Seq<char>)
    ensures
        has_kind(embedded(tags, kind, lyrics), kind),
        ({
            let out = embedded(tags, kind, lyrics);
            let ready = with_tag(without_lyrics(tags), kind);
            let p = kind_index(out, kind);
            &&& out.len() == ready.len()
            &&& 0 <= p < out.len()
            &&& first_of_kind(ready, kind, p)
            &&& first_of_kind(out, kind, p)
            &&& out[p] == (TagContents {
                entries: not_lyrics(ready[p].entries).push(text_entry("Lyrics"@, lyrics)),
                ..ready[p]
            })
            &&& forall|i: int| 0 <= i < out.len() && i != p ==> #[trigger] out[i] == ready[i]
            &&& forall|i: int| 0 <= i < out.len() ==> (#[trigger] out[i]).kind == ready[i].kind
            &&& forall|k: TagKind, i: int| first_of_kind(out, k, i) == first_of_kind(ready, k, i)
        }),
{
    let clean = without_lyrics(tags);
    let ready = with_tag(clean, kind);
    let out = embedded(tags, kind, lyrics);
    if !has_kind(clean, kind) {
        lemma_new_kind(clean, kind);
    }
    let q = kind_index(ready, kind);
    assert(first_of_kind(ready, kind, q));
    assert forall|k: TagKind, i: int| first_of_kind(out, k, i) == first_of_kind(ready, k, i) by {
        if first_of_kind(out, k, i) {
            assert forall|j: int| 0 <= j < i implies (#[trigger] ready[j]).kind != k by {
                assert(out[j].kind != k);
            }
        }
        if first_of_kind(ready, k, i) {
            assert forall|j: int| 0 <= j < i implies (#[trigger] out[j]).kind != k by {
                assert(ready[j].kind != k);
            }
        }
    }
    assert(first_of_kind(out, kind, q));
    let p = kind_index(out, kind);
    lemma_one_first(out, kind, p, q);
}

/// After lyrics are embedded, the tag they go to gives them back as its lyrics: they are its
/// last item, and it has no others.
pub proof fn law_embedded_lyrics_read_back(
    tags: Seq<TagContents>,
    kind: TagKind,
    lyrics: Seq<char>,
)
    ensures
        ({
            let out = embedded(tags, kind, lyrics);
            let entries = out[kind_index(out, kind)].entries;
            &&& first_of_kind(out, kind, kind_index(out, kind))
            &&& first_text(entries, "Lyrics"@) == Some(lyrics)
            &&& entries.len() > 0
            &&& entries.last() == text_entry("Lyrics"@, lyrics)
            &&& no_lyrics(entries.drop_last())
        }),
{
    lemma_embedded(tags, kind, lyrics);
    let out = embedded(tags, kind, lyrics);
    let ready = with_tag(without_lyrics(tags), kind);
    let p = kind_index(out, kind);
    let entries = out[p].entries;
    let front = not_lyrics(ready[p].entries);
    lemma_not_lyrics(ready[p].entries);
    assert(entries.drop_last() =~= front);
    let n = entries.len() - 1;
    assert forall|j: int| 0 <= j < n implies (#[trigger] entries[j]).key != "Lyrics"@ by {
        assert(front[j].key != "Lyrics"@);
    }
    assert(first_of_key(entries, "Lyrics"@, n));
    let m = choose|m: int| first_of_key(entries, "Lyrics"@, m);
    if m < n {
        assert(entries[m].key != "Lyrics"@);
    } else if n < m {
        assert(entries[n].key != "Lyrics"@);
    }
}

/// After lyrics are embedded, the first tag of each other format that commonly holds lyrics has
/// none. Further tags of a format that a file already has are not looked at.
pub proof fn law_embedding_leaves_no_other_lyrics(
    tags: Seq<TagContents>,
    kind: TagKind,
    lyrics: Seq<char>,
    other: TagKind,
)
    requires
        is_cleared(other),
        other != kind,
    ensures
        ({
            let out = embedded(tags, kind, lyrics);
            has_kind(out, other) ==> no_lyrics(out[kind_index(out, other)].entries)
        }),
{
    lemma_embedded(tags, kind, lyrics);
    lemma_without_lyrics(tags);
    let out = embedded(tags, kind, lyrics);
    let clean = without_lyrics(tags);
    let ready = with_tag(clean, kind);
    if has_kind(out, other) {
        let i = kind_index(out, other);
        assert(first_of_kind(ready, other, i));
        assert(i < clean.len());
        assert(clean[i] == ready[i]);
        assert forall|j: int| 0 <= j < i implies (#[trigger] clean[j]).kind != other by {
            assert(ready[j].kind != other);
        }
        assert(first_of_kind(clean, other, i));
        assert(first_of_kind(tags, other, i));
        lemma_not_lyrics(tags[i].entries);
    }
}

/// Embedding lyrics keeps every tag, with every item that is not lyrics, as it is and where it
/// is among the others, and every picture.
pub proof fn law_embedding_keeps_the_rest(
    tags: Seq<TagContents>,
    kind: TagKind,
    lyrics: Seq<char>,
    i: int,
)
    requires
        0 <= i < tags.len(),
    ensures
        i < embedded(tags, kind, lyrics).len(),
        stripped(embedded(tags, kind, lyrics)[i]) == stripped(tags[i]),
{
    lemma_embedded(tags, kind, lyrics);
    lemma_without_lyrics(tags);
    lemma_not_lyrics(tags[i].entries);
    let clean = without_lyrics(tags);
    assert(clean[i].kind == tags[i].kind);
    assert(not_lyrics(clean[i].entries) == not_lyrics(tags[i].entries));
    let ready = with_tag(clean, kind);
    assert(ready[i] == clean[i]);
    let out = embedded(tags, kind, lyrics);
    if i == kind_index(out, kind) {
        lemma_not_lyrics(ready[i].entries);
        lemma_not_lyrics_push(not_lyrics(ready[i].entries), lyrics);
    }
}

/// After removal, the first tag of each format that commonly holds lyrics has none. Further tags
/// of the same format are not looked at.
pub proof fn law_removal_leaves_no_lyrics(tags: Seq<TagContents>, kind: TagKind)
    requires
        is_cleared(kind),
        has_kind(tags, kind),
    ensures
        has_kind(without_lyrics(tags), kind),
        no_lyrics(without_lyrics(tags)[kind_index(without_lyrics(tags), kind)].entries),
{
    lemma_without_lyrics(tags);
    let i = kind_index(tags, kind);
    assert(first_of_kind(tags, kind, i));
    lemma_not_lyrics(tags[i].entries);
    assert(without_lyrics(tags)[i].entries == not_lyrics(tags[i].entries));
}

/// Removal keeps every tag, with every item that is not lyrics, as it is and where it is among
/// the others, and every picture.
pub proof fn law_removal_keeps_the_rest(tags: Seq<TagContents>, i: int)
    requires
        0 <= i < tags.len(),
    ensures
        without_lyrics(tags).len() == tags.len(),
        stripped(without_lyrics(tags)[i]) == stripped(tags[i]),
{
    lemma_without_lyrics(tags);
    lemma_not_lyrics(tags[i].entries);
    assert(without_lyrics(tags)[i].kind == tags[i].kind);
}

/// To remove lyrics twice is to remove them once.
pub proof fn law_removal_is_idempotent(tags: Seq<TagContents>)
    ensures
        without_lyrics(without_lyrics(tags)) == without_lyrics(tags),
{
    let once = without_lyrics(tags);
    lemma_without_lyrics(tags);
    lemma_without_lyrics(once);
    assert forall|i: int| 0 <= i < once.len() implies #[trigger] without_lyrics(once)[i]
        == once[i] by {
        lemma_not_lyrics(tags[i].entries);
        assert(once[i].kind == tags[i].kind);
    }
    assert(without_lyrics(once) =~= once);
}

/// What lyrics a file had does not matter to what it has after new ones are embedded.
pub proof fn law_embedding_forgets_old_lyrics(
    tags: Seq<TagContents>,
    kind: TagKind,
    lyrics: Seq<char>,
)
    ensures
        embedded(without_lyrics(tags), kind, lyrics) == embedded(tags, kind, lyrics),
{
    law_removal_is_idempotent(tags);
}

/// What removal makes of a file that lyrics were embedded in: all tags but the one with the
/// lyrics are as they were before those.
proof fn lemma_removal_after_embedding(
    tags: Seq<TagContents>,
    kind: TagKind,
    lyrics: Seq<char>,
    i: int,
)
    requires
        0 <= i < embedded(tags, kind, lyrics).len(),
    ensures
        ({
            let ready = with_tag(without_lyrics(tags), kind);
            let out = embedded(tags, kind, lyrics);
            let back = without_lyrics(out)[i];
            &&& stripped(back) == stripped(ready[i])
            &&& (i != kind_index(out, kind) || is_cleared(kind)) ==> back == ready[i]
        }),
{
    let clean = without_lyrics(tags);
    let ready = with_tag(clean, kind);
    let out = embedded(tags, kind, lyrics);
    let p = kind_index(out, kind);
    lemma_embedded(tags, kind, lyrics);
    lemma_without_lyrics(tags);
    lemma_without_lyrics(out);
    assert(without_lyrics(out)[i].kind == out[i].kind);
    assert(out[i].kind == ready[i].kind);
    lemma_not_lyrics(out[i].entries);
    lemma_not_lyrics(ready[i].entries);
    if i < clean.len() {
        assert(clean[i] == ready[i]);
        assert(clean[i].kind == tags[i].kind);
        lemma_not_lyrics(tags[i].entries);
        if first_of_kind(ready, ready[i].kind, i) {
            assert forall|j: int| 0 <= j < i implies (#[trigger] tags[j]).kind != tags[i].kind by {
                assert(ready[j].kind != ready[i].kind);
                assert(clean[j].kind == tags[j].kind);
            }
            assert(first_of_kind(tags, tags[i].kind, i));
        }
    }
    if i == p {
        lemma_not_lyrics_push(not_lyrics(ready[i].entries), lyrics);
    }
}

/// Removal undoes an embedding, except that a tag which the embedding added stays.
pub proof fn law_removal_undoes_embedding(
    tags: Seq<TagContents>,
    kind: TagKind,
    lyrics: Seq<char>,
)
    requires
        is_cleared(kind),
    ensures
        without_lyrics(embedded(tags, kind, lyrics)) == with_tag(without_lyrics(tags), kind),
{
    let ready = with_tag(without_lyrics(tags), kind);
    let out = embedded(tags, kind, lyrics);
    lemma_embedded(tags, kind, lyrics);
    lemma_without_lyrics(out);
    assert forall|i: int| 0 <= i < out.len() implies #[trigger] without_lyrics(out)[i]
        == ready[i] by {
        lemma_removal_after_embedding(tags, kind, lyrics, i);
    }
    assert(without_lyrics(out) =~= ready);
}

/// Removal does not look at other formats: lyrics that were embedded in a tag of one of these
/// stay, and the file with them as it is.
pub proof fn law_removal_passes_over_other_homes(
    tags: Seq<TagContents>,
    kind: TagKind,
    lyrics: Seq<char>,
)
    requires
        !is_cleared(kind),
    ensures
        without_lyrics(embedded(tags, kind, lyrics)) == embedded(tags, kind, lyrics),
{
    let out = embedded(tags, kind, lyrics);
    lemma_embedded(tags, kind, lyrics);
    lemma_without_lyrics(out);
    assert forall|i: int| 0 <= i < out.len() implies #[trigger] without_lyrics(out)[i]
        == out[i] by {
        lemma_removal_after_embedding(tags, kind, lyrics, i);
    }
    assert(without_lyrics(out) =~= out);
}

/// Of lyrics that are embedded one after the other the last ones remain, as if the earlier ones
/// had never been there.
pub proof fn law_last_embedding_wins(
    tags: Seq<TagContents>,
    kind: TagKind,
    first: Seq<char>,
    second: Seq<char>,
)
    ensures
        embedded(embedded(tags, kind, first), kind, second) == embedded(tags, kind, second),
{
    let ready = with_tag(without_lyrics(tags), kind);
    let once = embedded(tags, kind, first);
    let again = without_lyrics(once);
    let twice = embedded(once, kind, second);
    let direct = embedded(tags, kind, second);
    lemma_embedded(tags, kind, first);
    lemma_embedded(once, kind, second);
    lemma_embedded(tags, kind, second);
    lemma_without_lyrics(once);
    assert(with_tag(again, kind) == again);
    let p = kind_index(once, kind);
    assert(first_of_kind(again, kind, p));
    assert(first_of_kind(again, kind, kind_index(twice, kind)));
    lemma_one_first(again, kind, p, kind_index(twice, kind));
    lemma_one_first(ready, kind, p, kind_index(direct, kind));
    assert forall|i: int| 0 <= i < direct.len() implies #[trigger] twice[i] == direct[i] by {
        lemma_removal_after_embedding(tags, kind, first, i);
    }
    assert(twice =~= direct);
}

/// Whether any of `entries` has a key named `key`.
spec fn has_key(entries: Seq<TagEntry>, key: Seq<char>) -> bool {
    exists|i: int| first_of_key(entries, key, i)
}

/// Taking lyrics out keeps the first text of every other key.
proof fn lemma_text_without_lyrics(entries: Seq<TagEntry>, key: Seq<char>)
    requires
        key != "Lyrics"@,
    ensures
        has_key(not_lyrics(entries), key) == has_key(entries, key),
        first_text(not_lyrics(entries), key) == first_text(entries, key),
    decreases entries.len(),
{
    reveal(Seq::filter);
    if entries.len() > 0 {
        let front = entries.drop_last();
        lemma_text_without_lyrics(front, key);
        assert(entries =~= front.push(entries.last()));
        lemma_text_of_push(front, entries.last(), key);
        if entries.last().key != "Lyrics"@ {
            lemma_text_of_push(not_lyrics(front), entries.last(), key);
        }
    } else {
        assert(not_lyrics(entries) =~= entries);
    }
}

/// The first text of a key when one more item is added.
proof fn lemma_text_of_push(entries: Seq<TagEntry>, entry: TagEntry, key: Seq<char>)
    ensures
        has_key(entries.push(entry), key) == (has_key(entries, key) || entry.key == key),
        first_text(entries.push(entry), key) == (if has_key(entries, key) || entry.key != key {
            first_text(entries, key)
        } else {
            text_of(entry.value)
        }),
{
    let all = entries.push(entry);
    lemma_has_key(entries, key);
    if has_key(entries, key) {
        let i = choose|i: int| first_of_key(entries, key, i);
        assert forall|j: int| 0 <= j < i implies (#[trigger] all[j]).key != key by {
            assert(entries[j].key != key);
        }
        assert(first_of_key(all, key, i));
        let k = choose|k: int| first_of_key(all, key, k);
        if k < i {
            assert(entries[k].key != key);
        } else if i < k {
            assert(all[i].key != key);
        }
    } else {
        assert forall|j: int| 0 <= j < entries.len() implies (#[trigger] all[j]).key != key by {
            assert(entries[j].key != key);
        }
        if entry.key == key {
            assert(first_of_key(all, key, entries.len() as int));
            let k = choose|k: int| first_of_key(all, key, k);
            assert(k == entries.len());
        } else if has_key(all, key) {
            let k = choose|k: int| first_of_key(all, key, k);
            assert(all[k].key == key);
        }
    }
}

/// Where no item is the first of a key, none has that key.
proof fn lemma_has_key(entries: Seq<TagEntry>, key: Seq<char>)
    ensures
        has_key(entries, key) <==> exists|i: int|
            0 <= i < entries.len() && (#[trigger] entries[i]).key == key,
    decreases entries.len(),
{
    if entries.len() > 0 {
        let front = entries.drop_last();
        lemma_has_key(front, key);
        if has_key(front, key) {
            let i = choose|i: int| first_of_key(front, key, i);
            assert forall|j: int| 0 <= j < i implies (#[trigger] entries[j]).key != key by {
                assert(front[j].key != key);
            }
            assert(first_of_key(entries, key, i));
        } else {
            assert forall|j: int| 0 <= j < entries.len() - 1 implies (#[trigger] entries[j]).key
                != key by {
                assert(front[j].key != key);
            }
            if entries.last().key == key {
                assert(first_of_key(entries, key, entries.len() - 1));
            }
        }
    }
}

/// Embedding lyrics changes neither artist nor title of any tag.
proof fn lemma_tag_keeps_names(
    tags: Seq<TagContents>,
    kind: TagKind,
    lyrics: Seq<char>,
    i: int,
)
    requires
        0 <= i < tags.len(),
    ensures
        named_by(embedded(tags, kind, lyrics)[i]) == named_by(tags[i]),
{
    let out = embedded(tags, kind, lyrics);
    lemma_names_are_not_lyrics();
    law_embedding_keeps_the_rest(tags, kind, lyrics, i);
    lemma_text_without_lyrics(out[i].entries, "TrackArtist"@);
    lemma_text_without_lyrics(out[i].entries, "TrackTitle"@);
    lemma_text_without_lyrics(tags[i].entries, "TrackArtist"@);
    lemma_text_without_lyrics(tags[i].entries, "TrackTitle"@);
}

/// The keys of names are not that of lyrics.
proof fn lemma_names_are_not_lyrics()
    ensures
        "TrackArtist"@ != "Lyrics"@,
        "TrackTitle"@ != "Lyrics"@,
{
    reveal_strlit("TrackArtist");
    reveal_strlit("TrackTitle");
    reveal_strlit("Lyrics");
    assert("TrackArtist"@.len() == 11 && "TrackTitle"@.len() == 10 && "Lyrics"@.len() == 6);
}

/// Embedding lyrics keeps the formats of the tags that were there, and their order.
proof fn lemma_embedding_keeps_kinds(
    tags: Seq<TagContents>,
    kind: TagKind,
    lyrics: Seq<char>,
)
    requires
        has_kind(tags, kind),
    ensures
        embedded(tags, kind, lyrics).len() == tags.len(),
        has_kind(embedded(tags, kind, lyrics), kind),
        kind_index(embedded(tags, kind, lyrics), kind) == kind_index(tags, kind),
{
    let out = embedded(tags, kind, lyrics);
    lemma_without_lyrics(tags);
    lemma_embedded(tags, kind, lyrics);
    let clean = without_lyrics(tags);
    assert(with_tag(clean, kind) == clean);
    let j = kind_index(tags, kind);
    assert(first_of_kind(clean, kind, j));
    assert(first_of_kind(out, kind, j));
    lemma_one_first(out, kind, j, kind_index(out, kind));
}

/// An audio file has the same artist and title before and after lyrics are embedded, unless they
/// stand in another tag than the one that the lyrics go to and that one is new.
pub proof fn law_names_survive_embedding(before: TaggedFile, after: TaggedFile, lyrics: Seq<char>)
    requires
        format_of(before) !is Custom,
        format_of(after) == format_of(before),
        tags_of(after) == embedded(tags_of(before), lyrics_home(before), lyrics),
        has_kind(tags_of(before), lyrics_home(before)) || tagged_names(Some(before)) is None,
    ensures
        tagged_names(Some(after)) == tagged_names(Some(before)),
{
    let tags = tags_of(before);
    let kind = lyrics_home(before);
    let out = tags_of(after);
    assert(kind == primary_kind(format_of(before)));
    lemma_embedded(tags, kind, lyrics);
    if has_kind(tags, kind) {
        lemma_embedding_keeps_kinds(tags, kind, lyrics);
        let i = kind_index(tags, kind);
        assert(first_of_kind(tags, kind, i));
        lemma_tag_keeps_names(tags, kind, lyrics, i);
    } else {
        lemma_without_lyrics(tags);
        let clean = without_lyrics(tags);
        lemma_new_kind(clean, kind);
        let ready = with_tag(clean, kind);
        let p = kind_index(out, kind);
        lemma_one_first(ready, kind, p, clean.len() as int);
        lemma_not_lyrics(Seq::<TagEntry>::empty());
        let entries = out[p].entries;
        assert(entries =~= seq![text_entry("Lyrics"@, lyrics)]);
        lemma_names_are_not_lyrics();
        assert(!has_key(entries, "TrackArtist"@));
    }
}

/// An audio file has the same artist and title before and after its lyrics are removed.
pub proof fn law_names_survive_removal(before: TaggedFile, after: TaggedFile)
    requires
        format_of(after) == format_of(before),
        tags_of(after) == without_lyrics(tags_of(before)),
    ensures
        tagged_names(Some(after)) == tagged_names(Some(before)),
{
    let tags = tags_of(before);
    let out = tags_of(after);
    lemma_without_lyrics(tags);
    lemma_names_are_not_lyrics();
    assert forall|i: int| 0 <= i < tags.len() implies named_by(#[trigger] out[i]) == named_by(
        tags[i],
    ) by {
        lemma_text_without_lyrics(tags[i].entries, "TrackArtist"@);
        lemma_text_without_lyrics(tags[i].entries, "TrackTitle"@);
    }
    let primary = primary_kind(format_of(before));
    if has_kind(tags, primary) {
        assert(first_of_kind(tags, primary, kind_index(tags, primary)));
    }
}

/// Every format of audio file supports the format of tag that its lyrics go to, and that format
/// has a place for lyrics. Removal takes them out again in every format of audio file but those
/// whose lyrics go to an APE tag.
pub proof fn law_lyrics_have_a_home(format: AudioFormat)
    requires
        format !is Custom,
    ensures
        supports(format, lyrics_kind(format, primary_kind(format))),
        holds_key(lyrics_kind(format, primary_kind(format)), TagKey::Lyrics),
        is_cleared(lyrics_kind(format, primary_kind(format))) == !(format is Ape || format is Mpc
            || format is WavPack),
{
}

/// Taking the items of one key out of a tag goes part by part, takes out the items with that key,
/// and keeps all others.
pub proof fn law_items_of_one_key_are_taken_out(
    a: Seq<TagEntry>,
    b: Seq<TagEntry>,
    entry: TagEntry,
    name: Seq<char>,
)
    ensures
        without_key(a + b, name) == without_key(a, name) + without_key(b, name),
        without_key(Seq::empty(), name) == Seq::<TagEntry>::empty(),
        without_key(seq![entry], name) == (if entry.key == name {
            Seq::empty()
        } else {
            seq![entry]
        }),
        not_lyrics(a) == without_key(a, "Lyrics"@),
{
    let keep = |e: TagEntry| e.key != name;
    Seq::filter_distributes_over_add(a, b, keep);
    reveal_with_fuel(Seq::filter, 2);
    assert(without_key(Seq::empty(), name) =~= Seq::<TagEntry>::empty());
    assert(seq![entry].drop_last() =~= Seq::<TagEntry>::empty());
    assert(seq![entry].last() == entry);
    assert(without_key(seq![entry], name) =~= (if entry.key == name {
        Seq::empty()
    } else {
        seq![entry]
    }));
}

/// A tag without its lyrics has all else that the tag has; an item with a text has that text, and
/// neither language nor description; an empty tag holds nothing.
pub proof fn law_parts_of_a_tag(tag: TagContents, name: Seq<char>, text: Seq<char>, kind: TagKind)
    ensures
        stripped(tag).entries == not_lyrics(tag.entries),
        stripped(tag).kind == tag.kind,
        stripped(tag).pictures == tag.pictures,
        stripped(tag).format_specific == tag.format_specific,
        text_entry(name, text).key == name,
        text_entry(name, text).value == TagValue::Text(text),
        text_entry(name, text).language == seq!['X' as u8, 'X' as u8, 'X' as u8],
        text_entry(name, text).description.len() == 0,
        empty_tag(kind).kind == kind,
        empty_tag(kind).entries.len() == 0,
        empty_tag(kind).pictures.len() == 0,
        !empty_tag(kind).format_specific,
{
}

/// What removal does to each tag of a file: the first tag of each format that commonly holds
/// lyrics loses them, and every other tag stays as it is.
pub proof fn law_what_removal_does_to_each_tag(tags: Seq<TagContents>, i: int)
    requires
        0 <= i < tags.len(),
    ensures
        without_lyrics(tags).len() == tags.len(),
        ({
            let kind = tags[i].kind;
            let cleared = kind is Id3v2 || kind is VorbisComments || kind is Mp4Ilst;
            let first = forall|j: int| 0 <= j < i ==> (#[trigger] tags[j]).kind != kind;
            &&& cleared && first ==> without_lyrics(tags)[i] == stripped(tags[i])
            &&& !(cleared && first) ==> without_lyrics(tags)[i] == tags[i]
        }),
{
    lemma_without_lyrics(tags);
    assert(without_lyrics(tags)[i] == without_lyrics(tags)[i]);
}

/// What embedding does to each tag of a file: the first tag of the format that the lyrics go to
/// has them as its only lyrics behind all its other items; of the other formats that commonly
/// hold lyrics, the first tag of each loses them; every other tag stays as it is; and where there
/// was no tag for the lyrics, there is one more, which holds nothing else.
pub proof fn law_what_embedding_does_to_each_tag(
    tags: Seq<TagContents>,
    home: TagKind,
    lyrics: Seq<char>,
    i: int,
)
    requires
        0 <= i < tags.len(),
    ensures
        ({
            let out = embedded(tags, home, lyrics);
            let kind = tags[i].kind;
            let cleared = kind is Id3v2 || kind is VorbisComments || kind is Mp4Ilst;
            let first = forall|j: int| 0 <= j < i ==> (#[trigger] tags[j]).kind != kind;
            &&& first && kind == home ==> out[i] == (TagContents {
                entries: not_lyrics(tags[i].entries).push(text_entry("Lyrics"@, lyrics)),
                ..tags[i]
            })
            &&& first && kind != home && cleared ==> out[i] == stripped(tags[i])
            &&& !first || (kind != home && !cleared) ==> out[i] == tags[i]
        }),
        (exists|j: int| 0 <= j < tags.len() && (#[trigger] tags[j]).kind == home) ==> embedded(
            tags,
            home,
            lyrics,
        ).len() == tags.len(),
        (forall|j: int| 0 <= j < tags.len() ==> (#[trigger] tags[j]).kind != home) ==> {
            let out = embedded(tags, home, lyrics);
            &&& out.len() == tags.len() + 1
            &&& out.last() == (TagContents {
                entries: seq![text_entry("Lyrics"@, lyrics)],
                ..empty_tag(home)
            })
        },
{
    lemma_has_kind(tags, home);
    lemma_without_lyrics(tags);
    lemma_embedded(tags, home, lyrics);
    let clean = without_lyrics(tags);
    let ready = with_tag(clean, home);
    let out = embedded(tags, home, lyrics);
    let p = kind_index(out, home);
    let kind = tags[i].kind;
    let first = forall|j: int| 0 <= j < i ==> (#[trigger] tags[j]).kind != kind;
    assert(clean[i] == ready[i]);
    assert(first == first_of_kind(tags, kind, i));
    lemma_not_lyrics(tags[i].entries);
    if has_kind(tags, home) {
        assert(ready == clean);
        assert(first_of_kind(tags, home, p));
        if first && kind == home {
            lemma_one_first(tags, home, p, i);
        }
    } else {
        lemma_new_kind(clean, home);
        lemma_one_first(ready, home, p, clean.len() as int);
        lemma_not_lyrics(Seq::<TagEntry>::empty());
        assert(out.last() == out[p]);
        assert(out[p].entries =~= seq![text_entry("Lyrics"@, lyrics)]);
    }
}

/// A file without any tag gets one for its lyrics, which holds nothing else.
pub proof fn law_untagged_file_gets_one_tag(home: TagKind, lyrics: Seq<char>)
    ensures
        embedded(Seq::empty(), home, lyrics) == seq![
            TagContents {
                entries: seq![text_entry("Lyrics"@, lyrics)],
                ..empty_tag(home)
            },
        ],
{
    let none = Seq::<TagContents>::empty();
    lemma_has_kind(none, home);
    lemma_without_lyrics(none);
    lemma_embedded(none, home, lyrics);
    let clean = without_lyrics(none);
    lemma_new_kind(clean, home);
    let out = embedded(none, home, lyrics);
    lemma_one_first(with_tag(clean, home), home, kind_index(out, home), 0);
    lemma_not_lyrics(Seq::<TagEntry>::empty());
    assert(out[0].entries =~= seq![text_entry("Lyrics"@, lyrics)]);
    assert(out =~= seq![
        TagContents { entries: seq![text_entry("Lyrics"@, lyrics)], ..empty_tag(home) },
    ]);
}

/// A file is saved after a removal if and only if one of its tags is of a format that commonly
/// holds lyrics; otherwise there is nothing to remove.
pub proof fn law_when_there_is_something_to_remove(tags: Seq<TagContents>)
    ensures
        may_hold_lyrics(tags) <==> exists|i: int|
            0 <= i < tags.len() && ((#[trigger] tags[i]).kind is Id3v2 || tags[i].kind
                is VorbisComments || tags[i].kind is Mp4Ilst),
        !may_hold_lyrics(tags) ==> without_lyrics(tags) == tags,
{
    lemma_has_kind(tags, TagKind::Id3v2);
    lemma_has_kind(tags, TagKind::VorbisComments);
    lemma_has_kind(tags, TagKind::Mp4Ilst);
}

/// In which format of tag the lyrics of each format of audio file go.
pub proof fn law_where_lyrics_go(format: AudioFormat, primary: TagKind)
    ensures
        format is Mpeg ==> lyrics_kind(format, primary) is Id3v2,
        format is Flac || format is Opus || format is Vorbis || format is Speex ==> lyrics_kind(
            format,
            primary,
        ) is VorbisComments,
        format is Mp4 ==> lyrics_kind(format, primary) is Mp4Ilst,
        !(format is Mpeg || format is Flac || format is Opus || format is Vorbis || format is Speex
            || format is Mp4) ==> lyrics_kind(format, primary) == primary,
{
}

/// Where the lyrics of a file go follows from its format alone: to Vorbis comments in FLAC and Ogg
/// files, to ID3v2 in MP3 and WAV files, and to the item list in MP4 files.
pub proof fn law_home_of_a_file(file: TaggedFile)
    ensures
        lyrics_home(file) == lyrics_kind(format_of(file), primary_kind(format_of(file))),
        format_of(file) is Flac || format_of(file) is Vorbis || format_of(file) is Opus
            ==> lyrics_home(file) is VorbisComments,
        format_of(file) is Mpeg || format_of(file) is Wav ==> lyrics_home(file) is Id3v2,
        format_of(file) is Mp4 ==> lyrics_home(file) is Mp4Ilst,
{
}

/// The text of a key is that of the first item with it, where that item is text; without such an
/// item there is none.
pub proof fn law_first_item_of_a_key(
    before: Seq<TagEntry>,
    entry: TagEntry,
    after: Seq<TagEntry>,
    text: Seq<char>,
)
    requires
        forall|i: int| 0 <= i < before.len() ==> (#[trigger] before[i]).key != entry.key,
    ensures
        entry.value == TagValue::Text(text) ==> first_text(
            before + seq![entry] + after,
            entry.key,
        ) == Some(text),
        entry.value !is Text ==> first_text(before + seq![entry] + after, entry.key) is None,
        first_text(before, entry.key) is None,
{
    let all = before + seq![entry] + after;
    let n = before.len() as int;
    assert forall|j: int| 0 <= j < n implies (#[trigger] all[j]).key != entry.key by {
        assert(before[j].key != entry.key);
    }
    assert(all[n] == entry);
    assert(first_of_key(all, entry.key, n));
    let k = choose|k: int| first_of_key(all, entry.key, k);
    if k < n {
        assert(all[k].key != entry.key);
    } else if n < k {
        assert(all[n].key != entry.key);
    }
    if exists|i: int| first_of_key(before, entry.key, i) {
        let i = choose|i: int| first_of_key(before, entry.key, i);
        assert(before[i].key != entry.key);
    }
}

/// The names that a tag gives are the text of its first artist item and then that of its first
/// title item, whatever these texts are; without both there are none.
pub proof fn law_artist_comes_before_title(
    tag: TagContents,
    i: int,
    j: int,
    artist: Seq<char>,
    title: Seq<char>,
)
    requires
        first_of_key(tag.entries, "TrackArtist"@, i),
        first_of_key(tag.entries, "TrackTitle"@, j),
    ensures
        tag.entries[i].value == TagValue::Text(artist) && tag.entries[j].value == TagValue::Text(
            title,
        ) ==> named_by(tag) == Some((artist, title)),
        tag.entries[i].value !is Text || tag.entries[j].value !is Text ==> named_by(tag) is None,
{
    let x = choose|x: int| first_of_key(tag.entries, "TrackArtist"@, x);
    let y = choose|y: int| first_of_key(tag.entries, "TrackTitle"@, y);
    lemma_one_first_key(tag.entries, "TrackArtist"@, i, x);
    lemma_one_first_key(tag.entries, "TrackTitle"@, j, y);
}

/// Only one item is the first of a key.
proof fn lemma_one_first_key(entries: Seq<TagEntry>, key: Seq<char>, i: int, j: int)
    requires
        first_of_key(entries, key, i),
        first_of_key(entries, key, j),
    ensures
        i == j,
{
    if i < j {
        assert(entries[i].key != key);
    } else if j < i {
        assert(entries[j].key != key);
    }
}

/// A tag that lacks an artist item or a title item gives no names.
pub proof fn law_no_names_without_both(tag: TagContents)
    requires
        (forall|i: int|
            0 <= i < tag.entries.len() ==> (#[trigger] tag.entries[i]).key != "TrackArtist"@) || (
        forall|i: int|
            0 <= i < tag.entries.len() ==> (#[trigger] tag.entries[i]).key != "TrackTitle"@),
    ensures
        named_by(tag) is None,
{
    lemma_has_key(tag.entries, "TrackArtist"@);
    lemma_has_key(tag.entries, "TrackTitle"@);
}

/// The tag that is read for the names of a file is the first of the primary format, wherever it
/// stands; without one it is the first of all; and without any tag there are no names in it.
pub proof fn law_which_tag_is_read(file: TaggedFile, i: int)
    ensures
        ({
            let tags = tags_of(file);
            let primary = primary_kind(format_of(file));
            &&& 0 <= i < tags.len() && tags[i].kind == primary && (forall|j: int|
                0 <= j < i ==> (#[trigger] tags[j]).kind != primary) ==> tagged_names(Some(file))
                == named_by(tags[i])
            &&& tags.len() > 0 && (forall|j: int|
                0 <= j < tags.len() ==> (#[trigger] tags[j]).kind != primary) ==> tagged_names(
                Some(file),
            ) == named_by(tags[0])
            &&& tags.len() == 0 ==> tagged_names(Some(file)) is None
        }),
        tagged_names(None) is None,
{
    let tags = tags_of(file);
    let primary = primary_kind(format_of(file));
    lemma_has_kind(tags, primary);
    if first_of_kind(tags, primary, i) {
        assert(has_kind(tags, primary));
        lemma_one_first(tags, primary, i, kind_index(tags, primary));
    }
}

/// The names in the tags of a file go before those in its file name. A file that has none in its
/// tags and is called `number artist - title.ext` is by that artist and has that title, with the
/// artist and the title tidy, nothing in the artist like a separator, and nothing at its start
/// like a track number.
pub proof fn law_names_of_a_file(
    opened: Option<TaggedFile>,
    number: Seq<char>,
    artist: Seq<char>,
    title: Seq<char>,
    ext: Seq<char>,
)
    requires
        all_in(number, CharClass::TrackNumber),
        tidy(artist),
        artist.len() > 0,
        !CharClass::TrackNumber.holds(artist[0]),
        !has_part(artist, seq![' ', '-', ' ']),
        tidy(title),
        title.len() > 0,
        !ext.contains('.'),
    ensures
        ({
            let stem = number + (artist + seq![' ', '-', ' '] + title);
            let name = stem + seq!['.'] + ext;
            match tagged_names(opened) {
                Some(names) => names_of(opened, name) == Some(names),
                None => names_of(opened, name) == Some((artist, title)),
            }
        }),
        file_view(None) is None,
{
    let rest = artist + seq![' ', '-', ' '] + title;
    let stem = number + rest;
    law_names_fall_apart(stem, ext);
    assert(rest[0] == artist[0]);
    law_trim_start_cuts_the_edge(number, rest, CharClass::TrackNumber);
    law_query_reads_back(artist, title);
    assert(rest.last() == title.last());
    let empty = Seq::<char>::empty();
    assert(empty + rest + empty =~= rest);
    law_trim_cuts_the_edges(empty, rest, empty, CharClass::Space);
}

/// Where the tags of a file give no names, its names are those that its file name gives without
/// the extension and a track number.
pub proof fn law_file_name_is_the_fallback(file: &TaggedFile, base: Seq<char>, ext: Seq<char>)
    requires
        tagged_names(Some(*file)) is None,
        base.len() > 0,
        !ext.contains('.'),
    ensures
        names_of(Some(*file), base + seq!['.'] + ext) == artist_and_title(
            trim_start(base, CharClass::TrackNumber),
        ),
        file_view(Some(file)) == Some(*file),
{
    law_names_fall_apart(base, ext);
}

} // verus!
