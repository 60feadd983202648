//! Finding the audio file that belongs to a name.

use vstd::prelude::*;
use vstd::string::StringExecFns;

use crate::file_laws::law_names_fall_apart;
use crate::files::{stem, stem_of};
use crate::log::{debug_line, push_line3};
use crate::text::{alphanumeric, chars_of, find_part, has_part, lowercase, occurs_at};
use crate::text_laws::law_text_around_a_part;
use crate::walk::FoundFile;

verus! {

/// The letter without its accents for each lower-case Latin letter that Unicode spells in one
/// character with them, and the letter i for the one without a dot. Any other character stays
/// as it is; a stroke through a letter, as in ø, is no accent.
pub open spec fn plain_letter(c: char) -> char {
    match c {
        'à' | 'á' | 'â' | 'ã' | 'ä' | 'å' | 'ā' | 'ă' | 'ą' | 'ǎ' | 'ǟ' | 'ǡ' | 'ǻ'
        | 'ȁ' | 'ȃ' | 'ȧ' | 'ḁ' | 'ạ' | 'ả' | 'ấ' | 'ầ' | 'ẩ' | 'ẫ' | 'ậ' | 'ắ' | 'ằ'
        | 'ẳ' | 'ẵ' | 'ặ' => 'a',
        'ḃ' | 'ḅ' | 'ḇ' => 'b',
        'ç' | 'ć' | 'ĉ' | 'ċ' | 'č' | 'ḉ' => 'c',
        'ď' | 'ḋ' | 'ḍ' | 'ḏ' | 'ḑ' | 'ḓ' => 'd',
        'è' | 'é' | 'ê' | 'ë' | 'ē' | 'ĕ' | 'ė' | 'ę' | 'ě' | 'ȅ' | 'ȇ' | 'ȩ' | 'ḕ'
        | 'ḗ' | 'ḙ' | 'ḛ' | 'ḝ' | 'ẹ' | 'ẻ' | 'ẽ' | 'ế' | 'ề' | 'ể' | 'ễ' | 'ệ' => 'e',
        'ḟ' => 'f',
        'ĝ' | 'ğ' | 'ġ' | 'ģ' | 'ǧ' | 'ǵ' | 'ḡ' => 'g',
        'ĥ' | 'ȟ' | 'ḣ' | 'ḥ' | 'ḧ' | 'ḩ' | 'ḫ' | 'ẖ' => 'h',
        'ì' | 'í' | 'î' | 'ï' | 'ĩ' | 'ī' | 'ĭ' | 'į' | 'ǐ' | 'ȉ' | 'ȋ' | 'ḭ' | 'ḯ'
        | 'ỉ' | 'ị' | 'ı' => 'i',
        'ĵ' | 'ǰ' => 'j',
        'ķ' | 'ǩ' | 'ḱ' | 'ḳ' | 'ḵ' => 'k',
        'ĺ' | 'ļ' | 'ľ' | 'ḷ' | 'ḹ' | 'ḻ' | 'ḽ' => 'l',
        'ḿ' | 'ṁ' | 'ṃ' => 'm',
        'ñ' | 'ń' | 'ņ' | 'ň' | 'ǹ' | 'ṅ' | 'ṇ' | 'ṉ' | 'ṋ' => 'n',
        'ò' | 'ó' | 'ô' | 'õ' | 'ö' | 'ō' | 'ŏ' | 'ő' | 'ơ' | 'ǒ' | 'ǫ' | 'ǭ' | 'ȍ'
        | 'ȏ' | 'ȫ' | 'ȭ' | 'ȯ' | 'ȱ' | 'ṍ' | 'ṏ' | 'ṑ' | 'ṓ' | 'ọ' | 'ỏ' | 'ố' | 'ồ'
        | 'ổ' | 'ỗ' | 'ộ' | 'ớ' | 'ờ' | 'ở' | 'ỡ' | 'ợ' => 'o',
        'ṕ' | 'ṗ' => 'p',
        'ŕ' | 'ŗ' | 'ř' | 'ȑ' | 'ȓ' | 'ṙ' | 'ṛ' | 'ṝ' | 'ṟ' => 'r',
        'ś' | 'ŝ' | 'ş' | 'š' | 'ș' | 'ṡ' | 'ṣ' | 'ṥ' | 'ṧ' | 'ṩ' => 's',
        'ţ' | 'ť' | 'ț' | 'ṫ' | 'ṭ' | 'ṯ' | 'ṱ' | 'ẗ' => 't',
        'ù' | 'ú' | 'û' | 'ü' | 'ũ' | 'ū' | 'ŭ' | 'ů' | 'ű' | 'ų' | 'ư' | 'ǔ' | 'ǖ'
        | 'ǘ' | 'ǚ' | 'ǜ' | 'ȕ' | 'ȗ' | 'ṳ' | 'ṵ' | 'ṷ' | 'ṹ' | 'ṻ' | 'ụ' | 'ủ' | 'ứ'
        | 'ừ' | 'ử' | 'ữ' | 'ự' => 'u',
        'ṽ' | 'ṿ' => 'v',
        'ŵ' | 'ẁ' | 'ẃ' | 'ẅ' | 'ẇ' | 'ẉ' | 'ẘ' => 'w',
        'ẋ' | 'ẍ' => 'x',
        'ý' | 'ÿ' | 'ŷ' | 'ȳ' | 'ẏ' | 'ẙ' | 'ỳ' | 'ỵ' | 'ỷ' | 'ỹ' => 'y',
        'ź' | 'ż' | 'ž' | 'ẑ' | 'ẓ' | 'ẕ' => 'z',
        'ǣ' | 'ǽ' => 'æ',
        'ǿ' => 'ø',
        'ẛ' => 'ſ',
        'ǯ' => 'ʒ',
        _ => c,
    }
}

/// The letters and numbers of `s`, without accents.
pub open spec fn folded(s: Seq<char>) -> Seq<char> {
    s.map_values(|c: char| plain_letter(c)).filter(|c: char| alphanumeric(c))
}

/// The form of a name in which names are compared.
pub open spec fn normalized(s: Seq<char>) -> Seq<char> {
    folded(lowercase(s))
}

/// The letter without its accents for an accented lower-case Latin letter. Any other character
/// stays as it is.
pub fn strip_accent(c: char) -> (r: char)
    ensures
        r == plain_letter(c),
{
    match c {
        'à' | 'á' | 'â' | 'ã' | 'ä' | 'å' | 'ā' | 'ă' | 'ą' | 'ǎ' | 'ǟ' | 'ǡ' | 'ǻ'
        | 'ȁ' | 'ȃ' | 'ȧ' | 'ḁ' | 'ạ' | 'ả' | 'ấ' | 'ầ' | 'ẩ' | 'ẫ' | 'ậ' | 'ắ' | 'ằ'
        | 'ẳ' | 'ẵ' | 'ặ' => 'a',
        'ḃ' | 'ḅ' | 'ḇ' => 'b',
        'ç' | 'ć' | 'ĉ' | 'ċ' | 'č' | 'ḉ' => 'c',
        'ď' | 'ḋ' | 'ḍ' | 'ḏ' | 'ḑ' | 'ḓ' => 'd',
        'è' | 'é' | 'ê' | 'ë' | 'ē' | 'ĕ' | 'ė' | 'ę' | 'ě' | 'ȅ' | 'ȇ' | 'ȩ' | 'ḕ'
        | 'ḗ' | 'ḙ' | 'ḛ' | 'ḝ' | 'ẹ' | 'ẻ' | 'ẽ' | 'ế' | 'ề' | 'ể' | 'ễ' | 'ệ' => 'e',
        'ḟ' => 'f',
        'ĝ' | 'ğ' | 'ġ' | 'ģ' | 'ǧ' | 'ǵ' | 'ḡ' => 'g',
        'ĥ' | 'ȟ' | 'ḣ' | 'ḥ' | 'ḧ' | 'ḩ' | 'ḫ' | 'ẖ' => 'h',
        'ì' | 'í' | 'î' | 'ï' | 'ĩ' | 'ī' | 'ĭ' | 'į' | 'ǐ' | 'ȉ' | 'ȋ' | 'ḭ' | 'ḯ'
        | 'ỉ' | 'ị' | 'ı' => 'i',
        'ĵ' | 'ǰ' => 'j',
        'ķ' | 'ǩ' | 'ḱ' | 'ḳ' | 'ḵ' => 'k',
        'ĺ' | 'ļ' | 'ľ' | 'ḷ' | 'ḹ' | 'ḻ' | 'ḽ' => 'l',
        'ḿ' | 'ṁ' | 'ṃ' => 'm',
        'ñ' | 'ń' | 'ņ' | 'ň' | 'ǹ' | 'ṅ' | 'ṇ' | 'ṉ' | 'ṋ' => 'n',
        'ò' | 'ó' | 'ô' | 'õ' | 'ö' | 'ō' | 'ŏ' | 'ő' | 'ơ' | 'ǒ' | 'ǫ' | 'ǭ' | 'ȍ'
        | 'ȏ' | 'ȫ' | 'ȭ' | 'ȯ' | 'ȱ' | 'ṍ' | 'ṏ' | 'ṑ' | 'ṓ' | 'ọ' | 'ỏ' | 'ố' | 'ồ'
        | 'ổ' | 'ỗ' | 'ộ' | 'ớ' | 'ờ' | 'ở' | 'ỡ' | 'ợ' => 'o',
        'ṕ' | 'ṗ' => 'p',
        'ŕ' | 'ŗ' | 'ř' | 'ȑ' | 'ȓ' | 'ṙ' | 'ṛ' | 'ṝ' | 'ṟ' => 'r',
        'ś' | 'ŝ' | 'ş' | 'š' | 'ș' | 'ṡ' | 'ṣ' | 'ṥ' | 'ṧ' | 'ṩ' => 's',
        'ţ' | 'ť' | 'ț' | 'ṫ' | 'ṭ' | 'ṯ' | 'ṱ' | 'ẗ' => 't',
        'ù' | 'ú' | 'û' | 'ü' | 'ũ' | 'ū' | 'ŭ' | 'ů' | 'ű' | 'ų' | 'ư' | 'ǔ' | 'ǖ'
        | 'ǘ' | 'ǚ' | 'ǜ' | 'ȕ' | 'ȗ' | 'ṳ' | 'ṵ' | 'ṷ' | 'ṹ' | 'ṻ' | 'ụ' | 'ủ' | 'ứ'
        | 'ừ' | 'ử' | 'ữ' | 'ự' => 'u',
        'ṽ' | 'ṿ' => 'v',
        'ŵ' | 'ẁ' | 'ẃ' | 'ẅ' | 'ẇ' | 'ẉ' | 'ẘ' => 'w',
        'ẋ' | 'ẍ' => 'x',
        'ý' | 'ÿ' | 'ŷ' | 'ȳ' | 'ẏ' | 'ẙ' | 'ỳ' | 'ỵ' | 'ỷ' | 'ỹ' => 'y',
        'ź' | 'ż' | 'ž' | 'ẑ' | 'ẓ' | 'ẕ' => 'z',
        'ǣ' | 'ǽ' => 'æ',
        'ǿ' => 'ø',
        'ẛ' => 'ſ',
        'ǯ' => 'ʒ',
        _ => c,
    }
}

/// The letters and numbers of `lowered`, a text in lower case, without accents.
pub fn fold_lowered(lowered: &str) -> (r: String)
    ensures
        r@ == folded(lowered@),
{
    let chars = chars_of(lowered);
    let ghost mapped = chars@.map_values(|c: char| plain_letter(c));
    let ghost keep = |c: char| alphanumeric(c);
    let mut r = String::new();
    let mut i: usize = 0;
    assert(mapped.take(0).filter(keep) =~= Seq::empty()) by {
        reveal(Seq::filter);
    }
    while i < chars.len()
        invariant
            i <= chars@.len(),
            mapped == chars@.map_values(|c: char| plain_letter(c)),
            keep == |c: char| alphanumeric(c),
            r@ == mapped.take(i as int).filter(keep),
        decreases chars@.len() - i,
    {
        let c = strip_accent(chars[i]);
        if c.is_alphanumeric() {
            r.push(c);
        }
        proof {
            reveal(Seq::filter);
            assert(mapped.take(i as int + 1).drop_last() =~= mapped.take(i as int));
        }
        i += 1;
    }
    assert(mapped.take(mapped.len() as int) =~= mapped);
    r
}

/// Brings a name into the form in which names are compared: in lower case, without accents,
/// punctuation and spaces.
pub fn normalize_string(input: &str) -> (r: String)
    ensures
        r@ == normalized(input@),
{
    fold_lowered(input.to_lowercase().as_str())
}

/// Whether two names, each in the form in which names are compared, belong together: one of
/// them is part of the other.
pub open spec fn belong_together(a: Seq<char>, b: Seq<char>) -> bool {
    has_part(a, b) || has_part(b, a)
}

/// Whether the audio file `file` belongs to the name `base_name`.
pub open spec fn belongs_to(file: FoundFile, base_name: Seq<char>) -> bool {
    belong_together(normalized(stem(file.name@)), normalized(base_name))
}

/// Whether two names, each in the form in which names are compared, belong together.
pub fn names_match(a: &str, b: &str) -> (r: bool)
    ensures
        r == belong_together(a@, b@),
{
    let x = chars_of(a);
    let y = chars_of(b);
    find_part(x.as_slice(), y.as_slice()).is_some() || find_part(
        y.as_slice(),
        x.as_slice(),
    ).is_some()
}

/// Whether the file at `i` is the first of `files` that belongs to the name `base_name`, which
/// has letters or numbers.
pub open spec fn first_match(base_name: Seq<char>, files: Seq<FoundFile>, i: int) -> bool {
    &&& normalized(base_name).len() > 0
    &&& 0 <= i < files.len()
    &&& belongs_to(files[i], base_name)
    &&& forall|j: int| 0 <= j < i ==> !belongs_to(#[trigger] files[j], base_name)
}

/// The index of the first of `files` that belongs to the name `base_name`. To a name without
/// letters and numbers none does.
pub open spec fn matching_file(base_name: Seq<char>, files: Seq<FoundFile>) -> Option<int> {
    if exists|i: int| first_match(base_name, files, i) {
        Some(choose|i: int| first_match(base_name, files, i))
    } else {
        None
    }
}

/// What `find_matching_audio_file` writes to the log.
pub open spec fn match_report(base_name: Seq<char>, files: Seq<FoundFile>, debug: bool) -> Seq<
    char,
> {
    match matching_file(base_name, files) {
        Some(i) => debug_line(
            debug,
            "[DEBUG] Matched '"@ + files[i].display@ + ("' for target '"@ + base_name + "'"@),
        ),
        None => Seq::empty(),
    }
}

/// Only one file is the first match.
proof fn lemma_matching_file(base_name: Seq<char>, files: Seq<FoundFile>, i: int)
    requires
        first_match(base_name, files, i),
    ensures
        matching_file(base_name, files) == Some(i),
{
    let k = choose|k: int| first_match(base_name, files, k);
    if k < i {
        assert(!belongs_to(files[k], base_name));
    } else if i < k {
        assert(!belongs_to(files[i], base_name));
    }
}

/// The index of the first of `files` that belongs to the name `base_name`. To a name without
/// letters and numbers none does.
pub fn find_matching_audio_file(
    base_name: &str,
    files: &Vec<FoundFile>,
    debug: bool,
    log: &mut String,
) -> (r: Option<usize>)
    ensures
        match r {
            Some(i) => i < files@.len() && matching_file(base_name@, files@) == Some(i as int),
            None => matching_file(base_name@, files@) is None,
        },
        final(log)@ == old(log)@ + match_report(base_name@, files@, debug),
{
    let base = normalize_string(base_name);
    let mut found: Option<usize> = None;
    if !base.as_str().is_empty() {
        let mut i: usize = 0;
        while i < files.len() && found.is_none()
            invariant
                i <= files@.len(),
                base@ == normalized(base_name@),
                base@.len() > 0,
                match found {
                    Some(k) => first_match(base_name@, files@, k as int),
                    None => forall|j: int|
                        0 <= j < i ==> !belongs_to(#[trigger] files@[j], base_name@),
                },
            decreases files@.len() - i,
        {
            let audio = normalize_string(stem_of(files[i].name.as_str()).as_str());
            if names_match(audio.as_str(), base.as_str()) {
                found = Some(i);
            }
            i += 1;
        }
    }
    if let Some(i) = found {
        proof {
            lemma_matching_file(base_name@, files@, i as int);
        }
        if debug {
            log.append("[DEBUG] Matched '");
            log.append(files[i].display.as_str());
            push_line3(log, "' for target '", base_name, "'");
        }
    }
    assert(log@ =~= old(log)@ + match_report(base_name@, files@, debug));
    found
}

/// Names belong together or not, in whatever order they are compared.
pub proof fn law_match_is_symmetric(a: Seq<char>, b: Seq<char>)
    ensures
        belong_together(a, b) == belong_together(b, a),
{
}

/// Names that have the same form in which names are compared belong together.
pub proof fn law_same_names_match(a: Seq<char>, b: Seq<char>)
    requires
        normalized(a) == normalized(b),
    ensures
        belong_together(normalized(a), normalized(b)),
{
    let n = normalized(a);
    assert(n.subrange(0, n.len() as int) =~= n);
    assert(occurs_at(n, n, 0));
}

/// Folding goes character by character.
proof fn lemma_folded_parts(a: Seq<char>, b: Seq<char>)
    ensures
        folded(a + b) == folded(a) + folded(b),
{
    let plain = |c: char| plain_letter(c);
    let keep = |c: char| alphanumeric(c);
    assert((a + b).map_values(plain) =~= a.map_values(plain) + b.map_values(plain));
    Seq::filter_distributes_over_add(a.map_values(plain), b.map_values(plain), keep);
}

/// What folding makes of one character.
proof fn lemma_folded_one(c: char)
    ensures
        folded(seq![c]) == (if alphanumeric(plain_letter(c)) {
            seq![plain_letter(c)]
        } else {
            Seq::empty()
        }),
{
    let keep = |c: char| alphanumeric(c);
    let one = seq![plain_letter(c)];
    assert(seq![c].map_values(|c: char| plain_letter(c)) =~= one);
    assert(one.drop_last() =~= Seq::empty());
    reveal_with_fuel(Seq::filter, 2);
    assert(one.drop_last().filter(keep) =~= Seq::empty());
    assert(folded(seq![c]) =~= if alphanumeric(plain_letter(c)) {
        one
    } else {
        Seq::empty()
    });
}

/// A character that is neither a letter nor a number makes no difference to a name in lower
/// case.
pub proof fn law_punctuation_is_ignored(before: Seq<char>, c: char, after: Seq<char>)
    requires
        !alphanumeric(plain_letter(c)),
    ensures
        folded(before + seq![c] + after) == folded(before + after),
{
    lemma_folded_parts(before + seq![c], after);
    lemma_folded_parts(before, seq![c]);
    lemma_folded_parts(before, after);
    lemma_folded_one(c);
    assert(folded(before) + folded(seq![c]) =~= folded(before));
}

/// An accented letter counts as the letter without its accents in a name in lower case.
pub proof fn law_accents_are_ignored(before: Seq<char>, c: char, after: Seq<char>)
    ensures
        folded(before + seq![c] + after) == folded(before + seq![plain_letter(c)] + after),
{
    let plain = |c: char| plain_letter(c);
    let a = before + seq![c] + after;
    let b = before + seq![plain_letter(c)] + after;
    assert(a.map_values(plain) =~= b.map_values(plain));
}

/// Two names that in lower case differ in nothing but accents belong together, and belong to the
/// same other names.
pub proof fn law_accents_do_not_break_a_match(a: Seq<char>, b: Seq<char>, other: Seq<char>)
    requires
        lowercase(a).len() == lowercase(b).len(),
        forall|i: int|
            0 <= i < lowercase(a).len() ==> plain_letter(#[trigger] lowercase(a)[i])
                == plain_letter(lowercase(b)[i]),
    ensures
        normalized(a) == normalized(b),
        belong_together(normalized(a), normalized(b)),
        belong_together(normalized(a), normalized(other)) == belong_together(
            normalized(b),
            normalized(other),
        ),
{
    let plain = |c: char| plain_letter(c);
    assert(lowercase(a).map_values(plain) =~= lowercase(b).map_values(plain));
    law_same_names_match(a, b);
}

/// To fold twice is to fold once.
pub proof fn law_folding_is_idempotent(s: Seq<char>)
    ensures
        folded(folded(s)) == folded(s),
    decreases s.len(),
{
    if s.len() > 0 {
        let front = s.drop_last();
        let last = s.last();
        law_folding_is_idempotent(front);
        assert(s =~= front + seq![last]);
        lemma_folded_parts(front, seq![last]);
        lemma_folded_one(last);
        if alphanumeric(plain_letter(last)) {
            lemma_folded_parts(folded(front), seq![plain_letter(last)]);
            lemma_folded_one(plain_letter(last));
        } else {
            assert(folded(s) =~= folded(front));
        }
    } else {
        reveal(Seq::filter);
        assert(folded(s) =~= s);
    }
}

/// Characters that have no accent stay: all of ASCII does, and what has lost its accents.
pub proof fn law_plain_letters_stay(c: char)
    ensures
        c <= '~' ==> plain_letter(c) == c,
        plain_letter(plain_letter(c)) == plain_letter(c),
        plain_letter(c) != c ==> 'à' <= c <= 'ỹ',
{
}

/// Names are compared in lower case and folded, and in no other way changed: a name that is all
/// letters without accents and numbers in lower case is compared as that, and whatever is put
/// together in lower case is put together in the form in which it is compared.
pub proof fn law_form_for_comparison(s: Seq<char>, a: Seq<char>, b: Seq<char>)
    ensures
        normalized(s) == folded(lowercase(s)),
        (forall|i: int|
            0 <= i < lowercase(s).len() ==> alphanumeric(#[trigger] lowercase(s)[i])
                && plain_letter(lowercase(s)[i]) == lowercase(s)[i]) ==> normalized(s) == lowercase(
            s,
        ),
        lowercase(s) == lowercase(a) + lowercase(b) ==> normalized(s) == normalized(a)
            + normalized(b),
{
    if forall|i: int|
        0 <= i < lowercase(s).len() ==> alphanumeric(#[trigger] lowercase(s)[i]) && plain_letter(
            lowercase(s)[i],
        ) == lowercase(s)[i] {
        lemma_plain_text_stays(lowercase(s));
    }
    lemma_folded_parts(lowercase(a), lowercase(b));
}

/// Folding leaves a text of letters without accents and numbers as it is.
proof fn lemma_plain_text_stays(s: Seq<char>)
    requires
        forall|i: int|
            0 <= i < s.len() ==> alphanumeric(#[trigger] s[i]) && plain_letter(s[i]) == s[i],
    ensures
        folded(s) == s,
    decreases s.len(),
{
    if s.len() == 0 {
        reveal(Seq::filter);
        assert(folded(s) =~= s);
    } else {
        let front = s.drop_last();
        assert forall|i: int| 0 <= i < front.len() implies alphanumeric(#[trigger] front[i])
            && plain_letter(front[i]) == front[i] by {
            assert(alphanumeric(s[i]));
        }
        lemma_plain_text_stays(front);
        assert(alphanumeric(s[s.len() - 1]));
        assert(s =~= front + seq![s.last()]);
        lemma_folded_parts(front, seq![s.last()]);
        lemma_folded_one(s.last());
    }
}

/// A name belongs to every name that holds it, in both directions, whatever stands in front of it
/// and behind it and however much that is.
pub proof fn law_name_belongs_to_what_holds_it(
    before: Seq<char>,
    name: Seq<char>,
    after: Seq<char>,
)
    ensures
        belong_together(before + name + after, name),
        belong_together(name, before + name + after),
{
    law_text_around_a_part(before + name + after, name);
    assert(before + name + after == before + name + after);
}

/// Names belong together only where one of them is the other with something in front of it and
/// something behind it.
pub proof fn law_one_name_holds_the_other(a: Seq<char>, b: Seq<char>)
    ensures
        belong_together(a, b) <==> {
            ||| exists|before: Seq<char>, after: Seq<char>| a == #[trigger] (before + b + after)
            ||| exists|before: Seq<char>, after: Seq<char>| b == #[trigger] (before + a + after)
        },
{
    law_text_around_a_part(a, b);
    law_text_around_a_part(b, a);
}

/// An audio file belongs to a name if and only if, in the form in which names are compared, its
/// own name without the extension holds that name or is held by it.
pub proof fn law_file_belongs_by_its_stem(
    file: FoundFile,
    base: Seq<char>,
    ext: Seq<char>,
    name: Seq<char>,
)
    requires
        file.name@ == base + seq!['.'] + ext,
        base.len() > 0,
        !ext.contains('.'),
    ensures
        belongs_to(file, name) <==> {
            ||| exists|before: Seq<char>, after: Seq<char>|
                normalized(base) == #[trigger] (before + normalized(name) + after)
            ||| exists|before: Seq<char>, after: Seq<char>|
                normalized(name) == #[trigger] (before + normalized(base) + after)
        },
{
    law_names_fall_apart(base, ext);
    law_one_name_holds_the_other(normalized(base), normalized(name));
}

/// The file that is found belongs to the name, and none in front of it does; where none is found,
/// none does, or the name has neither letters nor numbers.
pub proof fn law_found_file_is_the_first(base_name: Seq<char>, files: Seq<FoundFile>)
    ensures
        match matching_file(base_name, files) {
            Some(i) => {
                &&& normalized(base_name).len() > 0
                &&& 0 <= i < files.len()
                &&& belongs_to(files[i], base_name)
                &&& forall|j: int| 0 <= j < i ==> !belongs_to(#[trigger] files[j], base_name)
            },
            None => normalized(base_name).len() == 0 || forall|j: int|
                0 <= j < files.len() ==> !belongs_to(#[trigger] files[j], base_name),
        },
    decreases files.len(),
{
    if matching_file(base_name, files) is None && normalized(base_name).len() > 0 {
        if files.len() > 0 {
            let front = files.drop_last();
            let n = files.len() - 1;
            law_found_file_is_the_first(base_name, front);
            if let Some(i) = matching_file(base_name, front) {
                assert forall|j: int| 0 <= j < i implies !belongs_to(
                    #[trigger] files[j],
                    base_name,
                ) by {
                    assert(!belongs_to(front[j], base_name));
                }
                assert(first_match(base_name, files, i));
            } else {
                assert forall|j: int| 0 <= j < n implies !belongs_to(
                    #[trigger] files[j],
                    base_name,
                ) by {
                    assert(!belongs_to(front[j], base_name));
                }
                if belongs_to(files[n], base_name) {
                    assert(first_match(base_name, files, n));
                }
                assert forall|j: int| 0 <= j < files.len() implies !belongs_to(
                    #[trigger] files[j],
                    base_name,
                ) by {}
            }
        }
    }
}

/// Behind files that do not belong to a name, however many, the first one that does is found, and
/// what follows makes no difference.
pub proof fn law_match_is_found_anywhere(
    before: Seq<FoundFile>,
    file: FoundFile,
    after: Seq<FoundFile>,
    base_name: Seq<char>,
)
    requires
        normalized(base_name).len() > 0,
        forall|j: int| 0 <= j < before.len() ==> !belongs_to(#[trigger] before[j], base_name),
        belongs_to(file, base_name),
    ensures
        matching_file(base_name, before + seq![file] + after) == Some(before.len() as int),
{
    let files = before + seq![file] + after;
    let n = before.len() as int;
    assert forall|j: int| 0 <= j < n implies !belongs_to(#[trigger] files[j], base_name) by {
        assert(!belongs_to(before[j], base_name));
    }
    assert(files[n] == file);
    assert(first_match(base_name, files, n));
    lemma_matching_file(base_name, files, n);
}

/// Folding goes part by part: two texts in a row fold to what the first does and then what the
/// second does. A letter or number folds to itself without its accents, and any other character
/// to nothing.
pub proof fn law_folding_goes_part_by_part(a: Seq<char>, b: Seq<char>, c: char)
    ensures
        folded(a + b) == folded(a) + folded(b),
        alphanumeric(plain_letter(c)) ==> folded(seq![c]) == seq![plain_letter(c)],
        !alphanumeric(plain_letter(c)) ==> folded(seq![c]).len() == 0,
{
    lemma_folded_parts(a, b);
    lemma_folded_one(c);
}

} // verus!
