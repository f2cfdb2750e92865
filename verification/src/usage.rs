//! The usage aggregator: which files of a source tree are scanned, and the
//! one set of used keys that their texts give.

use vstd::prelude::*;
use crate::extract::{
    boundary_is_clean, candidate_keys, candidate_list, extract_keys_from_text_to_set,
    lemma_closed_by_last_character, lemma_keys_of_joined_texts, lemma_no_marker_no_keys,
};
use crate::keyset::{
    first_occurrences, lemma_first_occurrences, lemma_first_occurrences_add, string_views, KeySet,
};
use crate::text::{is_key_char, str_eq, KEY_MARKER};

verus! {

/// The name of the generated accessor file. Its text names every key, so
/// it is never scanned.
pub const GENERATED_ACCESSOR: &'static str = "Strings.cs";

/// Whether a file with this name and extension is scanned: its extension
/// is on the allow-list and it is not the generated accessor file.
pub open spec fn is_scanned(
    file_name: Seq<char>,
    extension: Option<Seq<char>>,
    allowed: Seq<Seq<char>>,
) -> bool {
    &&& file_name != GENERATED_ACCESSOR@
    &&& extension matches Some(ext) && allowed.contains(ext)
}

/// Decides whether a file of the source tree is scanned for keys.
pub fn accepts_source_file(
    file_name: &str,
    extension: Option<&str>,
    allowed: &Vec<String>,
) -> (res: bool)
    ensures
        res == is_scanned(
            file_name@,
            match extension {
                Some(ext) => Some(ext@),
                None => None,
            },
            string_views(allowed@),
        ),
{
    if str_eq(file_name, GENERATED_ACCESSOR) {
        return false;
    }
    match extension {
        None => false,
        Some(ext) => {
            let mut i: usize = 0;
            while i < allowed.len()
                invariant
                    i <= allowed.len(),
                    file_name@ != GENERATED_ACCESSOR@,
                    extension == Some(ext),
                    forall|j: int| 0 <= j < i ==> string_views(allowed@)[j] != ext@,
                decreases allowed.len() - i,
            {
                if str_eq(allowed[i].as_str(), ext) {
                    assert(string_views(allowed@)[i as int] == ext@);
                    return true;
                }
                i += 1;
            }
            false
        },
    }
}

/// The used keys of a list of texts: every key that is a candidate key of
/// one of them.
pub open spec fn used_keys(texts: Seq<Seq<char>>) -> Set<Seq<char>> {
    Set::new(
        |key: Seq<char>|
            exists|i: int|
                0 <= i < texts.len() && #[trigger] candidate_keys(texts[i]).contains(key),
    )
}

/// One more text adds its candidate keys and takes none away.
pub proof fn lemma_used_keys_push(texts: Seq<Seq<char>>, text: Seq<char>)
    ensures
        used_keys(texts.push(text)) == used_keys(texts).union(candidate_keys(text)),
{
    let more = texts.push(text);
    let both = used_keys(texts).union(candidate_keys(text));
    assert forall|key: Seq<char>| used_keys(more).contains(key) implies both.contains(key) by {
        let i = choose|i: int|
            0 <= i < more.len() && #[trigger] candidate_keys(more[i]).contains(key);
        if i < texts.len() {
            assert(candidate_keys(texts[i]).contains(key));
        }
    }
    assert forall|key: Seq<char>| both.contains(key) implies used_keys(more).contains(key) by {
        if used_keys(texts).contains(key) {
            let i = choose|i: int|
                0 <= i < texts.len() && #[trigger] candidate_keys(texts[i]).contains(key);
            assert(candidate_keys(more[i]).contains(key));
        } else {
            assert(candidate_keys(more[texts.len() as int]).contains(key));
        }
    }
    assert(used_keys(more) =~= both);
}

/// The keys that the markers of all the texts introduce: those of the
/// first text, then those of the second, and so on.
pub open spec fn candidates_of_all(texts: Seq<Seq<char>>) -> Seq<Seq<char>>
    decreases texts.len(),
{
    if texts.len() == 0 {
        Seq::empty()
    } else {
        candidates_of_all(texts.drop_last()) + candidate_list(texts.last())
    }
}

/// Extracts the keys of every text and merges them into one set. The keys
/// stand in the set in the order in which the texts first have them.
pub fn collect_used_keys(texts: &Vec<String>) -> (used: KeySet)
    ensures
        used@ == used_keys(string_views(texts@)),
        used.order() == first_occurrences(candidates_of_all(string_views(texts@))),
{
    let mut used = KeySet::new();
    let ghost all = string_views(texts@);
    assert(used_keys(all.take(0)) =~= Set::<Seq<char>>::empty());
    let mut i: usize = 0;
    while i < texts.len()
        invariant
            i <= texts.len(),
            all == string_views(texts@),
            used@ == used_keys(all.take(i as int)),
            used.order() == first_occurrences(candidates_of_all(all.take(i as int))),
        decreases texts.len() - i,
    {
        let local = extract_keys_from_text_to_set(texts[i].as_str());
        let ghost before = candidates_of_all(all.take(i as int));
        proof {
            all.lemma_take_succ_push(i as int);
            lemma_used_keys_push(all.take(i as int), all[i as int]);
            assert(all.take(i + 1).drop_last() =~= all.take(i as int));
            lemma_first_occurrences(before);
            lemma_first_occurrences_add(before, candidate_list(all[i as int]));
        }
        used.merge(&local);
        i += 1;
    }
    assert(all.take(i as int) =~= all);
    used
}

/// Whether every boundary is clean when the texts are joined one after the
/// other: no key of one text goes on into the next.
pub open spec fn joins_cleanly(texts: Seq<Seq<char>>) -> bool
    decreases texts.len(),
{
    texts.len() == 0 || (joins_cleanly(texts.drop_last()) && boundary_is_clean(
        texts.drop_last().flatten(),
        texts.last(),
    ))
}

/// Merging the keys of each text gives what one scan of all the texts,
/// joined in their order, gives, wherever the boundaries are clean.
pub proof fn lemma_merged_keys_are_keys_of_joined_text(texts: Seq<Seq<char>>)
    requires
        joins_cleanly(texts),
    ensures
        used_keys(texts) == candidate_keys(texts.flatten()),
    decreases texts.len(),
{
    if texts.len() == 0 {
        let none = Seq::<char>::empty();
        assert(texts.flatten() =~= none);
        assert forall|key: Seq<char>| !candidate_keys(none).contains(key) by {}
        assert(used_keys(texts) =~= candidate_keys(none));
    } else {
        let init = texts.drop_last();
        let last = texts.last();
        assert(texts =~= init.push(last));
        lemma_merged_keys_are_keys_of_joined_text(init);
        init.lemma_flatten_push(last);
        lemma_keys_of_joined_texts(init.flatten(), last);
        lemma_used_keys_push(init, last);
    }
}

/// The texts joined in their order, with `separator` between one text and
/// the next.
pub open spec fn joined_with(texts: Seq<Seq<char>>, separator: char) -> Seq<char>
    decreases texts.len(),
{
    if texts.len() == 0 {
        Seq::empty()
    } else if texts.len() == 1 {
        texts[0]
    } else {
        joined_with(texts.drop_last(), separator) + seq![separator] + texts.last()
    }
}

/// Merging the keys of each text gives what one scan of all the texts gives
/// that are joined with a separator between them, whatever the texts are.
/// The separator is any character that is neither a key character nor a
/// marker; it keeps the keys of one text apart from those of the next.
pub proof fn lemma_merged_keys_are_keys_of_separated_texts(
    texts: Seq<Seq<char>>,
    separator: char,
)
    requires
        !is_key_char(separator),
        separator != KEY_MARKER,
    ensures
        used_keys(texts) == candidate_keys(joined_with(texts, separator)),
    decreases texts.len(),
{
    let none = Seq::<Seq<char>>::empty();
    if texts.len() == 0 {
        lemma_no_marker_no_keys(Seq::<char>::empty());
        assert(used_keys(texts) =~= Set::<Seq<char>>::empty());
    } else if texts.len() == 1 {
        assert(texts =~= none.push(texts[0]));
        lemma_used_keys_push(none, texts[0]);
        assert(used_keys(none) =~= Set::<Seq<char>>::empty());
        assert(used_keys(texts) =~= candidate_keys(texts[0]));
    } else {
        let init = texts.drop_last();
        let last = texts.last();
        let before = joined_with(init, separator);
        let gap = seq![separator];
        assert(texts =~= init.push(last));
        lemma_merged_keys_are_keys_of_separated_texts(init, separator);
        lemma_used_keys_push(init, last);
        // The separator ends every run of the texts before it ...
        lemma_keys_of_joined_texts(before, gap);
        lemma_no_marker_no_keys(gap);
        assert(candidate_keys(before + gap) =~= candidate_keys(before));
        // ... and no run is open behind it.
        assert((before + gap).last() == separator);
        lemma_closed_by_last_character(before + gap);
        lemma_keys_of_joined_texts(before + gap, last);
    }
}

/// The used keys do not depend on the order of the texts: whichever worker
/// ends first, the merged set is the same.
pub proof fn lemma_used_keys_ignore_order(texts: Seq<Seq<char>>, reordered: Seq<Seq<char>>)
    requires
        texts.to_multiset() == reordered.to_multiset(),
    ensures
        used_keys(texts) == used_keys(reordered),
{
    assert forall|a: Seq<Seq<char>>, b: Seq<Seq<char>>, key: Seq<char>|
        a.to_multiset() == b.to_multiset() && used_keys(a).contains(key) implies used_keys(
        b,
    ).contains(key) by {
        let i = choose|i: int| 0 <= i < a.len() && #[trigger] candidate_keys(a[i]).contains(key);
        vstd::seq_lib::to_multiset_contains(a, a[i]);
        vstd::seq_lib::to_multiset_contains(b, a[i]);
        assert(a.contains(a[i]));
        let j = choose|j: int| 0 <= j < b.len() && b[j] == a[i];
        assert(candidate_keys(b[j]).contains(key));
    }
    assert(used_keys(texts) =~= used_keys(reordered));
}

} // verus!
