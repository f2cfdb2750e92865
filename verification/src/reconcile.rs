//! Reconciliation: the reference keys that no source text uses, and what a
//! locale catalog lacks or has too much.

use vstd::prelude::*;
use crate::catalog::{pending_records, LocaleCatalog};
use crate::keyset::{first_occurrences, lemma_first_occurrences, string_views, KeySet};
use crate::extract::candidate_keys;
use crate::text::{is_key_char, str_eq, KEY_MARKER};
use crate::usage::{joined_with, lemma_merged_keys_are_keys_of_separated_texts, used_keys};

verus! {

/// The reference keys that are not used: each once, in document order.
pub open spec fn unused_keys(reference: Seq<Seq<char>>, used: Set<Seq<char>>) -> Seq<Seq<char>> {
    first_occurrences(reference).filter(|key: Seq<char>| !used.contains(key))
}

/// The reference keys that a locale file lacks: each once, in document
/// order, the exempt keys left out.
pub open spec fn missed_keys(
    reference: Seq<Seq<char>>,
    present: Set<Seq<char>>,
    exempt: Set<Seq<char>>,
) -> Seq<Seq<char>> {
    first_occurrences(reference).filter(
        |key: Seq<char>| !present.contains(key) && !exempt.contains(key),
    )
}

/// The names of a locale file that are no reference keys, in the order of
/// the file.
pub open spec fn extra_keys(names: Seq<Seq<char>>, reference: Seq<Seq<char>>) -> Seq<Seq<char>> {
    names.filter(|name: Seq<char>| !reference.contains(name))
}

/// An unused key is a reference key that is not used, and every such key is
/// reported, once.
pub proof fn lemma_unused_keys(reference: Seq<Seq<char>>, used: Set<Seq<char>>)
    ensures
        unused_keys(reference, used).no_duplicates(),
        forall|key: Seq<char>|
            unused_keys(reference, used).contains(key) <==> reference.contains(key)
                && !used.contains(key),
{
    let keep = |key: Seq<char>| !used.contains(key);
    lemma_first_occurrences(reference);
    lemma_filter_of_distinct(first_occurrences(reference), keep);
    assert forall|key: Seq<char>|
        unused_keys(reference, used).contains(key) <==> reference.contains(key) && !used.contains(
            key,
        ) by {
        assert(first_occurrences(reference).to_set().contains(key) <==> reference.to_set().contains(
            key,
        ));
    }
}

/// Against the keys merged from the texts, a reference key is unused
/// exactly if one scan of the texts, joined with a separator between them,
/// does not find it.
pub proof fn lemma_unused_keys_of_separated_texts(
    reference: Seq<Seq<char>>,
    texts: Seq<Seq<char>>,
    separator: char,
)
    requires
        !is_key_char(separator),
        separator != KEY_MARKER,
    ensures
        forall|key: Seq<char>|
            unused_keys(reference, used_keys(texts)).contains(key) <==> reference.contains(key)
                && !candidate_keys(joined_with(texts, separator)).contains(key),
{
    lemma_merged_keys_are_keys_of_separated_texts(texts, separator);
    lemma_unused_keys(reference, used_keys(texts));
}

/// A missed key is a reference key that the file lacks and that is not
/// exempt, and every such key is reported, once.
pub proof fn lemma_missed_keys(
    reference: Seq<Seq<char>>,
    present: Set<Seq<char>>,
    exempt: Set<Seq<char>>,
)
    ensures
        missed_keys(reference, present, exempt).no_duplicates(),
        forall|key: Seq<char>|
            missed_keys(reference, present, exempt).contains(key) <==> reference.contains(key)
                && !present.contains(key) && !exempt.contains(key),
{
    let keep = |key: Seq<char>| !present.contains(key) && !exempt.contains(key);
    lemma_first_occurrences(reference);
    lemma_filter_of_distinct(first_occurrences(reference), keep);
    assert forall|key: Seq<char>|
        missed_keys(reference, present, exempt).contains(key) <==> reference.contains(key)
            && !present.contains(key) && !exempt.contains(key) by {
        assert(first_occurrences(reference).to_set().contains(key) <==> reference.to_set().contains(
            key,
        ));
    }
}

/// An exempt key is never reported as missed, whether the file has it or
/// not.
pub proof fn lemma_exempt_key_is_never_missed(
    reference: Seq<Seq<char>>,
    present: Set<Seq<char>>,
    exempt: Set<Seq<char>>,
    key: Seq<char>,
)
    requires
        exempt.contains(key),
    ensures
        !missed_keys(reference, present, exempt).contains(key),
{
    lemma_missed_keys(reference, present, exempt);
}

/// What is kept of a list without repeats has no repeats, and holds the
/// elements of the list that are to be kept.
proof fn lemma_filter_of_distinct(s: Seq<Seq<char>>, keep: spec_fn(Seq<char>) -> bool)
    requires
        s.no_duplicates(),
    ensures
        s.filter(keep).no_duplicates(),
        forall|key: Seq<char>| s.filter(keep).contains(key) <==> s.contains(key) && keep(key),
    decreases s.len(),
{
    reveal(Seq::filter);
    if s.len() > 0 {
        let init = s.drop_last();
        let x = s.last();
        lemma_filter_of_distinct(init, keep);
        assert(s =~= init.push(x));
        assert(!init.contains(x));
        assert forall|key: Seq<char>| s.contains(key) <==> init.contains(key) || key == x by {
            if init.contains(key) {
                let j = init.index_of(key);
                assert(s[j] == key);
            }
            if key == x {
                assert(s[s.len() - 1] == key);
            }
        }
        if keep(x) {
            let kept = init.filter(keep);
            assert(!kept.contains(x));
            assert(kept.push(x).no_duplicates());
            assert forall|key: Seq<char>| kept.push(x).contains(key) <==> kept.contains(key) || key
                == x by {
                if kept.contains(key) {
                    let j = kept.index_of(key);
                    assert(kept.push(x)[j] == key);
                }
                if key == x {
                    assert(kept.push(x)[kept.len() as int] == key);
                }
            }
        }
    }
}

/// Reports the reference keys that are not in the set of used keys: each
/// once, where the reference list first has it.
pub fn find_unused_translations(reference: &Vec<String>, used: &KeySet) -> (unused: Vec<String>)
    ensures
        string_views(unused@) == unused_keys(string_views(reference@), used@),
{
    let distinct = KeySet::from_keys(reference);
    let keys = distinct.keys();
    let ghost all = string_views(keys@);
    let ghost keep = |key: Seq<char>| !used@.contains(key);
    let mut unused: Vec<String> = Vec::new();
    proof {
        reveal(Seq::filter);
        assert(all.take(0) =~= Seq::<Seq<char>>::empty());
        assert(string_views(unused@) =~= all.take(0).filter(keep));
    }
    let mut i: usize = 0;
    while i < keys.len()
        invariant
            i <= keys.len(),
            all == string_views(keys@),
            keep == |key: Seq<char>| !used@.contains(key),
            string_views(unused@) == all.take(i as int).filter(keep),
        decreases keys.len() - i,
    {
        let ghost before = string_views(unused@);
        proof {
            all.lemma_take_succ_push(i as int);
            all.take(i as int).lemma_filter_push(all[i as int], keep);
        }
        if !used.contains(keys[i].as_str()) {
            unused.push(keys[i].clone());
            assert(string_views(unused@) =~= before.push(all[i as int]));
        }
        i += 1;
    }
    assert(all.take(i as int) =~= all);
    unused
}

/// What one locale file lacks, has too much, and has left to translate.
#[derive(Debug)]
pub struct LocaleDiff {
    /// The reference keys that the file lacks.
    pub missed: Vec<String>,
    /// The names of the file that are no reference keys.
    pub extra: Vec<String>,
    /// The number of records that are pending translation.
    pub untranslated: usize,
}

/// Compares a locale catalog with the reference keys.
///
/// A reference key that the catalog lacks is missed, unless it is exempt. A
/// record whose name is no reference key is extra. A record whose comment
/// marks it as pending counts as untranslated.
pub fn find_missed_translations(
    reference: &Vec<String>,
    exempt: &KeySet,
    catalog: &LocaleCatalog,
) -> (diff: LocaleDiff)
    ensures
        string_views(diff.missed@) == missed_keys(
            string_views(reference@),
            catalog@.dom(),
            exempt@,
        ),
        string_views(diff.extra@) == extra_keys(catalog.names(), string_views(reference@)),
        diff.untranslated == pending_records(catalog.entries()).len(),
{
    let distinct = KeySet::from_keys(reference);
    let keys = distinct.keys();
    let ghost all = string_views(keys@);
    let ghost lacking = |key: Seq<char>| !catalog@.dom().contains(key) && !exempt@.contains(key);
    let mut missed: Vec<String> = Vec::new();
    proof {
        reveal(Seq::filter);
        assert(all.take(0) =~= Seq::<Seq<char>>::empty());
        assert(string_views(missed@) =~= all.take(0).filter(lacking));
    }
    let mut i: usize = 0;
    while i < keys.len()
        invariant
            i <= keys.len(),
            all == string_views(keys@),
            lacking == |key: Seq<char>| !catalog@.dom().contains(key) && !exempt@.contains(key),
            string_views(missed@) == all.take(i as int).filter(lacking),
        decreases keys.len() - i,
    {
        let ghost before = string_views(missed@);
        proof {
            all.lemma_take_succ_push(i as int);
            all.take(i as int).lemma_filter_push(all[i as int], lacking);
        }
        let key = keys[i].as_str();
        if !catalog.contains(key) && !exempt.contains(key) {
            missed.push(keys[i].clone());
            assert(string_views(missed@) =~= before.push(all[i as int]));
        }
        i += 1;
    }
    assert(all.take(i as int) =~= all);

    let present = catalog.keys();
    let ghost names = catalog.names();
    let ghost known = string_views(reference@);
    let ghost foreign = |name: Seq<char>| !known.contains(name);
    let mut extra: Vec<String> = Vec::new();
    proof {
        assert(names.take(0) =~= Seq::<Seq<char>>::empty());
        assert(string_views(extra@) =~= names.take(0).filter(foreign));
    }
    let mut j: usize = 0;
    while j < present.len()
        invariant
            j <= present.len(),
            names == string_views(present@),
            known == string_views(reference@),
            distinct@ == known.to_set(),
            foreign == |name: Seq<char>| !known.contains(name),
            string_views(extra@) == names.take(j as int).filter(foreign),
        decreases present.len() - j,
    {
        let ghost before = string_views(extra@);
        proof {
            names.lemma_take_succ_push(j as int);
            names.take(j as int).lemma_filter_push(names[j as int], foreign);
        }
        if !distinct.contains(present[j].as_str()) {
            extra.push(present[j].clone());
            assert(string_views(extra@) =~= before.push(names[j as int]));
        }
        j += 1;
    }
    assert(names.take(j as int) =~= names);

    LocaleDiff { missed, extra, untranslated: catalog.pending_count() }
}

/// Whether a file of the resource folder is a locale file to compare: it
/// has the extension of resource documents and is not the reference
/// document itself.
pub open spec fn is_locale_file(
    path: Seq<char>,
    extension: Option<Seq<char>>,
    reference_path: Seq<char>,
    catalog_extension: Seq<char>,
) -> bool {
    path != reference_path && extension == Some(catalog_extension)
}

/// Decides whether a file of the resource folder is compared with the
/// reference document.
pub fn accepts_locale_file(
    path: &str,
    extension: Option<&str>,
    reference_path: &str,
    catalog_extension: &str,
) -> (res: bool)
    ensures
        res == is_locale_file(
            path@,
            match extension {
                Some(ext) => Some(ext@),
                None => None,
            },
            reference_path@,
            catalog_extension@,
        ),
{
    match extension {
        Some(ext) => !str_eq(path, reference_path) && str_eq(ext, catalog_extension),
        None => false,
    }
}

} // verus!
