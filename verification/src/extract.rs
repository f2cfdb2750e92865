//! The key extractor: from source text to the set of candidate keys.
//!
//! A candidate key is the maximal run of key characters that follows a
//! marker. Empty runs are discarded. The scan knows nothing of the syntax
//! of the text around the marker.

use vstd::prelude::*;
use crate::keyset::{
    first_occurrences, lemma_first_occurrences, lemma_first_occurrences_push, KeySet,
};
use crate::text::{is_key_char, key_char, KEY_MARKER};

verus! {

/// The end of the maximal run of key characters that begins at `from`.
pub open spec fn run_end(text: Seq<char>, from: int) -> int
    decreases text.len() - from,
{
    if 0 <= from < text.len() && is_key_char(text[from]) {
        run_end(text, from + 1)
    } else {
        from
    }
}

/// The run of key characters that follows the marker at `marker`.
pub open spec fn candidate_at(text: Seq<char>, marker: int) -> Seq<char> {
    text.subrange(marker + 1, run_end(text, marker + 1))
}

/// Whether `key` is a candidate key of `text`: it is not empty, and some
/// marker of the text is followed by exactly this maximal run.
pub open spec fn is_candidate(text: Seq<char>, key: Seq<char>) -> bool {
    key.len() > 0 && exists|marker: int|
        0 <= marker < text.len() && text[marker] == KEY_MARKER && #[trigger] candidate_at(
            text,
            marker,
        ) == key
}

/// The candidate keys of `text`.
pub open spec fn candidate_keys(text: Seq<char>) -> Set<Seq<char>> {
    Set::new(|key: Seq<char>| is_candidate(text, key))
}

/// A run ends inside the text, holds key characters only, and cannot be
/// extended.
pub proof fn lemma_run_end(text: Seq<char>, from: int)
    requires
        0 <= from <= text.len(),
    ensures
        from <= run_end(text, from) <= text.len(),
        forall|j: int| from <= j < run_end(text, from) ==> is_key_char(#[trigger] text[j]),
        run_end(text, from) < text.len() ==> !is_key_char(text[run_end(text, from)]),
    decreases text.len() - from,
{
    if from < text.len() && is_key_char(text[from]) {
        lemma_run_end(text, from + 1);
    }
}

/// A run of key characters from `from` to `to` that cannot be extended is
/// the maximal run: the extractor ends a key nowhere else.
pub proof fn lemma_run_end_is(text: Seq<char>, from: int, to: int)
    requires
        0 <= from <= to <= text.len(),
        forall|j: int| from <= j < to ==> is_key_char(#[trigger] text[j]),
        to < text.len() ==> !is_key_char(text[to]),
    ensures
        run_end(text, from) == to,
    decreases to - from,
{
    if from < to {
        lemma_run_end_is(text, from + 1, to);
    }
}

/// The keys that the markers before `upto` introduce, in the order of the
/// markers. A marker that no key character follows gives none.
pub open spec fn candidates_before(text: Seq<char>, upto: int) -> Seq<Seq<char>>
    decreases upto,
{
    if upto <= 0 {
        Seq::empty()
    } else {
        let before = candidates_before(text, upto - 1);
        let marker = upto - 1;
        if marker < text.len() && text[marker] == KEY_MARKER && candidate_at(text, marker).len()
            > 0 {
            before.push(candidate_at(text, marker))
        } else {
            before
        }
    }
}

/// The keys that the markers of `text` introduce, in the order of the
/// markers, repeats included.
pub open spec fn candidate_list(text: Seq<char>) -> Seq<Seq<char>> {
    candidates_before(text, text.len() as int)
}

/// Where no marker stands from `from` up to `to`, no key is introduced there.
proof fn lemma_no_marker_no_candidate(text: Seq<char>, from: int, to: int)
    requires
        0 <= from <= to,
        forall|j: int| from <= j < to && j < text.len() ==> text[j] != KEY_MARKER,
    ensures
        candidates_before(text, to) == candidates_before(text, from),
    decreases to - from,
{
    if from < to {
        lemma_no_marker_no_candidate(text, from, to - 1);
    }
}

/// A key is in the list of the markers before `upto` exactly if one of these
/// markers introduces it and it is not empty.
proof fn lemma_candidates_before(text: Seq<char>, upto: int)
    requires
        0 <= upto <= text.len(),
    ensures
        forall|key: Seq<char>|
            candidates_before(text, upto).contains(key) <==> key.len() > 0 && exists|marker: int|
                0 <= marker < upto && text[marker] == KEY_MARKER && #[trigger] candidate_at(
                    text,
                    marker,
                ) == key,
    decreases upto,
{
    if upto > 0 {
        lemma_candidates_before(text, upto - 1);
        let before = candidates_before(text, upto - 1);
        let last = upto - 1;
        let found = candidate_at(text, last);
        assert forall|key: Seq<char>|
            candidates_before(text, upto).contains(key) <==> key.len() > 0 && exists|marker: int|
                0 <= marker < upto && text[marker] == KEY_MARKER && #[trigger] candidate_at(
                    text,
                    marker,
                ) == key by {
            if text[last] == KEY_MARKER && found.len() > 0 {
                vstd::seq_lib::lemma_seq_contains_after_push(before, found, key);
            }
            if key.len() > 0 && exists|marker: int|
                0 <= marker < upto && text[marker] == KEY_MARKER && #[trigger] candidate_at(
                    text,
                    marker,
                ) == key {
                let m = choose|marker: int|
                    0 <= marker < upto && text[marker] == KEY_MARKER && #[trigger] candidate_at(
                        text,
                        marker,
                    ) == key;
                if m < last {
                    assert(before.contains(key));
                }
            }
            if candidates_before(text, upto).contains(key) {
                if before.contains(key) {
                    let m = choose|marker: int|
                        0 <= marker < upto - 1 && text[marker] == KEY_MARKER
                            && #[trigger] candidate_at(text, marker) == key;
                    assert(0 <= m < upto);
                } else {
                    assert(candidate_at(text, last) == key);
                }
            }
        }
    }
}

/// The candidate keys of a text are the keys of its list, as a set.
pub proof fn lemma_candidate_list_holds_the_keys(text: Seq<char>)
    ensures
        candidate_list(text).to_set() == candidate_keys(text),
{
    lemma_candidates_before(text, text.len() as int);
    assert(candidate_list(text).to_set() =~= candidate_keys(text));
}

/// Scans `text` for candidate keys.
///
/// At each marker the candidate is the maximal run of key characters that
/// follows; the scan goes on behind the run. An empty run gives no key. The
/// keys stand in the set in the order in which the text first has them.
pub fn extract_keys_from_text_to_set(text: &str) -> (keys: KeySet)
    ensures
        keys@ == candidate_keys(text@),
        keys.order() == first_occurrences(candidate_list(text@)),
{
    let mut out = KeySet::new();
    let mut current = String::new();
    let mut open = false;
    let ghost mut start: int = 0;
    let ghost mut at: int = 0;
    let ghost t = text@;
    for c in it: text.chars()
        invariant
            t == text@,
            it.seq() == t,
            at == it.index(),
            0 <= at <= t.len(),
            open ==> {
                &&& 0 <= start < at
                &&& t[start] == KEY_MARKER
                &&& forall|j: int| start < j < at ==> is_key_char(#[trigger] t[j])
                &&& current@ == t.subrange(start + 1, at)
                &&& out.order() == first_occurrences(candidates_before(t, start))
            },
            !open ==> {
                &&& current@ == Seq::<char>::empty()
                &&& out.order() == first_occurrences(candidates_before(t, at))
            },
    {
        assert(c == t[at]);
        let key = key_char(c);
        if open && !key {
            close_run(&mut out, current, Ghost(t), Ghost(start), Ghost(at));
            current = String::new();
            open = false;
        }
        if c == KEY_MARKER {
            proof {
                start = at;
            }
            open = true;
            assert(current@ =~= t.subrange(start + 1, at + 1));
        } else if open {
            current.push(c);
            assert(current@ =~= t.subrange(start + 1, at + 1));
        } else {
            proof {
                lemma_no_marker_no_candidate(t, at, at + 1);
            }
        }
        proof {
            at = at + 1;
        }
    }
    assert(at == t.len());
    if open {
        close_run(&mut out, current, Ghost(t), Ghost(start), Ghost(at));
    }
    proof {
        lemma_candidate_list_holds_the_keys(t);
        lemma_first_occurrences(candidate_list(t));
    }
    out
}

/// Ends the run that the marker at `start` has opened and that has reached
/// `at`: its key joins the set, unless it is empty.
fn close_run(
    out: &mut KeySet,
    current: String,
    Ghost(t): Ghost<Seq<char>>,
    Ghost(start): Ghost<int>,
    Ghost(at): Ghost<int>,
)
    requires
        0 <= start < at <= t.len(),
        t[start] == KEY_MARKER,
        forall|j: int| start < j < at ==> is_key_char(#[trigger] t[j]),
        at < t.len() ==> !is_key_char(t[at]),
        current@ == t.subrange(start + 1, at),
        old(out).order() == first_occurrences(candidates_before(t, start)),
    ensures
        final(out).order() == first_occurrences(candidates_before(t, at)),
{
    let ghost before = candidates_before(t, start);
    proof {
        assert forall|j: int| start + 1 <= j < at implies is_key_char(#[trigger] t[j]) by {}
        lemma_run_end_is(t, start + 1, at);
        assert forall|j: int| start + 1 <= j < at && j < t.len() implies t[j] != KEY_MARKER by {
            assert(is_key_char(t[j]));
        }
        lemma_no_marker_no_candidate(t, start + 1, at);
        lemma_first_occurrences(before);
        lemma_first_occurrences_push(before, current@);
    }
    if !current.as_str().is_empty() {
        out.insert(current);
    }
}

/// Extraction depends on the text alone: the same text gives the same keys,
/// however often it is scanned.
pub proof fn lemma_extraction_is_repeatable(first: Seq<char>, second: Seq<char>)
    requires
        first == second,
    ensures
        candidate_keys(first) == candidate_keys(second),
{
}

/// A text without a marker, the empty text among them, has no keys.
pub proof fn lemma_no_marker_no_keys(text: Seq<char>)
    requires
        forall|i: int| 0 <= i < text.len() ==> text[i] != KEY_MARKER,
    ensures
        candidate_keys(text) == Set::<Seq<char>>::empty(),
{
    assert(candidate_keys(text) =~= Set::<Seq<char>>::empty());
}

/// Whether the scan of `text` ends inside a run that a marker has opened:
/// a key, possibly still empty, that more key characters would extend.
pub open spec fn ends_in_open_run(text: Seq<char>) -> bool {
    exists|marker: int|
        0 <= marker < text.len() && text[marker] == KEY_MARKER && #[trigger] run_end(
            text,
            marker + 1,
        ) == text.len()
}

/// Whether joining `first` and `second` leaves every key as it was: no run
/// that is open at the end of `first` goes on into `second`.
pub open spec fn boundary_is_clean(first: Seq<char>, second: Seq<char>) -> bool {
    !(ends_in_open_run(first) && second.len() > 0 && is_key_char(second[0]))
}

/// A text whose last character is neither a key character nor a marker
/// ends outside every run.
pub proof fn lemma_closed_by_last_character(text: Seq<char>)
    requires
        text.len() > 0,
        !is_key_char(text.last()),
        text.last() != KEY_MARKER,
    ensures
        !ends_in_open_run(text),
{
    assert forall|marker: int|
        0 <= marker < text.len() && text[marker] == KEY_MARKER implies #[trigger] run_end(
        text,
        marker + 1,
    ) != text.len() by {
        lemma_run_end(text, marker + 1);
        if run_end(text, marker + 1) == text.len() {
            assert(is_key_char(text[text.len() - 1]));
        }
    }
}

/// A run in the second of two joined texts is the run of the second text,
/// moved by the length of the first.
proof fn lemma_run_in_second(first: Seq<char>, second: Seq<char>, from: int)
    requires
        0 <= from <= second.len(),
    ensures
        run_end(first + second, first.len() + from) == first.len() + run_end(second, from),
    decreases second.len() - from,
{
    let joined = first + second;
    if from < second.len() {
        assert(joined[first.len() + from] == second[from]);
        if is_key_char(second[from]) {
            lemma_run_in_second(first, second, from + 1);
        }
    }
}

/// A run in the first of two joined texts is the run of the first text,
/// unless it reaches the end of the first text and goes on into the second.
proof fn lemma_run_in_first(first: Seq<char>, second: Seq<char>, from: int)
    requires
        0 <= from <= first.len(),
    ensures
        run_end(first + second, from) == if run_end(first, from) < first.len() {
            run_end(first, from)
        } else {
            first.len() + run_end(second, 0)
        },
    decreases first.len() - from,
{
    let joined = first + second;
    lemma_run_end(first, from);
    if from < first.len() {
        assert(joined[from] == first[from]);
        if is_key_char(first[from]) {
            lemma_run_in_first(first, second, from + 1);
        }
    } else {
        lemma_run_in_second(first, second, 0);
    }
}

/// A marker of the first text introduces the same key in the joined text,
/// where the boundary is clean.
proof fn lemma_marker_in_first(first: Seq<char>, second: Seq<char>, marker: int)
    requires
        boundary_is_clean(first, second),
        0 <= marker < first.len(),
        first[marker] == KEY_MARKER,
    ensures
        (first + second)[marker] == KEY_MARKER,
        candidate_at(first + second, marker) == candidate_at(first, marker),
{
    lemma_run_in_first(first, second, marker + 1);
    lemma_run_end(first, marker + 1);
    lemma_run_end(second, 0);
    if run_end(first, marker + 1) == first.len() {
        assert(ends_in_open_run(first));
        assert(run_end(second, 0) == 0);
    }
    assert(candidate_at(first + second, marker) =~= candidate_at(first, marker));
}

/// A marker of the second text introduces the same key in the joined text.
proof fn lemma_marker_in_second(first: Seq<char>, second: Seq<char>, marker: int)
    requires
        0 <= marker < second.len(),
    ensures
        (first + second)[first.len() + marker] == second[marker],
        candidate_at(first + second, first.len() + marker) == candidate_at(second, marker),
{
    lemma_run_in_second(first, second, marker + 1);
    lemma_run_end(second, marker + 1);
    assert(candidate_at(first + second, first.len() + marker) =~= candidate_at(second, marker));
}

/// The keys of two joined texts are the keys of the one and of the other,
/// wherever the boundary between them is clean.
///
/// A boundary that is not clean may join two runs into one key: the texts
/// ".Fo" and "o" hold the key "Fo", and ".Foo" holds "Foo".
pub proof fn lemma_keys_of_joined_texts(first: Seq<char>, second: Seq<char>)
    requires
        boundary_is_clean(first, second),
    ensures
        candidate_keys(first + second) == candidate_keys(first).union(candidate_keys(second)),
{
    let joined = first + second;
    let n = first.len() as int;
    let both = candidate_keys(first).union(candidate_keys(second));
    assert forall|key: Seq<char>| candidate_keys(joined).contains(key) implies both.contains(
        key,
    ) by {
        let m = choose|m: int|
            0 <= m < joined.len() && joined[m] == KEY_MARKER && #[trigger] candidate_at(joined, m)
                == key;
        if m < n {
            lemma_marker_in_first(first, second, m);
            assert(is_candidate(first, key));
        } else {
            lemma_marker_in_second(first, second, m - n);
            assert(is_candidate(second, key));
        }
    }
    assert forall|key: Seq<char>| both.contains(key) implies candidate_keys(joined).contains(
        key,
    ) by {
        if candidate_keys(first).contains(key) {
            let m = choose|m: int|
                0 <= m < first.len() && first[m] == KEY_MARKER && #[trigger] candidate_at(first, m)
                    == key;
            lemma_marker_in_first(first, second, m);
            assert(candidate_at(joined, m) == key);
        } else {
            let m = choose|m: int|
                0 <= m < second.len() && second[m] == KEY_MARKER && #[trigger] candidate_at(
                    second,
                    m,
                ) == key;
            lemma_marker_in_second(first, second, m);
            assert(candidate_at(joined, n + m) == key);
        }
    }
    assert(candidate_keys(joined) =~= both);
}

} // verus!
