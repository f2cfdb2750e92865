//! Locale catalogs: the records of one locale file, keyed by name.

use vstd::prelude::*;
use crate::document::{
    all_named, catalog_entries, entry_names, entry_views, find_unnamed, is_first_unnamed,
    is_too_deep, read_catalog_entries, CatalogParseError, EntryView, RawEntry,
};
use crate::keyset::{
    first_occurrences, lemma_first_occurrences, lemma_first_occurrences_push, string_views, KeySet,
};
use crate::text::starts_with;

verus! {

/// A comment that begins with this prefix marks its entry as pending
/// translation.
pub const PENDING_PREFIX: &'static str = "Check";

/// One entry of a locale file.
#[derive(Debug)]
pub struct LocaleRecord {
    pub name: String,
    pub comment: Option<String>,
}

/// A [`LocaleRecord`] as plain sequences of characters.
pub struct RecordView {
    pub name: Seq<char>,
    pub comment: Option<Seq<char>>,
}

impl View for LocaleRecord {
    type V = RecordView;

    open spec fn view(&self) -> RecordView {
        RecordView { name: self.name@, comment: comment_view(self.comment) }
    }
}

/// A comment, where there is one, as a sequence of characters.
pub open spec fn comment_view(comment: Option<String>) -> Option<Seq<char>> {
    match comment {
        Some(text) => Some(text@),
        None => None,
    }
}

/// The records that stand for names and comments at the same positions.
spec fn records_of(names: Seq<Seq<char>>, comments: Seq<Option<String>>) -> Seq<
    RecordView,
> {
    Seq::new(
        names.len(),
        |i: int| RecordView { name: names[i], comment: comment_view(comments[i]) },
    )
}

/// The names of the records of `s`, in their order.
pub open spec fn record_names(s: Seq<RecordView>) -> Seq<Seq<char>> {
    Seq::new(s.len(), |i: int| s[i].name)
}

/// Whether a comment marks its entry as pending translation.
pub open spec fn is_pending(comment: Option<Seq<char>>) -> bool {
    comment matches Some(text) && PENDING_PREFIX@.is_prefix_of(text)
}

/// The records of `s` that are pending translation.
pub open spec fn pending_records(s: Seq<RecordView>) -> Seq<RecordView> {
    s.filter(|record: RecordView| is_pending(record.comment))
}

/// Decides whether a comment marks its entry as pending translation.
pub fn comment_is_pending(comment: &Option<String>) -> (res: bool)
    ensures
        res == is_pending(comment_view(*comment)),
{
    match comment {
        Some(text) => starts_with(text.as_str(), PENDING_PREFIX),
        None => false,
    }
}

/// The mapping that a list of records with distinct names stands for.
pub open spec fn records_map(s: Seq<RecordView>) -> Map<Seq<char>, Option<Seq<char>>> {
    Map::new(
        |name: Seq<char>| record_names(s).contains(name),
        |name: Seq<char>| s[record_names(s).index_of(name)].comment,
    )
}

/// The records of one locale file: a mapping from name to comment.
///
/// No two records have one name. The records stand in the order in which
/// their names first arrived; a later record of the same name replaces the
/// comment of the earlier one.
pub struct LocaleCatalog {
    names: KeySet,
    comments: Vec<Option<String>>,
}

impl View for LocaleCatalog {
    type V = Map<Seq<char>, Option<Seq<char>>>;

    open spec fn view(&self) -> Map<Seq<char>, Option<Seq<char>>> {
        records_map(self.entries())
    }
}

impl LocaleCatalog {
    #[verifier::type_invariant]
    spec fn aligned(&self) -> bool {
        self.comments@.len() == self.names.order().len()
    }

    /// The records in the order in which their names first arrived.
    pub closed spec fn entries(&self) -> Seq<RecordView> {
        records_of(self.names.order(), self.comments@)
    }

    /// The names of the records, in the same order.
    pub open spec fn names(&self) -> Seq<Seq<char>> {
        record_names(self.entries())
    }

    /// The catalog without records.
    pub fn new() -> (res: LocaleCatalog)
        ensures
            res.entries() == Seq::<RecordView>::empty(),
            res@ == Map::<Seq<char>, Option<Seq<char>>>::empty(),
    {
        let res = LocaleCatalog { names: KeySet::new(), comments: Vec::new() };
        assert(res.entries() =~= Seq::<RecordView>::empty());
        assert(res@ =~= Map::<Seq<char>, Option<Seq<char>>>::empty());
        res
    }

    /// The names of the records, in the order in which they first arrived.
    pub fn keys(&self) -> (res: &Vec<String>)
        ensures
            string_views(res@) == self.names(),
            self.names().no_duplicates(),
    {
        proof {
            use_type_invariant(self);
        }
        let res = self.names.keys();
        assert(string_views(res@) =~= self.names());
        res
    }

    /// The comments of the records, each at the position of its name.
    pub fn comments(&self) -> (res: &Vec<Option<String>>)
        ensures
            res@.len() == self.entries().len(),
            forall|i: int|
                0 <= i < res@.len() ==> comment_view(#[trigger] res@[i])
                    == self.entries()[i].comment,
    {
        proof {
            use_type_invariant(self);
        }
        &self.comments
    }

    /// The number of records.
    pub fn len(&self) -> (n: usize)
        ensures
            n == self.entries().len(),
            n == self@.dom().len(),
            self@.dom().finite(),
    {
        proof {
            use_type_invariant(self);
        }
        let names = self.names.keys();
        proof {
            assert(self.names() =~= self.names.order());
            self.names().unique_seq_to_set();
            vstd::seq_lib::seq_to_set_is_finite(self.names());
            assert(self@.dom() =~= self.names().to_set());
        }
        names.len()
    }

    /// Where the record with this name stands, if there is one.
    fn position(&self, name: &str) -> (res: Option<usize>)
        ensures
            self.names().no_duplicates(),
            match res {
                Some(i) => i < self.names().len() && self.names()[i as int] == name@,
                None => !self.names().contains(name@),
            },
    {
        proof {
            use_type_invariant(self);
        }
        let names = self.names.keys();
        assert(self.names() =~= self.names.order());
        self.names.position(name)
    }

    /// Whether the catalog has a record with this name.
    pub fn contains(&self, name: &str) -> (res: bool)
        ensures
            res == self@.dom().contains(name@),
    {
        self.position(name).is_some()
    }

    /// The comment of the record with this name, if there is such a record.
    pub fn comment_of(&self, name: &str) -> (res: Option<&Option<String>>)
        ensures
            match res {
                Some(comment) => self@.dom().contains(name@) && comment_view(*comment)
                    == self@[name@],
                None => !self@.dom().contains(name@),
            },
    {
        proof {
            use_type_invariant(self);
        }
        match self.position(name) {
            Some(i) => {
                proof {
                    lemma_index_of_name(self.entries(), i as int);
                }
                Some(&self.comments[i])
            },
            None => None,
        }
    }

    /// Puts a record into the catalog. Where the catalog has a record of
    /// the same name, the new comment replaces the old one; otherwise the
    /// record is added behind the others.
    pub fn insert(&mut self, record: LocaleRecord)
        ensures
            final(self)@ == old(self)@.insert(record@.name, record@.comment),
            final(self).names() == if old(self)@.dom().contains(record@.name) {
                old(self).names()
            } else {
                old(self).names().push(record@.name)
            },
    {
        proof {
            use_type_invariant(&*self);
        }
        let ghost before = self.entries();
        let ghost r = record@;
        let found = self.position(record.name.as_str());
        let mut taken = LocaleCatalog::new();
        std::mem::swap(self, &mut taken);
        let LocaleCatalog { mut names, mut comments } = taken;
        let LocaleRecord { name, comment } = record;
        match found {
            Some(i) => {
                comments.set(i, comment);
                proof {
                    lemma_replace(before, i as int, r);
                    assert(records_of(names.order(), comments@) =~= before.update(i as int, r));
                }
            },
            None => {
                assert(record_names(before) =~= names.order());
                assert(!names@.contains(name@));
                names.insert(name);
                comments.push(comment);
                proof {
                    lemma_append(before, r);
                    assert(records_of(names.order(), comments@) =~= before.push(r));
                }
            },
        }
        *self = LocaleCatalog { names, comments };
    }

    /// The number of records that are pending translation.
    pub fn pending_count(&self) -> (n: usize)
        ensures
            n == pending_records(self.entries()).len(),
    {
        proof {
            use_type_invariant(self);
        }
        let ghost all = self.entries();
        let ghost pending = |record: RecordView| is_pending(record.comment);
        let mut n: usize = 0;
        let mut i: usize = 0;
        proof {
            assert(all.take(0) =~= Seq::<RecordView>::empty());
            reveal(Seq::filter);
        }
        while i < self.comments.len()
            invariant
                i <= self.comments.len(),
                self.comments@.len() == all.len(),
                all == self.entries(),
                pending == |record: RecordView| is_pending(record.comment),
                n == all.take(i as int).filter(pending).len(),
                n <= i,
            decreases self.comments.len() - i,
        {
            let marked = comment_is_pending(&self.comments[i]);
            proof {
                all.lemma_take_succ_push(i as int);
                all.take(i as int).lemma_filter_push(all[i as int], pending);
            }
            if marked {
                n += 1;
            }
            i += 1;
        }
        assert(all.take(i as int) =~= all);
        n
    }
}

/// Among distinct names, a name stands at one index only.
proof fn lemma_index_of_name(s: Seq<RecordView>, i: int)
    requires
        record_names(s).no_duplicates(),
        0 <= i < s.len(),
    ensures
        record_names(s).index_of(s[i].name) == i,
{
    let names = record_names(s);
    assert(names[i] == s[i].name);
    let j = names.index_of(s[i].name);
    assert(0 <= j < names.len() && names[j] == s[i].name);
}

/// A record with a new name, added behind the others, adds one entry to
/// the mapping.
proof fn lemma_append(s: Seq<RecordView>, r: RecordView)
    requires
        record_names(s).no_duplicates(),
        !record_names(s).contains(r.name),
    ensures
        record_names(s.push(r)).no_duplicates(),
        record_names(s.push(r)) == record_names(s).push(r.name),
        records_map(s.push(r)) == records_map(s).insert(r.name, r.comment),
{
    let more = s.push(r);
    assert(record_names(more) =~= record_names(s).push(r.name));
    assert(record_names(more).no_duplicates());
    assert forall|name: Seq<char>| #[trigger]
        record_names(more).contains(name) implies records_map(more)[name] == records_map(s).insert(
        r.name,
        r.comment,
    )[name] by {
        let j = record_names(more).index_of(name);
        lemma_index_of_name(more, j);
        if name != r.name {
            assert(record_names(s)[j] == name);
            lemma_index_of_name(s, j);
        }
    }
    assert forall|name: Seq<char>| record_names(more).contains(name) <==> (record_names(
        s,
    ).contains(name) || name == r.name) by {
        if record_names(s).contains(name) {
            let j = record_names(s).index_of(name);
            assert(record_names(more)[j] == name);
        }
        if name == r.name {
            assert(record_names(more)[s.len() as int] == name);
        }
    }
    assert(records_map(more) =~= records_map(s).insert(r.name, r.comment));
}

/// A record that takes the place of one with the same name changes that
/// entry of the mapping and no other.
proof fn lemma_replace(s: Seq<RecordView>, i: int, r: RecordView)
    requires
        record_names(s).no_duplicates(),
        0 <= i < s.len(),
        s[i].name == r.name,
    ensures
        record_names(s.update(i, r)) == record_names(s),
        records_map(s.update(i, r)) == records_map(s).insert(r.name, r.comment),
{
    let changed = s.update(i, r);
    assert(record_names(changed) =~= record_names(s));
    assert(record_names(s)[i] == r.name);
    assert forall|name: Seq<char>| #[trigger]
        record_names(s).contains(name) implies records_map(changed)[name] == records_map(s).insert(
        r.name,
        r.comment,
    )[name] by {
        let j = record_names(s).index_of(name);
        lemma_index_of_name(s, j);
        lemma_index_of_name(s, i);
    }
    assert(records_map(changed) =~= records_map(s).insert(r.name, r.comment));
}

/// The mapping that a list of entries stands for. Where two entries have
/// one name, the later one wins.
pub open spec fn catalog_of(entries: Seq<EntryView>) -> Map<Seq<char>, Option<Seq<char>>>
    decreases entries.len(),
{
    if entries.len() == 0 {
        Map::empty()
    } else {
        catalog_of(entries.drop_last()).insert(entries.last().name->0, entries.last().comment)
    }
}

/// The locale catalog that a list of entries gives. An entry without a
/// name is an error.
pub fn locale_catalog_from(entries: &Vec<RawEntry>) -> (res: Result<
    LocaleCatalog,
    CatalogParseError,
>)
    ensures
        match res {
            Ok(catalog) => {
                &&& all_named(entry_views(entries@))
                &&& catalog@ == catalog_of(entry_views(entries@))
                &&& catalog.names() == first_occurrences(entry_names(entry_views(entries@)))
            },
            Err(error) => error matches CatalogParseError::MissingName { entry }
                && is_first_unnamed(entry_views(entries@), entry as int),
        },
{
    match find_unnamed(entries) {
        Some(at) => Err(CatalogParseError::MissingName { entry: at }),
        None => {
            let ghost all = entry_views(entries@);
            let ghost names = entry_names(all);
            let mut catalog = LocaleCatalog::new();
            proof {
                assert(all.take(0) =~= Seq::<EntryView>::empty());
                assert(names.take(0) =~= Seq::<Seq<char>>::empty());
                assert(catalog.names() =~= Seq::<Seq<char>>::empty());
            }
            let mut i: usize = 0;
            while i < entries.len()
                invariant
                    i <= entries.len(),
                    all == entry_views(entries@),
                    names == entry_names(all),
                    all_named(all),
                    catalog@ == catalog_of(all.take(i as int)),
                    catalog.names() == first_occurrences(names.take(i as int)),
                decreases entries.len() - i,
            {
                let ghost e = all[i as int];
                assert(e.name is Some);
                let entry = &entries[i];
                match &entry.name {
                    Some(name) => {
                        let comment = match &entry.comment {
                            Some(text) => Some(text.clone()),
                            None => None,
                        };
                        let record = LocaleRecord { name: name.clone(), comment };
                        assert(record@.name == e.name->0 && record@.comment == e.comment);
                        proof {
                            lemma_first_occurrences(names.take(i as int));
                            names.lemma_take_succ_push(i as int);
                            lemma_first_occurrences_push(names.take(i as int), names[i as int]);
                            assert(all.take(i + 1).drop_last() =~= all.take(i as int));
                            assert(catalog@.dom().contains(e.name->0) <==> names.take(
                                i as int,
                            ).to_set().contains(e.name->0));
                        }
                        catalog.insert(record);
                    },
                    None => {},
                }
                i += 1;
            }
            assert(all.take(i as int) =~= all);
            assert(names.take(i as int) =~= names);
            Ok(catalog)
        },
    }
}

/// Reads the catalog of a locale document.
pub fn load_locale_catalog(document: &str) -> (res: Result<LocaleCatalog, CatalogParseError>)
    ensures
        is_too_deep(document@) ==> res matches Err(CatalogParseError::TooDeep),
        !is_too_deep(document@) ==> match catalog_entries(document@) {
            None => res matches Err(CatalogParseError::Malformed { .. }),
            Some(entries) => match res {
                Ok(catalog) => {
                    &&& all_named(entries)
                    &&& catalog@ == catalog_of(entries)
                    &&& catalog.names() == first_occurrences(entry_names(entries))
                },
                Err(error) => error matches CatalogParseError::MissingName { entry }
                    && is_first_unnamed(entries, entry as int),
            },
        },
{
    match read_catalog_entries(document) {
        Ok(entries) => locale_catalog_from(&entries),
        Err(error) => Err(error),
    }
}

} // verus!
