//! Reading a resource document: the byte-order mark, and the entries that
//! the XML reader finds in it.

use vstd::prelude::*;
use crate::keyset::string_views;
use crate::nesting::{nesting_bound, nesting_within, MAX_NESTING};

verus! {

/// The byte-order mark that some editors put in front of a document.
pub const BYTE_ORDER_MARK: char = '\u{feff}';

/// The tag of an entry of a resource document.
pub const ENTRY_TAG: &'static str = "data";

/// The attribute that holds an entry's name.
pub const NAME_ATTRIBUTE: &'static str = "name";

/// The tag of the child that holds an entry's comment.
pub const COMMENT_TAG: &'static str = "comment";

/// One entry as the document gives it: the name, where the entry has the
/// attribute, and the text of its comment, where it has one.
#[derive(Debug)]
pub struct RawEntry {
    pub name: Option<String>,
    pub comment: Option<String>,
}

/// A [`RawEntry`] as plain sequences of characters.
pub struct EntryView {
    pub name: Option<Seq<char>>,
    pub comment: Option<Seq<char>>,
}

impl View for RawEntry {
    type V = EntryView;

    open spec fn view(&self) -> EntryView {
        EntryView {
            name: match self.name {
                Some(name) => Some(name@),
                None => None,
            },
            comment: match self.comment {
                Some(comment) => Some(comment@),
                None => None,
            },
        }
    }
}

/// The entries of `s`, each by its view.
pub open spec fn entry_views(s: Seq<RawEntry>) -> Seq<EntryView> {
    Seq::new(s.len(), |i: int| s[i]@)
}

/// `text` without a leading byte-order mark.
pub open spec fn without_bom(text: Seq<char>) -> Seq<char> {
    if text.len() > 0 && text[0] == BYTE_ORDER_MARK {
        text.subrange(1, text.len() as int)
    } else {
        text
    }
}

/// Takes a leading byte-order mark off `text`, if there is one.
pub fn strip_bom(text: &str) -> (res: &str)
    ensures
        res@ == without_bom(text@),
{
    if !text.is_empty() && text.get_char(0) == BYTE_ORDER_MARK {
        let n = text.unicode_len();
        text.substring_char(1, n)
    } else {
        text
    }
}

/// The error of the XML reader. Nothing is read from it here but its text.
#[verifier::external_type_specification]
#[verifier::external_body]
pub struct ExXmlError(elementtree::Error);

/// What the XML reader finds in the document `xml`: for each child of the
/// root element with the tag `tag`, in document order, the value of its
/// attribute `attr` and the text of its first child with the tag `child`.
/// `None` where the reader rejects the document.
pub uninterp spec fn xml_entries(
    xml: Seq<char>,
    tag: Seq<char>,
    attr: Seq<char>,
    child: Seq<char>,
) -> Option<Seq<EntryView>>;

/// Parses `xml` with `elementtree::Element::from_reader` and hands out the
/// children of the root that `Element::find_all` gives for `tag`, each with
/// what `Element::get_attr` gives for `attr` and the `Element::text` of
/// what `Element::find` gives for `child`.
///
/// The reader works on the text alone, so the outcome is given the name
/// [`xml_entries`]; which documents it accepts and what it finds in them is
/// not stated. The reader descends into nested elements by recursion, one
/// level for each element that is open, so documents that are nested deeper
/// than [`MAX_NESTING`] are left out.
#[verifier::external_body]
fn read_xml_entries(xml: &str, tag: &str, attr: &str, child: &str) -> (res: Result<
    Vec<RawEntry>,
    elementtree::Error,
>)
    requires
        nesting_bound(xml@) <= MAX_NESTING,
    ensures
        match xml_entries(xml@, tag@, attr@, child@) {
            Some(entries) => res matches Ok(found) && entry_views(found@) == entries,
            None => res is Err,
        },
{
    let root = elementtree::Element::from_reader(xml.as_bytes())?;
    let mut found = Vec::new();
    for element in root.find_all(tag) {
        found.push(
            RawEntry {
                name: element.get_attr(attr).map(|value| value.to_string()),
                comment: element.find(child).map(|node| node.text().to_string()),
            },
        );
    }
    Ok(found)
}

/// The text of the XML reader's error, as its `Display` impl writes it.
/// No claim is made of what it says.
#[verifier::external_body]
fn xml_error_text(error: &elementtree::Error) -> (text: String) {
    error.to_string()
}

/// Why a document gives no catalog.
#[derive(Debug)]
pub enum CatalogParseError {
    /// The document is not well-formed. `detail` is what the XML reader
    /// says of it.
    Malformed { detail: String },
    /// The entry with this index, counted from 0, has no name.
    MissingName { entry: usize },
    /// The elements of the document are nested deeper than [`MAX_NESTING`];
    /// the document is not handed to the XML reader.
    TooDeep,
}

/// Whether the elements of a document, behind the byte-order mark if there
/// is one, are nested too deeply to be read.
pub open spec fn is_too_deep(document: Seq<char>) -> bool {
    nesting_bound(without_bom(document)) > MAX_NESTING
}

/// The entries of a resource document: what the XML reader finds behind
/// the byte-order mark, if there is one.
pub open spec fn catalog_entries(document: Seq<char>) -> Option<Seq<EntryView>> {
    xml_entries(without_bom(document), ENTRY_TAG@, NAME_ATTRIBUTE@, COMMENT_TAG@)
}

/// A byte-order mark in front of a document changes nothing in what the
/// document is read as. (A second mark behind the first is not taken off:
/// it is left to the XML reader.)
pub proof fn lemma_bom_is_ignored(document: Seq<char>)
    requires
        document.len() == 0 || document[0] != BYTE_ORDER_MARK,
    ensures
        catalog_entries(seq![BYTE_ORDER_MARK] + document) == catalog_entries(document),
        is_too_deep(seq![BYTE_ORDER_MARK] + document) == is_too_deep(document),
{
    let marked = seq![BYTE_ORDER_MARK] + document;
    assert(marked.subrange(1, marked.len() as int) =~= document);
}

/// Reads the entries of a resource document. A document that is nested
/// too deeply is refused before the XML reader sees it.
pub fn read_catalog_entries(document: &str) -> (res: Result<Vec<RawEntry>, CatalogParseError>)
    ensures
        is_too_deep(document@) ==> res matches Err(CatalogParseError::TooDeep),
        !is_too_deep(document@) ==> match catalog_entries(document@) {
            Some(entries) => res matches Ok(found) && entry_views(found@) == entries,
            None => res matches Err(CatalogParseError::Malformed { .. }),
        },
{
    let text = strip_bom(document);
    if !nesting_within(text, MAX_NESTING) {
        return Err(CatalogParseError::TooDeep);
    }
    match read_xml_entries(text, ENTRY_TAG, NAME_ATTRIBUTE, COMMENT_TAG) {
        Ok(found) => Ok(found),
        Err(error) => Err(CatalogParseError::Malformed { detail: xml_error_text(&error) }),
    }
}

/// Whether every entry has a name.
pub open spec fn all_named(entries: Seq<EntryView>) -> bool {
    forall|i: int| 0 <= i < entries.len() ==> (#[trigger] entries[i]).name is Some
}

/// Whether the entry at `at` is the first that has no name.
pub open spec fn is_first_unnamed(entries: Seq<EntryView>, at: int) -> bool {
    &&& 0 <= at < entries.len()
    &&& entries[at].name is None
    &&& all_named(entries.take(at))
}

/// The names of the entries, in document order.
pub open spec fn entry_names(entries: Seq<EntryView>) -> Seq<Seq<char>> {
    Seq::new(entries.len(), |i: int| entries[i].name->0)
}

/// The index of the first entry without a name, if there is one.
pub fn find_unnamed(entries: &Vec<RawEntry>) -> (res: Option<usize>)
    ensures
        match res {
            Some(at) => is_first_unnamed(entry_views(entries@), at as int),
            None => all_named(entry_views(entries@)),
        },
{
    let ghost all = entry_views(entries@);
    let mut i: usize = 0;
    while i < entries.len()
        invariant
            i <= entries.len(),
            all == entry_views(entries@),
            all_named(all.take(i as int)),
        decreases entries.len() - i,
    {
        if entries[i].name.is_none() {
            return Some(i);
        }
        proof {
            assert forall|j: int| 0 <= j < i + 1 implies (#[trigger] all.take(
                i + 1,
            )[j]).name is Some by {
                if j < i {
                    assert(all.take(i as int)[j].name is Some);
                }
            }
        }
        i += 1;
    }
    assert(all.take(i as int) =~= all);
    None
}

/// The reference keys that a list of entries gives: the names in document
/// order, repeats included. An entry without a name is an error.
pub fn reference_keys_from(entries: &Vec<RawEntry>) -> (res: Result<
    Vec<String>,
    CatalogParseError,
>)
    ensures
        match res {
            Ok(keys) => all_named(entry_views(entries@)) && string_views(keys@)
                == entry_names(entry_views(entries@)),
            Err(error) => error matches CatalogParseError::MissingName { entry }
                && is_first_unnamed(entry_views(entries@), entry as int),
        },
{
    match find_unnamed(entries) {
        Some(at) => Err(CatalogParseError::MissingName { entry: at }),
        None => {
            let ghost all = entry_views(entries@);
            let mut keys: Vec<String> = Vec::new();
            let mut i: usize = 0;
            while i < entries.len()
                invariant
                    i <= entries.len(),
                    all == entry_views(entries@),
                    all_named(all),
                    keys@.len() == i,
                    forall|j: int| 0 <= j < i ==> (#[trigger] keys@[j])@ == all[j].name->0,
                decreases entries.len() - i,
            {
                assert(all[i as int].name is Some);
                match &entries[i].name {
                    Some(name) => {
                        keys.push(name.clone());
                    },
                    None => {},
                }
                i += 1;
            }
            assert(string_views(keys@) =~= entry_names(all));
            Ok(keys)
        },
    }
}

/// Reads the reference keys of the canonical locale document.
pub fn load_reference_keys(document: &str) -> (res: Result<Vec<String>, CatalogParseError>)
    ensures
        is_too_deep(document@) ==> res matches Err(CatalogParseError::TooDeep),
        !is_too_deep(document@) ==> match catalog_entries(document@) {
            None => res matches Err(CatalogParseError::Malformed { .. }),
            Some(entries) => match res {
                Ok(keys) => all_named(entries) && string_views(keys@) == entry_names(
                    entries,
                ),
                Err(error) => error matches CatalogParseError::MissingName { entry }
                    && is_first_unnamed(entries, entry as int),
            },
        },
{
    match read_catalog_entries(document) {
        Ok(entries) => reference_keys_from(&entries),
        Err(error) => Err(error),
    }
}

} // verus!
