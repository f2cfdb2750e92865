//! The text of the report: one line for each unused key, one block for
//! each locale file.

use vstd::prelude::*;
use vstd::string::StringExecFns;
use crate::document::CatalogParseError;
use crate::keyset::string_views;
use crate::reconcile::LocaleDiff;

verus! {

/// What stands before an unused key.
pub const UNUSED_LABEL: &'static str = "Unused line: ";

/// What stands before the path of a locale file.
pub const NAME_LABEL: &'static str = "Name: ";

/// What stands before a missed key.
pub const MISSED_LABEL: &'static str = "\n  Missed line: ";

/// What stands before an extra key.
pub const EXTRA_LABEL: &'static str = "\n  Extra line: ";

/// What stands before the number of untranslated records.
pub const UNTRANSLATED_LABEL: &'static str = "\n  Untranslated lines: ";

/// What stands before the reason why a locale file was not compared.
pub const ERROR_LABEL: &'static str = "\n  Error: ";

/// What a malformed document is reported with, before the reader's words.
pub const MALFORMED_LABEL: &'static str = "malformed document: ";

/// What an entry without a name is reported with, before its index.
pub const UNNAMED_LABEL: &'static str = "no name attribute on entry ";

/// What a document that is nested too deeply is reported with.
pub const TOO_DEEP_LABEL: &'static str = "elements are nested too deeply";

/// The character of a decimal digit.
pub open spec fn digit_char(d: int) -> char {
    if d == 0 {
        '0'
    } else if d == 1 {
        '1'
    } else if d == 2 {
        '2'
    } else if d == 3 {
        '3'
    } else if d == 4 {
        '4'
    } else if d == 5 {
        '5'
    } else if d == 6 {
        '6'
    } else if d == 7 {
        '7'
    } else if d == 8 {
        '8'
    } else {
        '9'
    }
}

/// A number in decimal digits, without leading zeros.
pub open spec fn decimal_digits(n: nat) -> Seq<char>
    decreases n,
{
    if n < 10 {
        seq![digit_char(n as int)]
    } else {
        decimal_digits(n / 10).push(digit_char((n % 10) as int))
    }
}

fn digit(d: usize) -> (c: char)
    requires
        d < 10,
    ensures
        c == digit_char(d as int),
{
    if d == 0 {
        '0'
    } else if d == 1 {
        '1'
    } else if d == 2 {
        '2'
    } else if d == 3 {
        '3'
    } else if d == 4 {
        '4'
    } else if d == 5 {
        '5'
    } else if d == 6 {
        '6'
    } else if d == 7 {
        '7'
    } else if d == 8 {
        '8'
    } else {
        '9'
    }
}

/// Writes a number in decimal digits.
pub fn decimal(n: usize) -> (text: String)
    ensures
        text@ == decimal_digits(n as nat),
    decreases n,
{
    if n < 10 {
        let mut text = String::new();
        text.push(digit(n));
        assert(text@ =~= seq![digit_char(n as int)]);
        text
    } else {
        let mut text = decimal(n / 10);
        text.push(digit(n % 10));
        text
    }
}

/// Each key behind the label, one after the other.
pub open spec fn labelled(label: Seq<char>, keys: Seq<Seq<char>>) -> Seq<char>
    decreases keys.len(),
{
    if keys.len() == 0 {
        Seq::empty()
    } else {
        labelled(label, keys.drop_last()) + label + keys.last()
    }
}

/// The line that reports an unused key.
pub open spec fn unused_line_text(key: Seq<char>) -> Seq<char> {
    UNUSED_LABEL@ + key
}

/// The block that reports one locale file: its path, the missed keys, the
/// extra keys, and the number of untranslated records.
pub open spec fn locale_block_text(
    path: Seq<char>,
    missed: Seq<Seq<char>>,
    extra: Seq<Seq<char>>,
    untranslated: nat,
) -> Seq<char> {
    NAME_LABEL@ + path + labelled(MISSED_LABEL@, missed) + labelled(EXTRA_LABEL@, extra)
        + UNTRANSLATED_LABEL@ + decimal_digits(untranslated)
}

/// The block that reports a locale file that could not be compared.
pub open spec fn failed_block_text(path: Seq<char>, reason: Seq<char>) -> Seq<char> {
    NAME_LABEL@ + path + ERROR_LABEL@ + reason
}

/// What an error says of itself.
pub open spec fn error_text(error: CatalogParseError) -> Seq<char> {
    match error {
        CatalogParseError::Malformed { detail } => MALFORMED_LABEL@ + detail@,
        CatalogParseError::MissingName { entry } => UNNAMED_LABEL@ + decimal_digits(entry as nat),
        CatalogParseError::TooDeep => TOO_DEEP_LABEL@,
    }
}

/// Writes the line that reports an unused key.
pub fn unused_line(key: &str) -> (line: String)
    ensures
        line@ == unused_line_text(key@),
{
    let mut line = String::from_str(UNUSED_LABEL);
    line.append(key);
    line
}

/// Appends each key behind the label.
fn append_labelled(text: &mut String, label: &str, keys: &Vec<String>)
    ensures
        final(text)@ == old(text)@ + labelled(label@, string_views(keys@)),
{
    let ghost start = text@;
    let ghost all = string_views(keys@);
    proof {
        assert(all.take(0) =~= Seq::<Seq<char>>::empty());
        assert(text@ =~= start + labelled(label@, all.take(0)));
    }
    let mut i: usize = 0;
    while i < keys.len()
        invariant
            i <= keys.len(),
            all == string_views(keys@),
            text@ == start + labelled(label@, all.take(i as int)),
        decreases keys.len() - i,
    {
        text.append(label);
        text.append(keys[i].as_str());
        proof {
            assert(all.take(i + 1).drop_last() =~= all.take(i as int));
            assert(all.take(i + 1).last() == all[i as int]);
            assert(text@ =~= start + labelled(label@, all.take(i + 1)));
        }
        i += 1;
    }
    assert(all.take(i as int) =~= all);
}

/// Writes the block that reports one locale file.
pub fn locale_block(path: &str, diff: &LocaleDiff) -> (block: String)
    ensures
        block@ == locale_block_text(
            path@,
            string_views(diff.missed@),
            string_views(diff.extra@),
            diff.untranslated as nat,
        ),
{
    let mut block = String::from_str(NAME_LABEL);
    block.append(path);
    append_labelled(&mut block, MISSED_LABEL, &diff.missed);
    append_labelled(&mut block, EXTRA_LABEL, &diff.extra);
    block.append(UNTRANSLATED_LABEL);
    let count = decimal(diff.untranslated);
    block.append(count.as_str());
    block
}

/// Writes the block that reports a locale file that could not be compared.
pub fn failed_block(path: &str, reason: &str) -> (block: String)
    ensures
        block@ == failed_block_text(path@, reason@),
{
    let mut block = String::from_str(NAME_LABEL);
    block.append(path);
    block.append(ERROR_LABEL);
    block.append(reason);
    block
}

impl CatalogParseError {
    /// Says what is wrong with the document.
    pub fn message(&self) -> (text: String)
        ensures
            text@ == error_text(*self),
    {
        match self {
            CatalogParseError::Malformed { detail } => {
                let mut text = String::from_str(MALFORMED_LABEL);
                text.append(detail.as_str());
                text
            },
            CatalogParseError::MissingName { entry } => {
                let mut text = String::from_str(UNNAMED_LABEL);
                let index = decimal(*entry);
                text.append(index.as_str());
                text
            },
            CatalogParseError::TooDeep => String::from_str(TOO_DEEP_LABEL),
        }
    }
}

} // verus!
