//! Characters and strings: which characters may stand in a key, and the
//! string comparisons the rest of the library is built on.

use vstd::prelude::*;
use vstd::std_specs::iter::IteratorSpec;
use vstd::string::StringSliceAdditionalSpecFns;

verus! {

/// Whether `c` is alphanumeric in the sense of `char::is_alphanumeric`:
/// it has the Unicode Alphabetic property or lies in one of the number
/// categories. The tables behind this are not restated here.
pub uninterp spec fn char_is_alphanumeric(c: char) -> bool;

/// `char::is_alphanumeric` depends on the character alone, so its result
/// is given the name [`char_is_alphanumeric`]. Nothing else is claimed of it.
pub assume_specification[ char::is_alphanumeric ](c: char) -> (res: bool)
    ensures
        res == char_is_alphanumeric(c),
;

/// `String::push` appends the character to the end of the string.
pub assume_specification[ String::push ](s: &mut String, ch: char)
    ensures
        final(s)@ == old(s)@.push(ch),
;

/// The character that introduces a candidate key.
pub const KEY_MARKER: char = '.';

/// A key character is alphanumeric or an underscore. The marker itself
/// never belongs to a key, so a key cannot contain one.
pub open spec fn is_key_char(c: char) -> bool {
    c != KEY_MARKER && (c == '_' || char_is_alphanumeric(c))
}

/// Decides whether `c` may stand inside a key.
pub fn key_char(c: char) -> (res: bool)
    ensures
        res == is_key_char(c),
{
    c != KEY_MARKER && (c == '_' || c.is_alphanumeric())
}

/// Whether two string slices hold the same characters. The comparison runs
/// over their UTF-8 bytes, which stand for one sequence of characters only.
pub fn str_eq(a: &str, b: &str) -> (res: bool)
    ensures
        res == (a@ == b@),
{
    let x = a.as_bytes();
    let y = b.as_bytes();
    proof {
        vstd::utf8::encode_utf8_decode_utf8(a@);
        vstd::utf8::encode_utf8_decode_utf8(b@);
    }
    if x.len() != y.len() {
        return false;
    }
    let mut i: usize = 0;
    while i < x.len()
        invariant
            i <= x.len(),
            x.len() == y.len(),
            forall|j: int| 0 <= j < i ==> x@[j] == y@[j],
            x@ == a.spec_bytes(),
            y@ == b.spec_bytes(),
            vstd::utf8::decode_utf8(vstd::utf8::encode_utf8(a@)) == a@,
            vstd::utf8::decode_utf8(vstd::utf8::encode_utf8(b@)) == b@,
        decreases x.len() - i,
    {
        if x[i] != y[i] {
            return false;
        }
        i += 1;
    }
    assert(x@ =~= y@);
    true
}

/// Where the hash of a string starts.
pub const HASH_SEED: u64 = 0xcbf29ce484222325;

/// What the hash is multiplied by at each byte.
pub const HASH_FACTOR: u64 = 0x100000001b3;

/// The hash of a sequence of bytes: at each byte the hash so far is
/// multiplied by the factor, and the byte is added, both modulo 2^64.
pub open spec fn hash_of_bytes(bytes: Seq<u8>) -> u64
    decreases bytes.len(),
{
    if bytes.len() == 0 {
        HASH_SEED
    } else {
        hash_of_bytes(bytes.drop_last()).wrapping_mul(HASH_FACTOR).wrapping_add(
            bytes.last() as u64,
        )
    }
}

/// The hash of a string: the hash of its UTF-8 bytes.
pub closed spec fn hash_of(text: Seq<char>) -> u64 {
    hash_of_bytes(vstd::utf8::encode_utf8(text))
}

/// Computes the hash of a string.
pub fn hash_str(text: &str) -> (hash: u64)
    ensures
        hash == hash_of(text@),
{
    let bytes = text.as_bytes();
    let mut hash = HASH_SEED;
    let mut i: usize = 0;
    while i < bytes.len()
        invariant
            i <= bytes.len(),
            hash == hash_of_bytes(bytes@.take(i as int)),
        decreases bytes.len() - i,
    {
        assert(bytes@.take(i + 1).drop_last() =~= bytes@.take(i as int));
        hash = hash.wrapping_mul(HASH_FACTOR).wrapping_add(bytes[i] as u64);
        i += 1;
    }
    assert(bytes@.take(i as int) =~= bytes@);
    hash
}

/// Decides whether `text` begins with `prefix`.
pub fn starts_with(text: &str, prefix: &str) -> (res: bool)
    ensures
        res == prefix@.is_prefix_of(text@),
{
    let mut rest = text.chars();
    let ghost mut at: int = 0;
    for c in it: prefix.chars()
        invariant
            it.seq() == prefix@,
            at == it.index(),
            at <= text@.len(),
            rest.remaining() == text@.skip(at),
            rest.obeys_prophetic_iter_laws(),
            forall|j: int| 0 <= j < at ==> text@[j] == prefix@[j],
    {
        match rest.next() {
            Some(d) => {
                if d != c {
                    return false;
                }
            },
            None => {
                return false;
            },
        }
        proof {
            at = at + 1;
        }
    }
    assert(prefix@ =~= text@.subrange(0, prefix@.len() as int));
    true
}

} // verus!
