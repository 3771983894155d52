//! Byte-level vocabulary of the format: the bytes with a meaning, and the
//! searches and comparisons that both directions of the codec share.

use vstd::prelude::*;

verus! {

/// The byte that no key and no value may hold besides the line feed.
pub const NUL: u8 = 0;

/// Ends a line.
pub const LINE_FEED: u8 = 10;

/// Parts the key from the value.
pub const EQUALS: u8 = 61;

/// What the format can carry as a key or as a value: no NUL, no line feed.
pub open spec fn is_clean(bytes: Seq<u8>) -> bool {
    !bytes.contains(NUL) && !bytes.contains(LINE_FEED)
}

/// The lower-case form of an ASCII capital; every other byte as it is.
pub open spec fn ascii_lower(byte: u8) -> u8 {
    if 65 <= byte <= 90 {
        (byte + 32) as u8
    } else {
        byte
    }
}

/// Equality of two byte strings up to the case of ASCII letters.
pub open spec fn eq_ignoring_ascii_case(a: Seq<u8>, b: Seq<u8>) -> bool {
    &&& a.len() == b.len()
    &&& forall|i: int| 0 <= i < a.len() ==> ascii_lower(a[i]) == ascii_lower(b[i])
}

/// `Some(i)` pins the first occurrence of `needle` to `i`; `None` says that
/// there is none.
pub proof fn lemma_first_occurrence(haystack: Seq<u8>, needle: u8, at: int)
    requires
        0 <= at < haystack.len(),
        haystack[at] == needle,
        forall|j: int| 0 <= j < at ==> haystack[j] != needle,
    ensures
        haystack.index_of_first(needle) == Some(at),
{
    haystack.index_of_first_ensures(needle);
    assert(haystack.contains(needle));
}

/// A sequence without `needle` has no first occurrence of it.
pub proof fn lemma_no_occurrence(haystack: Seq<u8>, needle: u8)
    requires
        forall|j: int| 0 <= j < haystack.len() ==> haystack[j] != needle,
    ensures
        haystack.index_of_first(needle) is None,
        !haystack.contains(needle),
{
    haystack.index_of_first_ensures(needle);
}

/// Whether `needle` occurs in `haystack`.
pub fn contains_byte(haystack: &[u8], needle: u8) -> (found: bool)
    ensures
        found == haystack@.contains(needle),
{
    let mut i: usize = 0;
    while i < haystack.len()
        invariant
            i <= haystack.len(),
            forall|j: int| 0 <= j < i ==> haystack@[j] != needle,
        decreases haystack.len() - i,
    {
        if haystack[i] == needle {
            return true;
        }
        i = i + 1;
    }
    false
}

/// The index of the first `needle` in `haystack`.
pub fn find_byte(haystack: &[u8], needle: u8) -> (found: Option<usize>)
    ensures
        match found {
            Some(at) => at < haystack.len() && haystack@.index_of_first(needle) == Some(at as int),
            None => haystack@.index_of_first(needle) is None,
        },
{
    let mut i: usize = 0;
    while i < haystack.len()
        invariant
            i <= haystack.len(),
            forall|j: int| 0 <= j < i ==> haystack@[j] != needle,
        decreases haystack.len() - i,
    {
        if haystack[i] == needle {
            proof {
                lemma_first_occurrence(haystack@, needle, i as int);
            }
            return Some(i);
        }
        i = i + 1;
    }
    proof {
        lemma_no_occurrence(haystack@, needle);
    }
    None
}

/// Whether the two slices hold the same bytes.
pub fn bytes_eq(a: &[u8], b: &[u8]) -> (same: bool)
    ensures
        same == (a@ == b@),
{
    if a.len() != b.len() {
        return false;
    }
    let mut i: usize = 0;
    while i < a.len()
        invariant
            i <= a.len(),
            a.len() == b.len(),
            forall|j: int| 0 <= j < i ==> a@[j] == b@[j],
        decreases a.len() - i,
    {
        if a[i] != b[i] {
            return false;
        }
        i = i + 1;
    }
    assert(a@ =~= b@);
    true
}

/// The lower-case form of an ASCII capital; every other byte as it is.
pub fn to_ascii_lower(byte: u8) -> (lower: u8)
    ensures
        lower == ascii_lower(byte),
{
    if 65 <= byte && byte <= 90 {
        byte + 32
    } else {
        byte
    }
}

/// Whether the two slices are equal up to the case of ASCII letters.
pub fn eq_ignore_ascii_case(a: &[u8], b: &[u8]) -> (same: bool)
    ensures
        same == eq_ignoring_ascii_case(a@, b@),
{
    if a.len() != b.len() {
        return false;
    }
    let mut i: usize = 0;
    while i < a.len()
        invariant
            i <= a.len(),
            a.len() == b.len(),
            forall|j: int| 0 <= j < i ==> ascii_lower(a@[j]) == ascii_lower(b@[j]),
        decreases a.len() - i,
    {
        if to_ascii_lower(a[i]) != to_ascii_lower(b[i]) {
            return false;
        }
        i = i + 1;
    }
    true
}

} // verus!
