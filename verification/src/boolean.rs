//! The relaxed boolean vocabulary in which the `quit` flag is read.
//!
//! Two matchers are combined on purpose asymmetrically: a value that neither
//! of them knows counts as true, and the empty value counts as false.

use crate::bytes::{eq_ignore_ascii_case, eq_ignoring_ascii_case};
use vstd::prelude::*;
use vstd::string::StringSliceAdditionalSpecFns;

verus! {

/// `yes`, `on` or `true`, in any case of the letters.
pub open spec fn is_true_token(value: Seq<u8>) -> bool {
    ||| eq_ignoring_ascii_case(value, "yes".spec_bytes())
    ||| eq_ignoring_ascii_case(value, "on".spec_bytes())
    ||| eq_ignoring_ascii_case(value, "true".spec_bytes())
}

/// `no`, `off` or `false`, in any case of the letters, or nothing at all.
pub open spec fn is_false_token(value: Seq<u8>) -> bool {
    ||| eq_ignoring_ascii_case(value, "no".spec_bytes())
    ||| eq_ignoring_ascii_case(value, "off".spec_bytes())
    ||| eq_ignoring_ascii_case(value, "false".spec_bytes())
    ||| value.len() == 0
}

/// The flag that a value stands for: false only where it is a false token
/// and no true token.
pub open spec fn flag_of(value: Seq<u8>) -> bool {
    is_true_token(value) || !is_false_token(value)
}

/// Whether `value` is one of the words for true.
pub fn parse_true(value: &[u8]) -> (matched: bool)
    ensures
        matched == is_true_token(value@),
{
    eq_ignore_ascii_case(value, "yes".as_bytes()) || eq_ignore_ascii_case(value, "on".as_bytes())
        || eq_ignore_ascii_case(value, "true".as_bytes())
}

/// Whether `value` is one of the words for false, or empty.
pub fn parse_false(value: &[u8]) -> (matched: bool)
    ensures
        matched == is_false_token(value@),
{
    eq_ignore_ascii_case(value, "no".as_bytes()) || eq_ignore_ascii_case(value, "off".as_bytes())
        || eq_ignore_ascii_case(value, "false".as_bytes()) || value.len() == 0
}

/// The flag that `value` stands for.
pub fn parse_flag(value: &[u8]) -> (flag: bool)
    ensures
        flag == flag_of(value@),
{
    if parse_true(value) {
        true
    } else {
        !parse_false(value)
    }
}

} // verus!
