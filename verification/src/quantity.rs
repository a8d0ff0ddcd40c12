//! Kubernetes quantities such as "125m" or "512Mi": the number in front and
//! the unit suffix after it.

use vstd::prelude::*;
use crate::sorted::{first_where, lemma_first_where_at};
use crate::text::{chars_of, string_from_chars};

verus! {

/// A character of the number part of a quantity: an ASCII digit or '.'.
pub open spec fn is_number_char(c: char) -> bool {
    ('0' <= c && c <= '9') || c == '.'
}

pub open spec fn ends_number() -> spec_fn(char) -> bool {
    |c: char| !is_number_char(c)
}

/// Where the number part of `value` ends: at its first character that is
/// neither a digit nor '.', else at its end.
pub open spec fn number_end(value: Seq<char>) -> int {
    first_where(value, ends_number())
}

/// `value` split into its number part and its suffix.
pub fn split_quantity(value: &str) -> (r: (String, String))
    ensures
        r.0@ == value@.take(number_end(value@)),
        r.1@ == value@.skip(number_end(value@)),
{
    let chars = chars_of(value);
    let mut i: usize = 0;
    while i < chars.len() && (('0' <= chars[i] && chars[i] <= '9') || chars[i] == '.')
        invariant
            i <= chars.len(),
            chars@ == value@,
            forall|k: int| 0 <= k < i ==> !ends_number()(#[trigger] chars@[k]),
        decreases chars.len() - i,
    {
        i += 1;
    }
    proof {
        lemma_first_where_at(chars@, ends_number(), i as int);
        assert(chars@.subrange(0, i as int) =~= value@.take(i as int));
        assert(chars@.subrange(i as int, chars.len() as int) =~= value@.skip(i as int));
    }
    (string_from_chars(&chars, 0, i), string_from_chars(&chars, i, chars.len()))
}

} // verus!
