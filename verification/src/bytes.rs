//! The bytes that the literal grammar names, and searches over byte strings.

use vstd::prelude::*;
use vstd::slice::slice_subrange;

verus! {

/// The NUL byte, which ends a C string.
pub const NUL: u8 = 0x00;

/// The horizontal tab.
pub const TAB: u8 = 0x09;

/// The line feed.
pub const LF: u8 = 0x0a;

/// The carriage return.
pub const CR: u8 = 0x0d;

/// The double quote `"`.
pub const QUOTE: u8 = 0x22;

/// The pound sign `#`.
pub const POUND: u8 = 0x23;

/// The apostrophe `'`.
pub const APOSTROPHE: u8 = 0x27;

/// The digit `0`.
pub const DIGIT_ZERO: u8 = 0x30;

/// The backslash.
pub const BACKSLASH: u8 = 0x5c;

/// The letter `n`.
pub const LOWER_N: u8 = 0x6e;

/// The letter `r`.
pub const LOWER_R: u8 = 0x72;

/// The letter `t`.
pub const LOWER_T: u8 = 0x74;

/// The letter `u`.
pub const LOWER_U: u8 = 0x75;

/// The letter `x`.
pub const LOWER_X: u8 = 0x78;

/// The opening brace `{`.
pub const OPEN_BRACE: u8 = 0x7b;

/// The closing brace `}`.
pub const CLOSE_BRACE: u8 = 0x7d;

/// Whether every byte of `s` is `#`.
pub open spec fn all_pounds_spec(s: Seq<u8>) -> bool {
    forall|i: int| 0 <= i < s.len() ==> s[i] == POUND
}

/// Tells whether `bytes` holds nothing but `#`.
pub fn all_pounds(bytes: &[u8]) -> (r: bool)
    ensures
        r == all_pounds_spec(bytes@),
{
    let mut i: usize = 0;
    while i < bytes.len()
        invariant
            i <= bytes@.len(),
            forall|j: int| 0 <= j < i ==> bytes@[j] == POUND,
        decreases bytes@.len() - i,
    {
        if bytes[i] != POUND {
            return false;
        }
        i += 1;
    }
    true
}

/// The index of the first `needle` in `s`.
pub fn position(s: &[u8], needle: u8) -> (r: Option<usize>)
    ensures
        match r {
            Some(i) => s@.index_of_first(needle) == Some(i as int),
            None => s@.index_of_first(needle).is_none(),
        },
        r matches Some(i) ==> i < s@.len() && s@[i as int] == needle && forall|j: int|
            0 <= j < i ==> s@[j] != needle,
        r.is_none() ==> !s@.contains(needle),
{
    let mut i: usize = 0;
    while i < s.len()
        invariant
            i <= s@.len(),
            forall|j: int| 0 <= j < i ==> s@[j] != needle,
        decreases s@.len() - i,
    {
        if s[i] == needle {
            proof {
                s@.index_of_first_ensures(needle);
            }
            return Some(i);
        }
        i += 1;
    }
    proof {
        s@.index_of_first_ensures(needle);
    }
    None
}

/// The index of the last `needle` in `s`.
pub fn rposition(s: &[u8], needle: u8) -> (r: Option<usize>)
    ensures
        match r {
            Some(i) => s@.index_of_last(needle) == Some(i as int),
            None => s@.index_of_last(needle).is_none(),
        },
        r matches Some(i) ==> i < s@.len() && s@[i as int] == needle && forall|j: int|
            i < j < s@.len() ==> s@[j] != needle,
        r.is_none() ==> !s@.contains(needle),
{
    let mut i: usize = s.len();
    while i > 0
        invariant
            i <= s@.len(),
            forall|j: int| i <= j < s@.len() ==> s@[j] != needle,
        decreases i,
    {
        i -= 1;
        if s[i] == needle {
            proof {
                s@.index_of_last_ensures(needle);
            }
            return Some(i);
        }
    }
    proof {
        s@.index_of_last_ensures(needle);
    }
    None
}

/// The part of `s` from index `from` on.
pub fn tail(s: &[u8], from: usize) -> (r: &[u8])
    requires
        from <= s@.len(),
    ensures
        r@ == s@.skip(from as int),
{
    slice_subrange(s, from, s.len())
}

} // verus!
