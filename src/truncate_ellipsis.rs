//! Shortening a text to a number of characters, marking the cut with `…`.

use vstd::prelude::*;

use crate::text::{chars_of, push_char, push_range, push_str};

verus! {

/// `s` where it has at most `max_len` characters; else its first `max_len - 1`
/// characters followed by `…`.
pub open spec fn truncated(s: Seq<char>, max_len: nat) -> Seq<char> {
    if s.len() <= max_len {
        s
    } else {
        s.take(max_len - 1) + seq!['…']
    }
}

/// Shortens a text to a number of characters.
pub trait TruncateEllipsis: View<V = Seq<char>> {
    /// The text where it has at most `max_len` characters; else its first
    /// `max_len - 1` characters and an ellipsis. Lengths count characters, not bytes.
    fn truncate_ellipsis(&self, max_len: usize) -> (r: String)
        requires
            max_len > 0,
        ensures
            r@ == truncated(self@, max_len as nat),
    ;
}

impl TruncateEllipsis for str {
    fn truncate_ellipsis(&self, max_len: usize) -> (r: String) {
        truncate_ellipsis_of(self, max_len)
    }
}

/// `s` shortened to `max_len` characters (see [`truncated`]).
pub fn truncate_ellipsis_of(s: &str, max_len: usize) -> (r: String)
    requires
        max_len > 0,
    ensures
        r@ == truncated(s@, max_len as nat),
{
    let v = chars_of(s);
    if v.len() <= max_len {
        let mut r = String::new();
        push_str(&mut r, s);
        assert(Seq::<char>::empty() + s@ =~= s@);
        r
    } else {
        let mut r = String::new();
        push_range(&mut r, v.as_slice(), 0, max_len - 1);
        push_char(&mut r, '…');
        assert(r@ =~= s@.take(max_len - 1) + seq!['…']);
        r
    }
}

} // verus!
