//! The one recoverable error of the library: a buffer without enough
//! remaining space for an announced batch of operations.

use vstd::prelude::*;

verus! {

/// Error returned if the supplied buffer is too small.
#[derive(Clone, Debug)]
pub struct BufferTooSmall {
    /// The buffer's total length in bytes.
    pub size: usize,
    /// The least total length the failed operation would have needed.
    pub expected: usize,
}

/// The decimal digit d as a character.
pub open spec fn digit_char(d: nat) -> char {
    if d == 0 {
        '0'
    } else if d == 1 {
        '1'
    } else if d == 2 {
        '2'
    } else if d == 3 {
        '3'
    } else if d == 4 {
        '4'
    } else if d == 5 {
        '5'
    } else if d == 6 {
        '6'
    } else if d == 7 {
        '7'
    } else if d == 8 {
        '8'
    } else {
        '9'
    }
}

/// The decimal digits of n, most significant first, with no sign and no
/// leading zeros (a single zero for n == 0).
pub open spec fn decimal_digits(n: nat) -> Seq<char>
    decreases n,
{
    if n < 10 {
        seq![digit_char(n)]
    } else {
        decimal_digits(n / 10) + seq![digit_char(n % 10)]
    }
}

impl BufferTooSmall {
    /// The error's textual rendering.
    /// Relies on format!'s decimal rendering of usize: the digits of each
    /// count, base 10, no sign, no padding, spliced into the fixed text.
    #[verifier::external_body]
    pub fn message(&self) -> (s: String)
        ensures
            s@ == "The supplied buffer is to small. Got "@ + decimal_digits(self.size as nat)
                + ", expected at least "@ + decimal_digits(self.expected as nat),
    {
        format!(
            "The supplied buffer is to small. Got {}, expected at least {}",
            self.size,
            self.expected,
        )
    }
}

} // verus!
