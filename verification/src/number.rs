//! Numbers as they are written in decimal, and floating-point values that are carried
//! through unread.

use vstd::prelude::*;

use vstd::std_specs::cmp::PartialEqSpecImpl;

verus! {

/// An IEEE 754 single-precision value, held by its bit pattern. It is passed on as it came;
/// nothing here computes with it.
#[derive(Debug, Clone, Copy)]
pub struct Float32 {
    pub bits: u32,
}

impl Float32 {
    /// Whether the bits are those of no number.
    pub open spec fn is_nan(self) -> bool {
        self.bits % 0x8000_0000 > 0x7f80_0000
    }

    /// Whether the number is zero, which has a negative form too.
    pub open spec fn is_zero(self) -> bool {
        self.bits % 0x8000_0000 == 0
    }

    /// Whether two values are the same number.
    pub open spec fn is_same(self, other: Float32) -> bool {
        !self.is_nan() && (self.bits == other.bits || self.is_zero() && other.is_zero())
    }
}

impl PartialEq for Float32 {
    fn eq(&self, other: &Float32) -> (same: bool) {
        let number = self.bits % 0x8000_0000 <= 0x7f80_0000;
        let zeros = self.bits % 0x8000_0000 == 0 && other.bits % 0x8000_0000 == 0;
        number && (self.bits == other.bits || zeros)
    }
}

impl PartialEqSpecImpl for Float32 {
    open spec fn obeys_eq_spec() -> bool {
        true
    }

    open spec fn eq_spec(&self, other: &Float32) -> bool {
        self.is_same(*other)
    }
}

/// The bit pattern of 1.0.
pub const ONE_BITS: u32 = 0x3f80_0000;

impl Float32 {
    pub open spec fn spec_one() -> Float32 {
        Float32 { bits: ONE_BITS }
    }

    pub open spec fn spec_zero() -> Float32 {
        Float32 { bits: 0 }
    }

    /// 1.0
    #[verifier::when_used_as_spec(spec_one)]
    pub fn one() -> (value: Float32)
        ensures
            value == Float32::spec_one(),
    {
        Float32 { bits: ONE_BITS }
    }

    /// 0.0
    #[verifier::when_used_as_spec(spec_zero)]
    pub fn zero() -> (value: Float32)
        ensures
            value == Float32::spec_zero(),
    {
        Float32 { bits: 0 }
    }
}

/// Whether a text is made of decimal digits, at least one.
pub open spec fn is_decimal(text: Seq<char>) -> bool {
    text.len() > 0 && forall|i: int| 0 <= i < text.len() ==> '0' <= #[trigger] text[i] <= '9'
}

/// The number that decimal digits denote.
pub open spec fn decimal_value(digits: Seq<char>) -> nat
    decreases digits.len(),
{
    if digits.len() == 0 {
        0
    } else {
        10 * decimal_value(digits.drop_last()) + (digits.last() as nat - '0' as nat) as nat
    }
}

/// A text without the plus sign that it may start with.
pub open spec fn without_plus(text: Seq<char>) -> Seq<char> {
    if text.len() > 0 && text[0] == '+' {
        text.drop_first()
    } else {
        text
    }
}

/// The number that a text denotes: decimal digits, after a plus sign or not, that do not
/// exceed the machine limit.
pub open spec fn parsed_u64(text: Seq<char>) -> Option<u64> {
    let digits = without_plus(text);
    if is_decimal(digits) && decimal_value(digits) <= u64::MAX {
        Some(decimal_value(digits) as u64)
    } else {
        None
    }
}

/// The number that a text denotes.
pub fn parse_u64(text: &str) -> (number: Option<u64>)
    ensures
        number == parsed_u64(text@),
{
    let length: usize = text.unicode_len();
    let start: usize = if length > 0 && text.get_char(0) == '+' {
        1
    } else {
        0
    };
    let ghost digits = without_plus(text@);
    if start == length {
        return None;
    }
    let mut value: u64 = 0;
    let mut over = false;
    for i in start..length
        invariant
            start <= 1,
            length == text@.len(),
            digits == without_plus(text@),
            digits.len() == length - start,
            forall|k: int| 0 <= k < digits.len() ==> digits[k] == text@[k + start],
            forall|k: int| 0 <= k < i - start ==> '0' <= #[trigger] digits[k] <= '9',
            !over ==> value == decimal_value(digits.take(i - start)),
            over ==> decimal_value(digits.take(i - start)) > u64::MAX,
    {
        let c = text.get_char(i);
        assert(digits[i - start] == c);
        if c < '0' || c > '9' {
            assert(!is_decimal(digits));
            return None;
        }
        let digit: u64 = c as u64 - '0' as u64;
        let ghost upto = digits.take(i + 1 - start);
        proof {
            assert(upto.drop_last() =~= digits.take(i - start));
            assert(upto.last() == c);
        }
        if over || value > 1_844_674_407_370_955_161 || (value == 1_844_674_407_370_955_161
            && digit > 5) {
            over = true;
        } else {
            value = value * 10 + digit;
        }
    }
    assert(digits.take(length - start) =~= digits);
    if over {
        None
    } else {
        Some(value)
    }
}

} // verus!
