//! Decimal numerals as they are typed: a sign, a run of digits and the number of
//! digits that stand after the decimal point.

use vstd::prelude::*;

verus! {

/// A decimal numeral. Its value is `±(digits read in base 10) / 10^scale`.
#[derive(Clone, Debug, PartialEq, Eq)]
pub struct Decimal {
    pub negative: bool,
    pub digits: Vec<u8>,
    pub scale: usize,
}

/// The mathematical content of a [`Decimal`].
pub struct DecimalView {
    pub negative: bool,
    pub digits: Seq<u8>,
    pub scale: nat,
}

impl View for Decimal {
    type V = DecimalView;

    open spec fn view(&self) -> DecimalView {
        DecimalView { negative: self.negative, digits: self.digits@, scale: self.scale as nat }
    }
}

/// The natural number that a run of decimal digits denotes.
pub open spec fn digits_value(digits: Seq<u8>) -> nat
    decreases digits.len(),
{
    if digits.len() == 0 {
        0
    } else {
        digits_value(digits.drop_last()) * 10 + digits.last() as nat
    }
}

/// Every entry is a decimal digit.
pub open spec fn all_digits(digits: Seq<u8>) -> bool {
    forall|i: int| 0 <= i < digits.len() ==> #[trigger] digits[i] < 10
}

/// Every entry is the digit zero.
pub open spec fn all_zero(digits: Seq<u8>) -> bool {
    forall|i: int| 0 <= i < digits.len() ==> #[trigger] digits[i] == 0
}

impl DecimalView {
    /// A well-formed numeral: digits only, at least one of them, and no more
    /// fractional digits than digits.
    pub open spec fn wf(self) -> bool {
        &&& all_digits(self.digits)
        &&& self.digits.len() > 0
        &&& self.scale <= self.digits.len()
    }

    /// The numeral denotes zero (of either sign).
    pub open spec fn is_zero(self) -> bool {
        all_zero(self.digits)
    }

    /// The numerator of the numeral's value over `10^scale`.
    pub open spec fn numerator(self) -> int {
        if self.negative {
            -(digits_value(self.digits) as int)
        } else {
            digits_value(self.digits) as int
        }
    }
}

/// A run of zeros denotes zero, and a run that denotes zero holds only zeros.
pub proof fn lemma_zero_digits(digits: Seq<u8>)
    requires
        all_digits(digits),
    ensures
        all_zero(digits) <==> digits_value(digits) == 0,
    decreases digits.len(),
{
    if digits.len() > 0 {
        let init = digits.drop_last();
        assert(all_digits(init));
        lemma_zero_digits(init);
        if all_zero(digits) {
            assert(all_zero(init));
            assert(digits[digits.len() - 1] == 0);
        }
        if digits_value(digits) == 0 {
            assert(digits_value(init) == 0);
            assert forall|i: int| 0 <= i < digits.len() implies #[trigger] digits[i] == 0 by {
                if i < digits.len() - 1 {
                    assert(init[i] == digits[i]);
                }
            }
        }
    }
}

impl Decimal {
    /// Whether the numeral denotes zero.
    pub fn is_zero(&self) -> (res: bool)
        ensures
            res == self@.is_zero(),
    {
        let mut i: usize = 0;
        while i < self.digits.len()
            invariant
                i <= self.digits.len(),
                forall|j: int| 0 <= j < i ==> self.digits@[j] == 0,
            decreases self.digits.len() - i,
        {
            if self.digits[i] != 0 {
                return false;
            }
            i = i + 1;
        }
        true
    }

    /// A copy of the numeral.
    pub fn duplicate(&self) -> (res: Decimal)
        ensures
            res@ == self@,
    {
        let mut digits: Vec<u8> = Vec::new();
        let mut i: usize = 0;
        while i < self.digits.len()
            invariant
                i <= self.digits.len(),
                digits@ == self.digits@.take(i as int),
            decreases self.digits.len() - i,
        {
            digits.push(self.digits[i]);
            i = i + 1;
            assert(digits@ == self.digits@.take(i as int));
        }
        assert(self.digits@.take(i as int) == self.digits@);
        Decimal { negative: self.negative, digits, scale: self.scale }
    }
}

} // verus!
