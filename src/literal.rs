use vstd::prelude::*;

verus! {

/// The value of a sequence of decimal digits read in base 10, most
/// significant digit first. The empty sequence reads as 0.
pub open spec fn digits_value(ds: Seq<u8>) -> int
    decreases ds.len(),
{
    if ds.len() == 0 {
        0
    } else {
        digits_value(ds.drop_last()) * 10 + ds.last() as int
    }
}

/// Every element of `ds` is a decimal digit.
pub open spec fn all_digits(ds: Seq<u8>) -> bool {
    forall|i: int| 0 <= i < ds.len() ==> #[trigger] ds[i] < 10
}

/// The mathematical content of a [`Literal`]: the digits typed, in order,
/// and how many of them stand after the decimal point.
pub struct LiteralView {
    pub digits: Seq<u8>,
    pub scale: nat,
}

impl LiteralView {
    /// Well-formed: at least one digit, all of them decimal, and no more
    /// fractional digits than digits.
    pub open spec fn wf(self) -> bool {
        &&& self.digits.len() > 0
        &&& all_digits(self.digits)
        &&& self.scale <= self.digits.len()
    }

    /// The literal's value is `numerator() / 10^scale`.
    pub open spec fn numerator(self) -> int {
        digits_value(self.digits)
    }

    /// The literal after one more digit: appended to the integer part when
    /// `fractional` is false, else as the next fractional digit.
    pub open spec fn fold(self, d: u8, fractional: bool) -> LiteralView {
        LiteralView {
            digits: self.digits.push(d),
            scale: if fractional { self.scale + 1 } else { self.scale },
        }
    }
}

/// A decimal numeral held exactly: its digits, most significant first, and
/// the number of trailing digits that form the fractional part.
///
/// The value is `digits / 10^scale`; `12` then `.` then `5` yields the
/// digits `[1, 2, 5]` with scale 1, that is 12.5.
#[derive(Clone, Debug, PartialEq, Eq)]
pub struct Literal {
    pub digits: Vec<u8>,
    pub scale: usize,
}

impl View for Literal {
    type V = LiteralView;

    open spec fn view(&self) -> LiteralView {
        LiteralView { digits: self.digits@, scale: self.scale as nat }
    }
}

impl Literal {
    /// A literal of the single digit `d`, with no fractional part.
    pub fn from_digit(d: u8) -> (r: Literal)
        requires
            d < 10,
        ensures
            r@ == (LiteralView { digits: seq![d], scale: 0 }),
            r@.wf(),
    {
        let mut digits: Vec<u8> = Vec::new();
        digits.push(d);
        assert(digits@ == seq![d]);
        Literal { digits, scale: 0 }
    }

    /// Appends the digit `d`, as a fractional digit when `fractional` holds.
    ///
    /// In value terms: `v * 10 + d` for an integer digit, and
    /// `v + d * 10^-(scale + 1)` for a fractional one.
    pub fn fold_digit(&mut self, d: u8, fractional: bool)
        requires
            old(self)@.wf(),
            d < 10,
        ensures
            final(self)@ == old(self)@.fold(d, fractional),
            final(self)@.wf(),
    {
        self.digits.push(d);
        let n: usize = self.digits.len();
        if fractional {
            self.scale = self.scale + 1;
        }
        assert(n == self.digits@.len());
        assert forall|i: int| 0 <= i < self.digits@.len() implies #[trigger] self.digits@[i] < 10 by {
            if i < self.digits@.len() - 1 {
                assert(self.digits@[i] == old(self).digits@[i]);
            }
        }
    }
}

} // verus!
