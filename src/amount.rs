use vstd::prelude::*;
use vstd::std_specs::ops::{AddSpec, SubSpec};
use crate::currency::Currency;

verus! {

/// A count of minor units of a currency; the value in major units is
/// `quantity / minor_ratio`. The currency is borrowed, not owned.
#[derive(Debug, Clone)]
pub struct Amount<'a> {
    pub currency: &'a Currency,
    pub quantity: i64,
}

/// Whether an integer fits in an `i64`.
pub open spec fn fits_i64(x: int) -> bool {
    i64::MIN <= x <= i64::MAX
}

impl<'a> Amount<'a> {
    /// Binds `quantity` minor units to `currency`.
    pub fn of(currency: &'a Currency, quantity: i64) -> (r: Amount<'a>)
        ensures
            r.currency == currency,
            r.quantity == quantity,
    {
        Amount { currency: currency, quantity: quantity }
    }

    /// Whether two amounts are in the same currency (equal in every field).
    pub open spec fn same_currency(self, o: Amount<'a>) -> bool {
        self.currency.same_as(o.currency)
    }
}

impl<'a> vstd::std_specs::ops::AddSpecImpl for Amount<'a> {
    open spec fn obeys_add_spec() -> bool {
        true
    }

    /// In one currency the sum must fit in an `i64`.
    open spec fn add_req(self, rhs: Amount<'a>) -> bool {
        self.same_currency(rhs) ==> fits_i64(self.quantity + rhs.quantity)
    }

    /// In one currency the quantities add up; otherwise the left amount is
    /// kept and the right one ignored.
    open spec fn add_spec(self, rhs: Amount<'a>) -> Amount<'a> {
        if self.same_currency(rhs) {
            Amount { currency: self.currency, quantity: (self.quantity + rhs.quantity) as i64 }
        } else {
            self
        }
    }
}

/// `a + b`: the quantities added when both amounts are in the same currency;
/// `a` unchanged otherwise (no failure is signalled for a mismatch). A sum
/// outside `i64` is excluded by the precondition, not wrapped or saturated.
impl<'a> std::ops::Add for Amount<'a> {
    type Output = Amount<'a>;

    fn add(self, rhs: Amount<'a>) -> (r: Amount<'a>) {
        if *rhs.currency == *self.currency {
            Amount { currency: self.currency, quantity: self.quantity + rhs.quantity }
        } else {
            self
        }
    }
}

impl<'a> vstd::std_specs::ops::SubSpecImpl for Amount<'a> {
    open spec fn obeys_sub_spec() -> bool {
        true
    }

    /// In one currency the difference must fit in an `i64`.
    open spec fn sub_req(self, rhs: Amount<'a>) -> bool {
        self.same_currency(rhs) ==> fits_i64(self.quantity - rhs.quantity)
    }

    /// In one currency the quantities are subtracted; otherwise the left
    /// amount is kept and the right one ignored.
    open spec fn sub_spec(self, rhs: Amount<'a>) -> Amount<'a> {
        if self.same_currency(rhs) {
            Amount { currency: self.currency, quantity: (self.quantity - rhs.quantity) as i64 }
        } else {
            self
        }
    }
}

/// `a - b`: the quantities subtracted when both amounts are in the same
/// currency; `a` unchanged otherwise. A difference outside `i64` is excluded
/// by the precondition.
impl<'a> std::ops::Sub for Amount<'a> {
    type Output = Amount<'a>;

    fn sub(self, rhs: Amount<'a>) -> (r: Amount<'a>) {
        if *rhs.currency == *self.currency {
            Amount { currency: self.currency, quantity: self.quantity - rhs.quantity }
        } else {
            self
        }
    }
}

/// Amounts of one currency add and subtract by their quantities, and the
/// result stays in that currency.
pub proof fn lemma_add_sub_same_currency<'a>(a: Amount<'a>, b: Amount<'a>)
    requires
        a.same_currency(b),
    ensures
        fits_i64(a.quantity + b.quantity) ==> a.add_spec(b).quantity == a.quantity + b.quantity,
        fits_i64(a.quantity - b.quantity) ==> a.sub_spec(b).quantity == a.quantity - b.quantity,
        a.add_spec(b).currency == a.currency,
        a.sub_spec(b).currency == a.currency,
{
}

/// Adding or subtracting an amount of another currency leaves the left
/// amount as it was.
pub proof fn lemma_add_sub_other_currency<'a>(a: Amount<'a>, b: Amount<'a>)
    requires
        !a.same_currency(b),
    ensures
        a.add_spec(b) == a,
        a.sub_spec(b) == a,
        a.add_spec(b).quantity == a.quantity,
        a.sub_spec(b).quantity == a.quantity,
{
}

} // verus!
