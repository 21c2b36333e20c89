//! Amounts: a number of some commodity, optionally with a tolerance, a cost
//! or a price.
use vstd::prelude::*;
use crate::commodity::Commodity;
use crate::decimal::Decimal;

verus! {

/// What an amount is: its number and its commodity's code.
pub struct AmountView {
    pub number: Decimal,
    pub commodity: Seq<char>,
}

/// A number of units of one commodity. Amounts order by their number's
/// mantissa and scale, then by commodity: by number where the scales agree.
#[derive(Debug, Clone, PartialEq, Eq, PartialOrd, Ord, Hash)]
pub struct Amount {
    number: Decimal,
    commodity: Commodity,
}

impl View for Amount {
    type V = AmountView;

    closed spec fn view(&self) -> AmountView {
        AmountView { number: self.number, commodity: self.commodity@ }
    }
}

pub open spec fn opt_amount_view(a: Option<Amount>) -> Option<AmountView> {
    match a {
        Some(x) => Some(x@),
        None => None,
    }
}

impl Amount {
    pub fn new(number: Decimal, commodity: Commodity) -> (r: Amount)
        ensures
            r@ == (AmountView { number, commodity: commodity@ }),
    {
        Amount { number, commodity }
    }

    pub fn number(&self) -> (r: &Decimal)
        ensures
            *r == self@.number,
    {
        &self.number
    }

    pub fn commodity(&self) -> (r: &Commodity)
        ensures
            r@ == self@.commodity,
    {
        &self.commodity
    }
}

/// What an amount with a tolerance is.
pub struct AmountWithToleranceView {
    pub amount: AmountView,
    pub tolerance: Option<Decimal>,
}

/// An amount that a balance may miss by up to a non-negative tolerance.
#[derive(Debug, Clone, PartialEq, Eq, PartialOrd, Ord, Hash)]
pub struct AmountWithTolerance {
    amount: Amount,
    tolerance: Option<Decimal>,
}

impl View for AmountWithTolerance {
    type V = AmountWithToleranceView;

    closed spec fn view(&self) -> AmountWithToleranceView {
        AmountWithToleranceView { amount: self.amount@, tolerance: self.tolerance }
    }
}

/// A tolerance, when there is one, is not negative.
pub open spec fn tolerance_ok(t: Option<Decimal>) -> bool {
    t is Some ==> t->Some_0.mantissa >= 0
}

impl AmountWithTolerance {
    pub fn new(amount: Amount, tolerance: Option<Decimal>) -> (r: AmountWithTolerance)
        requires
            tolerance_ok(tolerance),
        ensures
            r@ == (AmountWithToleranceView { amount: amount@, tolerance }),
    {
        AmountWithTolerance { amount, tolerance }
    }

    pub fn without_tolerance(number: Decimal, commodity: Commodity) -> (r: AmountWithTolerance)
        ensures
            r@ == (AmountWithToleranceView {
                amount: AmountView { number, commodity: commodity@ },
                tolerance: None,
            }),
    {
        AmountWithTolerance { amount: Amount::new(number, commodity), tolerance: None }
    }

    pub fn with_tolerance(number: Decimal, tolerance: Decimal, commodity: Commodity) -> (r:
        AmountWithTolerance)
        requires
            tolerance.mantissa >= 0,
        ensures
            r@ == (AmountWithToleranceView {
                amount: AmountView { number, commodity: commodity@ },
                tolerance: Some(tolerance),
            }),
    {
        AmountWithTolerance { amount: Amount::new(number, commodity), tolerance: Some(tolerance) }
    }

    pub fn from_amount(amount: Amount) -> (r: AmountWithTolerance)
        ensures
            r@ == (AmountWithToleranceView { amount: amount@, tolerance: None }),
    {
        AmountWithTolerance { amount, tolerance: None }
    }

    pub fn from_amount_with_tolerance(amount: Amount, tolerance: Decimal) -> (r:
        AmountWithTolerance)
        requires
            tolerance.mantissa >= 0,
        ensures
            r@ == (AmountWithToleranceView { amount: amount@, tolerance: Some(tolerance) }),
    {
        AmountWithTolerance { amount, tolerance: Some(tolerance) }
    }

    pub fn number(&self) -> (r: &Decimal)
        ensures
            *r == self@.amount.number,
    {
        self.amount.number()
    }

    pub fn tolerance(&self) -> (r: Option<&Decimal>)
        ensures
            match self@.tolerance {
                Some(t) => r is Some && *r->Some_0 == t,
                None => r is None,
            },
    {
        match &self.tolerance {
            Some(t) => Some(t),
            None => None,
        }
    }

    pub fn commodity(&self) -> (r: &Commodity)
        ensures
            r@ == self@.amount.commodity,
    {
        self.amount.commodity()
    }

    pub fn amount(&self) -> (r: &Amount)
        ensures
            r@ == self@.amount,
    {
        &self.amount
    }
}

/// What a posting's amount is.
pub struct PostingAmountView {
    pub amount: AmountView,
    pub cost: Option<AmountView>,
    pub price: Option<AmountView>,
}

/// An amount, optionally with the cost it was acquired at and the price it
/// converts at.
#[derive(Debug, Clone, PartialEq, Eq, PartialOrd, Ord, Hash)]
pub struct PostingAmount {
    amount: Amount,
    cost: Option<Amount>,
    price: Option<Amount>,
}

impl View for PostingAmount {
    type V = PostingAmountView;

    closed spec fn view(&self) -> PostingAmountView {
        PostingAmountView {
            amount: self.amount@,
            cost: opt_amount_view(self.cost),
            price: opt_amount_view(self.price),
        }
    }
}

impl PostingAmount {
    pub fn new(amount: Amount) -> (r: PostingAmount)
        ensures
            r@ == (PostingAmountView { amount: amount@, cost: None, price: None }),
    {
        PostingAmount { amount, cost: None, price: None }
    }

    pub fn with_cost(self, cost: Amount) -> (r: PostingAmount)
        ensures
            r@ == (PostingAmountView { cost: Some(cost@), ..self@ }),
    {
        PostingAmount { cost: Some(cost), ..self }
    }

    pub fn with_price(self, price: Amount) -> (r: PostingAmount)
        ensures
            r@ == (PostingAmountView { price: Some(price@), ..self@ }),
    {
        PostingAmount { price: Some(price), ..self }
    }

    pub fn amount(&self) -> (r: &Amount)
        ensures
            r@ == self@.amount,
    {
        &self.amount
    }

    pub fn cost(&self) -> (r: Option<&Amount>)
        ensures
            match self@.cost {
                Some(v) => r is Some && r->Some_0@ == v,
                None => r is None,
            },
    {
        match &self.cost {
            Some(a) => Some(a),
            None => None,
        }
    }

    pub fn price(&self) -> (r: Option<&Amount>)
        ensures
            match self@.price {
                Some(v) => r is Some && r->Some_0@ == v,
                None => r is None,
            },
    {
        match &self.price {
            Some(a) => Some(a),
            None => None,
        }
    }

    pub fn has_cost(&self) -> (r: bool)
        ensures
            r == self@.cost is Some,
    {
        self.cost.is_some()
    }

    pub fn has_price(&self) -> (r: bool)
        ensures
            r == self@.price is Some,
    {
        self.price.is_some()
    }
}

} // verus!
