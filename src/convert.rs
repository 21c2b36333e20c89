//! Building model values from the loose parts that a richer ledger syntax
//! yields, where some combinations have no meaning in this model.
use vstd::prelude::*;
use crate::account::{Account, InvalidAccountComponentError};
use crate::amount::{Amount, AmountView, PostingAmount, PostingAmountView};
use crate::commodity::{Commodity, InvalidCommodityError, commodity_check};
use crate::decimal::Decimal;
use crate::directive::{
    DirectiveTransaction, Flag, Posting, PostingView, TransactionDescription, posting_views,
};

verus! {

/// Why a posting's parts make no posting.
#[derive(Debug, Clone, Copy, PartialEq, Eq, Structural)]
pub enum LimaPostingConversionError {
    CurrencyWithoutAmount,
    AmountWithoutCurrency,
    CostWithoutAmount,
    PriceWithoutAmount,
}

/// Why a transaction's parts make no transaction.
#[derive(Debug, Clone, Copy, PartialEq, Eq, Structural)]
pub enum LimaTransactionConversionError {
    PayeeWithoutNarration,
}

/// Why parts could not be turned into model values.
#[derive(Debug, Clone, Copy, PartialEq, Eq, Structural)]
pub enum LimaConversionError {
    InvalidCommodity(InvalidCommodityError),
    InvalidAccountComponent(InvalidAccountComponentError),
    InvalidPosting(LimaPostingConversionError),
    InvalidTransaction(LimaTransactionConversionError),
}

pub open spec fn opt_view(a: Option<Amount>) -> Option<AmountView> {
    match a {
        Some(x) => Some(x@),
        None => None,
    }
}

/// The outcome of building a posting from an account, a flag, a number, a
/// currency, a cost and a price: a number and a currency make its amount;
/// neither makes a posting without amount, unless a cost or price is given;
/// one without the other is an error.
pub open spec fn posting_parts_result(
    account: Account,
    flag: Option<Flag>,
    number: Option<Decimal>,
    currency: Option<Seq<char>>,
    cost: Option<Amount>,
    price: Option<Amount>,
) -> Result<PostingView, LimaConversionError> {
    match (number, currency) {
        (Some(n), Some(c)) => match commodity_check(c) {
            Err(e) => Err(LimaConversionError::InvalidCommodity(e)),
            Ok(_) => Ok(
                PostingView {
                    account: account@,
                    flag,
                    amount: Some(
                        PostingAmountView {
                            amount: AmountView { number: n, commodity: c },
                            cost: opt_view(cost),
                            price: opt_view(price),
                        },
                    ),
                },
            ),
        },
        (None, None) => if cost is Some {
            Err(LimaConversionError::InvalidPosting(LimaPostingConversionError::CostWithoutAmount))
        } else if price is Some {
            Err(LimaConversionError::InvalidPosting(LimaPostingConversionError::PriceWithoutAmount))
        } else {
            Ok(PostingView { account: account@, flag, amount: None })
        },
        (None, Some(_)) => Err(
            LimaConversionError::InvalidPosting(LimaPostingConversionError::CurrencyWithoutAmount),
        ),
        (Some(_), None) => Err(
            LimaConversionError::InvalidPosting(LimaPostingConversionError::AmountWithoutCurrency),
        ),
    }
}

/// Builds a posting from its parts.
pub fn posting_from_parts(
    account: Account,
    flag: Option<Flag>,
    number: Option<Decimal>,
    currency: Option<&str>,
    cost: Option<Amount>,
    price: Option<Amount>,
) -> (r: Result<Posting, LimaConversionError>)
    ensures
        ({
            let c = match currency {
                Some(c) => Some(c@),
                None => None::<Seq<char>>,
            };
            match posting_parts_result(account, flag, number, c, cost, price) {
                Ok(v) => r is Ok && r->Ok_0@ == v,
                Err(e) => r == Err::<Posting, LimaConversionError>(e),
            }
        }),
{
    let amount = match (number, currency) {
        (Some(n), Some(c)) => {
            let commodity = match Commodity::new(c) {
                Ok(x) => x,
                Err(e) => return Err(LimaConversionError::InvalidCommodity(e)),
            };
            let mut pa = PostingAmount::new(Amount::new(n, commodity));
            match cost {
                Some(x) => {
                    pa = pa.with_cost(x);
                },
                None => {},
            }
            match price {
                Some(x) => {
                    pa = pa.with_price(x);
                },
                None => {},
            }
            Some(pa)
        },
        (None, None) => {
            if cost.is_some() {
                return Err(
                    LimaConversionError::InvalidPosting(
                        LimaPostingConversionError::CostWithoutAmount,
                    ),
                );
            }
            if price.is_some() {
                return Err(
                    LimaConversionError::InvalidPosting(
                        LimaPostingConversionError::PriceWithoutAmount,
                    ),
                );
            }
            None
        },
        (None, Some(_)) => {
            return Err(
                LimaConversionError::InvalidPosting(
                    LimaPostingConversionError::CurrencyWithoutAmount,
                ),
            );
        },
        (Some(_), None) => {
            return Err(
                LimaConversionError::InvalidPosting(
                    LimaPostingConversionError::AmountWithoutCurrency,
                ),
            );
        },
    };
    let posting = match amount {
        Some(pa) => Posting::new(account, pa),
        None => Posting::new_without_amount(account),
    };
    match flag {
        Some(f) => Ok(posting.with_flag(f)),
        None => Ok(posting),
    }
}

/// Builds a transaction's description from an optional payee and an
/// optional narration: none without either, narration only without a payee,
/// and an error for a payee without narration.
pub fn description_from_parts(payee: Option<&str>, narration: Option<&str>) -> (r: Result<
    Option<TransactionDescription>,
    LimaConversionError,
>)
    ensures
        match (payee, narration) {
            (Some(p), Some(n)) => r is Ok && r->Ok_0 is Some && r->Ok_0->Some_0@.payee == Some(p@)
                && r->Ok_0->Some_0@.narration == n@,
            (None, Some(n)) => r is Ok && r->Ok_0 is Some && r->Ok_0->Some_0@.payee is None
                && r->Ok_0->Some_0@.narration == n@,
            (None, None) => r is Ok && r->Ok_0 is None,
            (Some(_), None) => r == Err::<Option<TransactionDescription>, LimaConversionError>(
                LimaConversionError::InvalidTransaction(
                    LimaTransactionConversionError::PayeeWithoutNarration,
                ),
            ),
        },
{
    match (payee, narration) {
        (Some(p), Some(n)) => Ok(Some(TransactionDescription::new_with_payee(p, n))),
        (None, Some(n)) => Ok(Some(TransactionDescription::new_without_payee(n))),
        (None, None) => Ok(None),
        (Some(_), None) => Err(
            LimaConversionError::InvalidTransaction(
                LimaTransactionConversionError::PayeeWithoutNarration,
            ),
        ),
    }
}

/// The error of the first part that failed, if any.
pub open spec fn first_error(ps: Seq<Result<Posting, LimaConversionError>>) -> Option<
    LimaConversionError,
>
    decreases ps.len(),
{
    if ps.len() == 0 {
        None
    } else {
        match ps[0] {
            Err(e) => Some(e),
            Ok(_) => first_error(ps.drop_first()),
        }
    }
}

/// What the postings of parts that all succeeded are, in order.
pub open spec fn ok_views(ps: Seq<Result<Posting, LimaConversionError>>) -> Seq<PostingView> {
    ps.map_values(|r: Result<Posting, LimaConversionError>| r->Ok_0@)
}

/// Builds a transaction from its flag, an optional payee and narration, and
/// its postings as they were converted: a payee without narration fails
/// first, then the first posting that failed; otherwise the transaction
/// holds the postings in their order.
pub fn transaction_from_parts(
    flag: Flag,
    payee: Option<&str>,
    narration: Option<&str>,
    postings: Vec<Result<Posting, LimaConversionError>>,
) -> (r: Result<DirectiveTransaction, LimaConversionError>)
    ensures
        payee is Some && narration is None ==> r == Err::<DirectiveTransaction, _>(
            LimaConversionError::InvalidTransaction(
                LimaTransactionConversionError::PayeeWithoutNarration,
            ),
        ),
        !(payee is Some && narration is None) ==> match first_error(postings@) {
            Some(e) => r == Err::<DirectiveTransaction, _>(e),
            None => r is Ok && r->Ok_0@.flag == flag && r->Ok_0@.postings == ok_views(postings@)
                && match narration {
                Some(n) => r->Ok_0@.description is Some && r->Ok_0@.description->Some_0.narration
                    == n@ && r->Ok_0@.description->Some_0.payee == match payee {
                    Some(p) => Some(p@),
                    None => None::<Seq<char>>,
                },
                None => r->Ok_0@.description is None,
            },
        },
{
    let description = match description_from_parts(payee, narration) {
        Ok(d) => d,
        Err(e) => return Err(e),
    };
    assert(!(payee is Some && narration is None));
    let ghost all = postings@;
    let mut rest = postings;
    let mut out: Vec<Posting> = Vec::new();
    let mut taken: usize = 0;
    let n = rest.len();
    proof {
        assert(all.skip(0) =~= all);
        assert(posting_views(out@) =~= ok_views(all.take(0)));
    }
    while rest.len() > 0
        invariant
            taken + rest.len() == all.len(),
            all.len() == n,
            rest@ == all.skip(taken as int),
            first_error(all) == first_error(rest@),
            posting_views(out@) == ok_views(all.take(taken as int)),
            all == postings@,
            !(payee is Some && narration is None),
            match narration {
                Some(nr) => description is Some && description->Some_0@.narration == nr@
                    && description->Some_0@.payee == match payee {
                    Some(p) => Some(p@),
                    None => None::<Seq<char>>,
                },
                None => description is None,
            },
        decreases rest.len(),
    {
        let ghost before = rest@;
        let item = rest.remove(0);
        proof {
            assert(item == before[0]);
            assert(rest@ =~= before.drop_first());
            assert(all.skip(taken + 1) =~= before.drop_first());
        }
        match item {
            Ok(p) => {
                let ghost prev = out@;
                out.push(p);
                taken += 1;
                proof {
                    assert(all.take(taken as int) =~= all.take(taken - 1).push(before[0]));
                    assert(posting_views(out@) =~= posting_views(prev).push(p@));
                    assert(ok_views(all.take(taken as int)) =~= ok_views(all.take(taken - 1)).push(
                        p@,
                    ));
                }
            },
            Err(e) => {
                assert(first_error(before) == Some(e));
                return Err(e);
            },
        }
    }
    proof {
        assert(all.take(taken as int) =~= all);
    }
    let t = match description {
        Some(d) => DirectiveTransaction::new_with_description(flag, d),
        None => DirectiveTransaction::new(flag),
    };
    Ok(t.with_postings(out))
}

} // verus!
