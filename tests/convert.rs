use beancount_rs::account::{Account, AccountType};
use beancount_rs::amount::Amount;
use beancount_rs::commodity::{Commodity, InvalidCommodityError};
use beancount_rs::convert::{
    description_from_parts, posting_from_parts, transaction_from_parts, LimaConversionError, LimaPostingConversionError,
    LimaTransactionConversionError,
};
use beancount_rs::decimal::Decimal;
use beancount_rs::directive::Flag;

fn cash() -> Account {
    Account::new(AccountType::Assets, &["Cash"]).unwrap()
}

fn usd(m: i64) -> Amount {
    Amount::new(Decimal::new(m, 2), Commodity::new("USD").unwrap())
}

#[test]
fn posting_with_amount_cost_and_price() {
    let p = posting_from_parts(
        cash(),
        Some(Flag::Incomplete),
        Some(Decimal::new(10, 0)),
        Some("STOCK"),
        Some(usd(5000)),
        Some(usd(5500)),
    )
    .unwrap();
    assert_eq!(p.flag(), Some(Flag::Incomplete));
    let a = p.amount().unwrap();
    assert_eq!(a.amount().commodity().as_str(), "STOCK");
    assert_eq!(a.cost(), Some(&usd(5000)));
    assert_eq!(a.price(), Some(&usd(5500)));
}

#[test]
fn posting_without_amount() {
    let p = posting_from_parts(cash(), None, None, None, None, None).unwrap();
    assert!(!p.has_amount());
    assert!(!p.has_flag());
}

#[test]
fn posting_conversion_errors() {
    let e = |n: Option<Decimal>, c: Option<&str>, cost: Option<Amount>, price: Option<Amount>| {
        posting_from_parts(cash(), None, n, c, cost, price).unwrap_err()
    };
    assert_eq!(
        e(None, Some("USD"), None, None),
        LimaConversionError::InvalidPosting(LimaPostingConversionError::CurrencyWithoutAmount)
    );
    assert_eq!(
        e(Some(Decimal::new(1, 0)), None, None, None),
        LimaConversionError::InvalidPosting(LimaPostingConversionError::AmountWithoutCurrency)
    );
    assert_eq!(
        e(None, None, Some(usd(1)), None),
        LimaConversionError::InvalidPosting(LimaPostingConversionError::CostWithoutAmount)
    );
    assert_eq!(
        e(None, None, None, Some(usd(1))),
        LimaConversionError::InvalidPosting(LimaPostingConversionError::PriceWithoutAmount)
    );
    assert_eq!(
        e(Some(Decimal::new(1, 0)), Some("usd"), None, None),
        LimaConversionError::InvalidCommodity(InvalidCommodityError::InvalidStart)
    );
}

#[test]
fn description_conversions() {
    let d = description_from_parts(Some("Shop"), Some("Bread")).unwrap().unwrap();
    assert_eq!(d.payee(), Some("Shop"));
    assert_eq!(d.narration(), "Bread");
    let d = description_from_parts(None, Some("Bread")).unwrap().unwrap();
    assert_eq!(d.payee(), None);
    assert!(description_from_parts(None, None).unwrap().is_none());
    assert_eq!(
        description_from_parts(Some("Shop"), None).unwrap_err(),
        LimaConversionError::InvalidTransaction(LimaTransactionConversionError::PayeeWithoutNarration)
    );
}

#[test]
fn transaction_conversions() {
    let p1 = posting_from_parts(cash(), None, Some(Decimal::new(-5, 0)), Some("USD"), None, None);
    let p2 = posting_from_parts(cash(), None, None, None, None, None);
    let t = transaction_from_parts(Flag::Complete, Some("Shop"), Some("Bread"), vec![p1.clone(), p2.clone()])
        .unwrap();
    assert_eq!(t.postings().len(), 2);
    assert_eq!(&t.postings()[0], p1.as_ref().unwrap());
    assert_eq!(&t.postings()[1], p2.as_ref().unwrap());
    assert_eq!(t.description().unwrap().payee(), Some("Shop"));
    let bad1 = posting_from_parts(cash(), None, None, Some("USD"), None, None);
    let bad2 = posting_from_parts(cash(), None, Some(Decimal::new(1, 0)), None, None, None);
    assert_eq!(
        transaction_from_parts(Flag::Complete, None, None, vec![p1.clone(), bad1, bad2.clone()]).unwrap_err(),
        LimaConversionError::InvalidPosting(LimaPostingConversionError::CurrencyWithoutAmount)
    );
    assert_eq!(
        transaction_from_parts(Flag::Complete, Some("Shop"), None, vec![bad2]).unwrap_err(),
        LimaConversionError::InvalidTransaction(LimaTransactionConversionError::PayeeWithoutNarration)
    );
    let t = transaction_from_parts(Flag::Incomplete, None, None, vec![]).unwrap();
    assert!(t.description().is_none());
    assert!(t.postings().is_empty());
}
