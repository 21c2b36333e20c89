//! Directives: dated statements about accounts, balances and transactions.
use vstd::prelude::*;
use crate::account::{Account, AccountView};
use crate::amount::{AmountWithTolerance, AmountWithToleranceView, PostingAmount, PostingAmountView};
use crate::commodity::{
    Commodity, canonical_order, commodity_views, strictly_ascending,
};
use crate::date::Date;
use crate::text::is_white_space;

verus! {

/// A transaction's or posting's mark: `*` complete, `!` incomplete, or any
/// other character that is not white space.
#[derive(Debug, Clone, Copy, PartialEq, Eq, PartialOrd, Ord, Hash, Structural)]
pub enum Flag {
    Complete,
    Incomplete,
    Other(char),
}

/// The character a flag is written as.
pub open spec fn flag_char(f: Flag) -> char {
    match f {
        Flag::Complete => '*',
        Flag::Incomplete => '!',
        Flag::Other(c) => c,
    }
}

/// The flag written as `c`.
pub open spec fn flag_of(c: char) -> Flag {
    if c == '*' {
        Flag::Complete
    } else if c == '!' {
        Flag::Incomplete
    } else {
        Flag::Other(c)
    }
}

/// A flag in its one representation, written as a character that is not
/// white space.
pub open spec fn valid_flag(f: Flag) -> bool {
    flag_of(flag_char(f)) == f && !is_white_space(flag_char(f))
}

impl Flag {
    /// The flag `*`.
    pub const ASTERISK: Flag = Flag::Complete;

    /// The flag `!`.
    pub const EXCLAMATION: Flag = Flag::Incomplete;

    /// The flag `&`.
    pub fn ampersand() -> (r: Flag)
        ensures
            r == Flag::Other('&'),
    {
        Flag::Other('&')
    }

    /// The flag `#`.
    pub fn hash() -> (r: Flag)
        ensures
            r == Flag::Other('#'),
    {
        Flag::Other('#')
    }

    /// The flag `?`.
    pub fn question() -> (r: Flag)
        ensures
            r == Flag::Other('?'),
    {
        Flag::Other('?')
    }

    /// The flag `%`.
    pub fn percent() -> (r: Flag)
        ensures
            r == Flag::Other('%'),
    {
        Flag::Other('%')
    }

    pub fn new(flag: char) -> (r: Flag)
        requires
            !is_white_space(flag),
        ensures
            r == flag_of(flag),
            flag_char(r) == flag,
            valid_flag(r),
    {
        if flag == '*' {
            Flag::Complete
        } else if flag == '!' {
            Flag::Incomplete
        } else {
            Flag::Other(flag)
        }
    }

    pub fn as_char(&self) -> (r: char)
        ensures
            r == flag_char(*self),
    {
        match self {
            Flag::Complete => '*',
            Flag::Incomplete => '!',
            Flag::Other(c) => *c,
        }
    }
}

/// What a description is: a narration and perhaps a payee.
pub struct TransactionDescriptionView {
    pub narration: Seq<char>,
    pub payee: Option<Seq<char>>,
}

/// A transaction's narration, and optionally its payee. A payee never comes
/// without a narration.
#[derive(Debug, Clone, PartialEq, Eq, PartialOrd, Ord, Hash)]
pub struct TransactionDescription {
    narration: String,
    payee: Option<String>,
}

impl View for TransactionDescription {
    type V = TransactionDescriptionView;

    closed spec fn view(&self) -> TransactionDescriptionView {
        TransactionDescriptionView {
            narration: self.narration@,
            payee: match self.payee {
                Some(p) => Some(p@),
                None => None,
            },
        }
    }
}

impl TransactionDescription {
    pub fn new(payee: Option<&str>, narration: &str) -> (r: TransactionDescription)
        ensures
            r@.narration == narration@,
            r@.payee == (match payee {
                Some(p) => Some(p@),
                None => None::<Seq<char>>,
            }),
    {
        let payee = match payee {
            Some(p) => Some(p.to_owned()),
            None => None,
        };
        TransactionDescription { narration: narration.to_owned(), payee }
    }

    /// A description with a narration only.
    pub fn new_without_payee(narration: &str) -> (r: TransactionDescription)
        ensures
            r@ == (TransactionDescriptionView { narration: narration@, payee: None }),
    {
        TransactionDescription { narration: narration.to_owned(), payee: None }
    }

    /// A description with a payee and a narration.
    pub fn new_with_payee(payee: &str, narration: &str) -> (r: TransactionDescription)
        ensures
            r@ == (TransactionDescriptionView { narration: narration@, payee: Some(payee@) }),
    {
        TransactionDescription { narration: narration.to_owned(), payee: Some(payee.to_owned()) }
    }

    /// The same narration, with `payee` as payee.
    pub fn with_payee(self, payee: &str) -> (r: TransactionDescription)
        ensures
            r@ == (TransactionDescriptionView { narration: self@.narration, payee: Some(payee@) }),
    {
        TransactionDescription { narration: self.narration, payee: Some(payee.to_owned()) }
    }

    pub fn narration(&self) -> (r: &str)
        ensures
            r@ == self@.narration,
    {
        self.narration.as_str()
    }

    pub fn payee(&self) -> (r: Option<&str>)
        ensures
            match self@.payee {
                Some(p) => r is Some && r->Some_0@ == p,
                None => r is None,
            },
    {
        match &self.payee {
            Some(p) => Some(p.as_str()),
            None => None,
        }
    }

    pub fn has_payee(&self) -> (r: bool)
        ensures
            r == self@.payee is Some,
    {
        self.payee.is_some()
    }
}

/// What a posting is.
pub struct PostingView {
    pub account: AccountView,
    pub flag: Option<Flag>,
    pub amount: Option<PostingAmountView>,
}

/// One leg of a transaction: an account, an optional flag and an optional
/// amount. Without an amount the posting takes whatever balances the
/// transaction.
#[derive(Debug, Clone, PartialEq, Eq, Hash)]
pub struct Posting {
    account: Account,
    flag: Option<Flag>,
    amount: Option<PostingAmount>,
}

impl View for Posting {
    type V = PostingView;

    closed spec fn view(&self) -> PostingView {
        PostingView {
            account: self.account@,
            flag: self.flag,
            amount: match self.amount {
                Some(a) => Some(a@),
                None => None,
            },
        }
    }
}

impl Posting {
    pub fn new(account: Account, amount: PostingAmount) -> (r: Posting)
        ensures
            r@ == (PostingView { account: account@, flag: None, amount: Some(amount@) }),
    {
        Posting { account, flag: None, amount: Some(amount) }
    }

    pub fn new_without_amount(account: Account) -> (r: Posting)
        ensures
            r@ == (PostingView { account: account@, flag: None, amount: None }),
    {
        Posting { account, flag: None, amount: None }
    }

    pub fn with_flag(self, flag: Flag) -> (r: Posting)
        ensures
            r@ == (PostingView { flag: Some(flag), ..self@ }),
    {
        Posting { flag: Some(flag), ..self }
    }

    pub fn account(&self) -> (r: &Account)
        ensures
            r@ == self@.account,
    {
        &self.account
    }

    pub fn flag(&self) -> (r: Option<Flag>)
        ensures
            r == self@.flag,
    {
        self.flag
    }

    pub fn amount(&self) -> (r: Option<&PostingAmount>)
        ensures
            match self@.amount {
                Some(a) => r is Some && r->Some_0@ == a,
                None => r is None,
            },
    {
        match &self.amount {
            Some(a) => Some(a),
            None => None,
        }
    }

    pub fn has_amount(&self) -> (r: bool)
        ensures
            r == self@.amount is Some,
    {
        self.amount.is_some()
    }

    pub fn has_flag(&self) -> (r: bool)
        ensures
            r == self@.flag is Some,
    {
        self.flag.is_some()
    }
}

/// What an open directive is: the account and its allowed commodities in
/// ascending order.
pub struct DirectiveOpenView {
    pub account: AccountView,
    pub commodities: Seq<Seq<char>>,
}

/// Opens an account, optionally restricting it to a set of commodities. An
/// empty set means no restriction.
#[derive(Debug, Clone, PartialEq, Eq)]
pub struct DirectiveOpen {
    account: Account,
    commodity_constraints: Vec<Commodity>,
}

impl View for DirectiveOpen {
    type V = DirectiveOpenView;

    closed spec fn view(&self) -> DirectiveOpenView {
        DirectiveOpenView {
            account: self.account@,
            commodities: commodity_views(self.commodity_constraints@),
        }
    }
}

impl DirectiveOpen {
    /// Keeps each commodity once, in ascending order.
    pub fn new(account: Account, commodity_constraints: Vec<Commodity>) -> (r: DirectiveOpen)
        ensures
            r@.account == account@,
            r@.commodities == canonical_order(commodity_views(commodity_constraints@)),
            strictly_ascending(r@.commodities),
            r@.commodities.to_set() == commodity_views(commodity_constraints@).to_set(),
    {
        let sorted = crate::commodity::sorted_unique(commodity_constraints);
        DirectiveOpen { account, commodity_constraints: sorted }
    }

    pub fn account(&self) -> (r: &Account)
        ensures
            r@ == self@.account,
    {
        &self.account
    }

    /// The commodities, in ascending order.
    pub fn commodity_constraints(&self) -> (r: &[Commodity])
        ensures
            commodity_views(r@) == self@.commodities,
    {
        self.commodity_constraints.as_slice()
    }
}

/// What a balance directive is.
pub struct DirectiveBalanceView {
    pub account: AccountView,
    pub amount: AmountWithToleranceView,
}

/// Asserts that an account holds an amount, within a tolerance.
#[derive(Debug, Clone, PartialEq, Eq)]
pub struct DirectiveBalance {
    account: Account,
    amount_with_tolerance: AmountWithTolerance,
}

impl View for DirectiveBalance {
    type V = DirectiveBalanceView;

    closed spec fn view(&self) -> DirectiveBalanceView {
        DirectiveBalanceView { account: self.account@, amount: self.amount_with_tolerance@ }
    }
}

impl DirectiveBalance {
    pub fn new(account: Account, amount_with_tolerance: AmountWithTolerance) -> (r:
        DirectiveBalance)
        ensures
            r@ == (DirectiveBalanceView { account: account@, amount: amount_with_tolerance@ }),
    {
        DirectiveBalance { account, amount_with_tolerance }
    }

    pub fn account(&self) -> (r: &Account)
        ensures
            r@ == self@.account,
    {
        &self.account
    }

    pub fn amount_with_tolerance(&self) -> (r: &AmountWithTolerance)
        ensures
            r@ == self@.amount,
    {
        &self.amount_with_tolerance
    }
}

/// What a transaction is.
pub struct DirectiveTransactionView {
    pub flag: Flag,
    pub description: Option<TransactionDescriptionView>,
    pub postings: Seq<PostingView>,
}

pub open spec fn posting_views(ps: Seq<Posting>) -> Seq<PostingView> {
    ps.map_values(|p: Posting| p@)
}

/// A flagged transaction with an optional description and its postings, in
/// the order they were given.
#[derive(Debug, Clone, PartialEq, Eq, Hash)]
pub struct DirectiveTransaction {
    flag: Flag,
    description: Option<TransactionDescription>,
    postings: Vec<Posting>,
}

impl View for DirectiveTransaction {
    type V = DirectiveTransactionView;

    closed spec fn view(&self) -> DirectiveTransactionView {
        DirectiveTransactionView {
            flag: self.flag,
            description: match self.description {
                Some(d) => Some(d@),
                None => None,
            },
            postings: posting_views(self.postings@),
        }
    }
}

impl DirectiveTransaction {
    pub fn new(flag: Flag) -> (r: DirectiveTransaction)
        ensures
            r@ == (DirectiveTransactionView { flag, description: None, postings: Seq::empty() }),
    {
        let r = DirectiveTransaction { flag, description: None, postings: Vec::new() };
        assert(posting_views(r.postings@) =~= Seq::<PostingView>::empty());
        r
    }

    pub fn new_with_description(flag: Flag, description: TransactionDescription) -> (r:
        DirectiveTransaction)
        ensures
            r@ == (DirectiveTransactionView {
                flag,
                description: Some(description@),
                postings: Seq::empty(),
            }),
    {
        let r = DirectiveTransaction { flag, description: Some(description), postings: Vec::new() };
        assert(posting_views(r.postings@) =~= Seq::<PostingView>::empty());
        r
    }

    pub fn flag(&self) -> (r: &Flag)
        ensures
            *r == self@.flag,
    {
        &self.flag
    }

    pub fn description(&self) -> (r: Option<&TransactionDescription>)
        ensures
            match self@.description {
                Some(d) => r is Some && r->Some_0@ == d,
                None => r is None,
            },
    {
        match &self.description {
            Some(d) => Some(d),
            None => None,
        }
    }

    pub fn postings(&self) -> (r: &[Posting])
        ensures
            posting_views(r@) == self@.postings,
    {
        self.postings.as_slice()
    }

    pub fn add_posting(&mut self, posting: Posting)
        ensures
            final(self)@ == (DirectiveTransactionView {
                postings: old(self)@.postings.push(posting@),
                ..old(self)@
            }),
    {
        self.postings.push(posting);
        assert(posting_views(self.postings@) =~= posting_views(old(self).postings@).push(
            posting@,
        ));
    }

    pub fn with_posting(self, posting: Posting) -> (r: DirectiveTransaction)
        ensures
            r@ == (DirectiveTransactionView { postings: self@.postings.push(posting@), ..self@ }),
    {
        let mut this = self;
        this.add_posting(posting);
        this
    }

    pub fn with_postings(self, postings: Vec<Posting>) -> (r: DirectiveTransaction)
        ensures
            r@ == (DirectiveTransactionView { postings: posting_views(postings@), ..self@ }),
    {
        DirectiveTransaction { postings, ..self }
    }
}

/// What a directive's content is.
pub enum DirectiveVariantView {
    Open(DirectiveOpenView),
    Balance(DirectiveBalanceView),
    Transaction(DirectiveTransactionView),
}

/// The statement a directive makes.
#[derive(Debug, Clone, PartialEq, Eq)]
pub enum DirectiveVariant {
    Open(DirectiveOpen),
    Balance(DirectiveBalance),
    Transaction(DirectiveTransaction),
}

impl View for DirectiveVariant {
    type V = DirectiveVariantView;

    open spec fn view(&self) -> DirectiveVariantView {
        match self {
            DirectiveVariant::Open(o) => DirectiveVariantView::Open(o@),
            DirectiveVariant::Balance(b) => DirectiveVariantView::Balance(b@),
            DirectiveVariant::Transaction(t) => DirectiveVariantView::Transaction(t@),
        }
    }
}

/// What a directive is: its date and content.
pub struct DirectiveView {
    pub date: Date,
    pub content: DirectiveVariantView,
}

/// A dated statement of a ledger.
#[derive(Debug, Clone, PartialEq, Eq)]
pub struct Directive {
    date: Date,
    content: DirectiveVariant,
}

impl View for Directive {
    type V = DirectiveView;

    closed spec fn view(&self) -> DirectiveView {
        DirectiveView { date: self.date, content: self.content@ }
    }
}

impl Directive {
    pub fn new(date: Date, content: DirectiveVariant) -> (r: Directive)
        ensures
            r@ == (DirectiveView { date, content: content@ }),
    {
        Directive { date, content }
    }

    pub fn new_open(date: Date, open: DirectiveOpen) -> (r: Directive)
        ensures
            r@ == (DirectiveView { date, content: DirectiveVariantView::Open(open@) }),
    {
        Directive { date, content: DirectiveVariant::Open(open) }
    }

    pub fn new_balance(date: Date, balance: DirectiveBalance) -> (r: Directive)
        ensures
            r@ == (DirectiveView { date, content: DirectiveVariantView::Balance(balance@) }),
    {
        Directive { date, content: DirectiveVariant::Balance(balance) }
    }

    pub fn new_transaction(date: Date, transaction: DirectiveTransaction) -> (r: Directive)
        ensures
            r@ == (DirectiveView {
                date,
                content: DirectiveVariantView::Transaction(transaction@),
            }),
    {
        Directive { date, content: DirectiveVariant::Transaction(transaction) }
    }

    pub fn date(&self) -> (r: &Date)
        ensures
            *r == self@.date,
    {
        &self.date
    }

    pub fn content(&self) -> (r: &DirectiveVariant)
        ensures
            r@ == self@.content,
    {
        &self.content
    }

    pub fn as_open(&self) -> (r: Option<&DirectiveOpen>)
        ensures
            match self@.content {
                DirectiveVariantView::Open(o) => r is Some && r->Some_0@ == o,
                _ => r is None,
            },
    {
        match &self.content {
            DirectiveVariant::Open(o) => Some(o),
            _ => None,
        }
    }

    pub fn into_open(self) -> (r: Option<DirectiveOpen>)
        ensures
            match self@.content {
                DirectiveVariantView::Open(o) => r is Some && r->Some_0@ == o,
                _ => r is None,
            },
    {
        match self.content {
            DirectiveVariant::Open(o) => Some(o),
            _ => None,
        }
    }

    pub fn as_balance(&self) -> (r: Option<&DirectiveBalance>)
        ensures
            match self@.content {
                DirectiveVariantView::Balance(b) => r is Some && r->Some_0@ == b,
                _ => r is None,
            },
    {
        match &self.content {
            DirectiveVariant::Balance(b) => Some(b),
            _ => None,
        }
    }

    pub fn into_balance(self) -> (r: Option<DirectiveBalance>)
        ensures
            match self@.content {
                DirectiveVariantView::Balance(b) => r is Some && r->Some_0@ == b,
                _ => r is None,
            },
    {
        match self.content {
            DirectiveVariant::Balance(b) => Some(b),
            _ => None,
        }
    }

    pub fn as_transaction(&self) -> (r: Option<&DirectiveTransaction>)
        ensures
            match self@.content {
                DirectiveVariantView::Transaction(t) => r is Some && r->Some_0@ == t,
                _ => r is None,
            },
    {
        match &self.content {
            DirectiveVariant::Transaction(t) => Some(t),
            _ => None,
        }
    }

    pub fn into_transaction(self) -> (r: Option<DirectiveTransaction>)
        ensures
            match self@.content {
                DirectiveVariantView::Transaction(t) => r is Some && r->Some_0@ == t,
                _ => r is None,
            },
    {
        match self.content {
            DirectiveVariant::Transaction(t) => Some(t),
            _ => None,
        }
    }
}

} // verus!
