//! The directive grammar: one recursive-descent parser per production. Each
//! reads characters from a position and returns the value and the position
//! after it, or an error with the span where it went wrong. Alongside each
//! parser stands a spec function that states exactly what it accepts.
use vstd::prelude::*;
use crate::account::{
    Account, AccountComponent, AccountType, AccountView, InvalidAccountComponentError,
    check_component, component_check, component_views, is_valid_component,
};
use crate::commodity::{Commodity, InvalidCommodityError, commodity_check, is_valid_commodity};
use crate::date::{Date, is_calendar_date};
use crate::decimal::{
    Decimal, MAX_DIGITS, all_digits, decimal_from_digits, digit_value, digits_value, is_digit,
    pow10,
};
use crate::amount::{
    Amount, AmountView, AmountWithTolerance, AmountWithToleranceView, PostingAmount,
    PostingAmountView,
};
use crate::commodity::{canonical_order, commodity_views};
use crate::directive::{
    Directive, DirectiveBalance, DirectiveBalanceView, DirectiveOpen, DirectiveOpenView,
    DirectiveTransaction, DirectiveTransactionView, DirectiveVariant, DirectiveVariantView,
    DirectiveView, Flag, Posting, PostingView, TransactionDescription,
    TransactionDescriptionView, flag_of, posting_views,
};
use crate::text::{char_is_whitespace, is_white_space, string_of};

verus! {

/// What the grammar expected where it failed.
#[derive(Debug, Clone, Copy, PartialEq, Eq, Structural)]
pub enum Expected {
    FourDigitYear,
    TwoDigitMonth,
    TwoDigitDay,
    DateSeparator,
    Digit,
    Whitespace,
    Flag,
    Symbol(char),
    Keyword,
    Directive,
    EndOfInput,
}

/// Why a parse failed.
#[derive(Debug, Clone, Copy, PartialEq, Eq, Structural)]
pub enum ParseErrorKind {
    Expected(Expected),
    InvalidAccountComponent(InvalidAccountComponentError),
    UnknownAccountType,
    InvalidCommodity(InvalidCommodityError),
    InvalidDecimal,
    InvalidDate,
    InvalidEscape,
    UnterminatedString,
}

/// A failed parse: what went wrong and the character span where it did.
#[derive(Debug, Clone, Copy, PartialEq, Eq, Structural)]
pub struct ParseError {
    pub start: usize,
    pub end: usize,
    pub kind: ParseErrorKind,
}

/// The words that describe each kind of error. For an invalid date they
/// follow the date's own text.
pub open spec fn kind_text(k: ParseErrorKind) -> Seq<char> {
    match k {
        ParseErrorKind::Expected(Expected::FourDigitYear) => "expected a four digit year"@,
        ParseErrorKind::Expected(Expected::TwoDigitMonth) => "expected a two digit month"@,
        ParseErrorKind::Expected(Expected::TwoDigitDay) => "expected a two digit day"@,
        ParseErrorKind::Expected(Expected::DateSeparator) => "expected '-' or '/'"@,
        ParseErrorKind::Expected(Expected::Digit) => "expected a digit"@,
        ParseErrorKind::Expected(Expected::Whitespace) => "expected a space or a tab"@,
        ParseErrorKind::Expected(Expected::Flag) => "expected a flag"@,
        ParseErrorKind::Expected(Expected::Symbol(_)) => "expected another character"@,
        ParseErrorKind::Expected(Expected::Keyword) => "expected a keyword"@,
        ParseErrorKind::Expected(Expected::Directive) => "expected a directive"@,
        ParseErrorKind::Expected(Expected::EndOfInput) => "expected the end of the input"@,
        ParseErrorKind::InvalidAccountComponent(InvalidAccountComponentError::Empty) => "Account component cannot be empty"@,
        ParseErrorKind::InvalidAccountComponent(InvalidAccountComponentError::InvalidStart) => "Account component must start with an uppercase letter or a number"@,
        ParseErrorKind::InvalidAccountComponent(InvalidAccountComponentError::InvalidCharacter) => "Account component can only contain letters, numbers or dashes"@,
        ParseErrorKind::UnknownAccountType => "Expected Assets, Liabilities, Income, Expenses or Equity"@,
        ParseErrorKind::InvalidCommodity(InvalidCommodityError::Empty) => "Commodity name cannot be empty"@,
        ParseErrorKind::InvalidCommodity(InvalidCommodityError::InvalidStart) => "Commodity name must start with a capital letter"@,
        ParseErrorKind::InvalidCommodity(InvalidCommodityError::InvalidCharacter) => "Commodity name can only contain capital letters, numbers, or punctuation (apostrophe, period, underscore, dash)"@,
        ParseErrorKind::InvalidCommodity(InvalidCommodityError::InvalidEnd) => "Commodity name must end with a capital letter or number"@,
        ParseErrorKind::InvalidCommodity(InvalidCommodityError::TooLong) => "Commodity names can only be up to 24 characters long"@,
        ParseErrorKind::InvalidDecimal => "Invalid decimal number"@,
        ParseErrorKind::InvalidDate => " is not a valid date"@,
        ParseErrorKind::InvalidEscape => "invalid escape"@,
        ParseErrorKind::UnterminatedString => "unterminated string"@,
    }
}

/// The message of an error: for an invalid date, the date as written in
/// `input` followed by ` is not a valid date`; otherwise the kind's words.
pub open spec fn message_text(e: ParseError, input: Seq<char>) -> Seq<char> {
    if e.kind == ParseErrorKind::InvalidDate && e.start <= e.end <= input.len() {
        input.subrange(e.start as int, e.end as int) + kind_text(e.kind)
    } else {
        kind_text(e.kind)
    }
}

fn kind_str(k: ParseErrorKind) -> (r: &'static str)
    ensures
        r@ == kind_text(k),
{
    match k {
            ParseErrorKind::Expected(Expected::FourDigitYear) => "expected a four digit year",
            ParseErrorKind::Expected(Expected::TwoDigitMonth) => "expected a two digit month",
            ParseErrorKind::Expected(Expected::TwoDigitDay) => "expected a two digit day",
            ParseErrorKind::Expected(Expected::DateSeparator) => "expected '-' or '/'",
            ParseErrorKind::Expected(Expected::Digit) => "expected a digit",
            ParseErrorKind::Expected(Expected::Whitespace) => "expected a space or a tab",
            ParseErrorKind::Expected(Expected::Flag) => "expected a flag",
            ParseErrorKind::Expected(Expected::Symbol(_)) => "expected another character",
            ParseErrorKind::Expected(Expected::Keyword) => "expected a keyword",
            ParseErrorKind::Expected(Expected::Directive) => "expected a directive",
            ParseErrorKind::Expected(Expected::EndOfInput) => "expected the end of the input",
            ParseErrorKind::InvalidAccountComponent(InvalidAccountComponentError::Empty) => "Account component cannot be empty",
            ParseErrorKind::InvalidAccountComponent(InvalidAccountComponentError::InvalidStart) => "Account component must start with an uppercase letter or a number",
            ParseErrorKind::InvalidAccountComponent(InvalidAccountComponentError::InvalidCharacter) => "Account component can only contain letters, numbers or dashes",
            ParseErrorKind::UnknownAccountType => "Expected Assets, Liabilities, Income, Expenses or Equity",
            ParseErrorKind::InvalidCommodity(InvalidCommodityError::Empty) => "Commodity name cannot be empty",
            ParseErrorKind::InvalidCommodity(InvalidCommodityError::InvalidStart) => "Commodity name must start with a capital letter",
            ParseErrorKind::InvalidCommodity(InvalidCommodityError::InvalidCharacter) => "Commodity name can only contain capital letters, numbers, or punctuation (apostrophe, period, underscore, dash)",
            ParseErrorKind::InvalidCommodity(InvalidCommodityError::InvalidEnd) => "Commodity name must end with a capital letter or number",
            ParseErrorKind::InvalidCommodity(InvalidCommodityError::TooLong) => "Commodity names can only be up to 24 characters long",
            ParseErrorKind::InvalidDecimal => "Invalid decimal number",
            ParseErrorKind::InvalidDate => " is not a valid date",
            ParseErrorKind::InvalidEscape => "invalid escape",
            ParseErrorKind::UnterminatedString => "unterminated string",
    }
}

impl ParseError {
    /// A sentence saying what went wrong in `input`, the text that was read.
    pub fn message(&self, input: &str) -> (r: String)
        ensures
            r@ == message_text(*self, input@),
    {
        let words = kind_str(self.kind);
        if self.kind == ParseErrorKind::InvalidDate && self.start <= self.end {
            let cs = crate::text::chars_of(input);
            if self.end <= cs.len() {
                let mut out = string_of(&cs, self.start, self.end);
                crate::marshal::append_str(&mut out, words);
                return out;
            }
        }
        words.to_owned()
    }
}

pub(crate) fn err<T>(start: usize, end: usize, kind: ParseErrorKind) -> (r: Result<T, ParseError>)
    ensures
        r is Err,
        r->Err_0 == (ParseError { start, end, kind }),
{
    Err(ParseError { start, end, kind })
}

// ---- white space and tokens ----

/// A space or a tab: what separates the parts of a line.
pub open spec fn is_blank(c: char) -> bool {
    c == ' ' || c == '\t'
}

/// The end of the run of spaces and tabs that starts at `i`.
pub open spec fn ws_end(s: Seq<char>, i: int) -> int
    decreases s.len() - i,
{
    if 0 <= i < s.len() && is_blank(s[i]) {
        ws_end(s, i + 1)
    } else {
        i
    }
}

/// The end of at least one space or tab starting at `i`.
pub open spec fn ws1(s: Seq<char>, i: int) -> Option<int> {
    if ws_end(s, i) > i {
        Some(ws_end(s, i))
    } else {
        None
    }
}

pub proof fn lemma_ws_end_bounds(s: Seq<char>, i: int)
    requires
        0 <= i <= s.len(),
    ensures
        i <= ws_end(s, i) <= s.len(),
        forall|k: int| i <= k < ws_end(s, i) ==> is_blank(#[trigger] s[k]),
        ws_end(s, i) < s.len() ==> !is_blank(s[ws_end(s, i)]),
    decreases s.len() - i,
{
    if i < s.len() && is_blank(s[i]) {
        lemma_ws_end_bounds(s, i + 1);
    }
}

/// Skips spaces and tabs.
pub fn skip_ws(s: &Vec<char>, i: usize) -> (r: usize)
    requires
        i <= s.len(),
    ensures
        r == ws_end(s@, i as int),
        i <= r <= s.len(),
{
    let mut j = i;
    while j < s.len() && (s[j] == ' ' || s[j] == '\t')
        invariant
            i <= j <= s.len(),
            ws_end(s@, i as int) == ws_end(s@, j as int),
        decreases s.len() - j,
    {
        j += 1;
    }
    j
}

/// Skips at least one space or tab.
pub fn skip_ws1(s: &Vec<char>, i: usize) -> (r: Result<usize, ParseError>)
    requires
        i <= s.len(),
    ensures
        match ws1(s@, i as int) {
            Some(e) => r is Ok && r->Ok_0 == e,
            None => r is Err,
        },
        r is Ok ==> r->Ok_0 <= s.len(),
{
    let j = skip_ws(s, i);
    if j == i {
        err(i, i, ParseErrorKind::Expected(Expected::Whitespace))
    } else {
        Ok(j)
    }
}

/// A character that ends a token: white space or one of two stop characters.
pub open spec fn ends_token(c: char, stop1: char, stop2: char) -> bool {
    is_white_space(c) || c == stop1 || c == stop2
}

/// The end of the longest run from `i` of characters that do not end a token.
pub open spec fn token_end(s: Seq<char>, i: int, stop1: char, stop2: char) -> int
    decreases s.len() - i,
{
    if 0 <= i < s.len() && !ends_token(s[i], stop1, stop2) {
        token_end(s, i + 1, stop1, stop2)
    } else {
        i
    }
}

pub proof fn lemma_token_end_bounds(s: Seq<char>, i: int, stop1: char, stop2: char)
    requires
        0 <= i <= s.len(),
    ensures
        i <= token_end(s, i, stop1, stop2) <= s.len(),
    decreases s.len() - i,
{
    if i < s.len() && !ends_token(s[i], stop1, stop2) {
        lemma_token_end_bounds(s, i + 1, stop1, stop2);
    }
}

/// Scans a token.
pub fn scan_token(s: &Vec<char>, i: usize, stop1: char, stop2: char) -> (r: usize)
    requires
        i <= s.len(),
    ensures
        r == token_end(s@, i as int, stop1, stop2),
        i <= r <= s.len(),
{
    let mut j = i;
    while j < s.len() && !(char_is_whitespace(s[j]) || s[j] == stop1 || s[j] == stop2)
        invariant
            i <= j <= s.len(),
            token_end(s@, i as int, stop1, stop2) == token_end(s@, j as int, stop1, stop2),
        decreases s.len() - j,
    {
        j += 1;
    }
    j
}

// ---- account ----

/// An account component: the longest run of characters that are neither
/// white space nor `:`, which must form a valid component.
pub open spec fn sp_component(s: Seq<char>, i: int) -> Option<(Seq<char>, int)> {
    let e = token_end(s, i, ':', ':');
    let tok = s.subrange(i, e);
    if is_valid_component(tok) {
        Some((tok, e))
    } else {
        None
    }
}

pub fn scan_component(s: &Vec<char>, i: usize) -> (r: Result<(AccountComponent, usize), ParseError>)
    requires
        i <= s.len(),
    ensures
        match sp_component(s@, i as int) {
            Some((c, e)) => r is Ok && r->Ok_0.0@ == c && r->Ok_0.1 == e,
            None => r is Err,
        },
        r is Ok ==> r->Ok_0.1 <= s.len(),
        r is Err ==> r->Err_0.kind == ParseErrorKind::InvalidAccountComponent(
            component_check(s@.subrange(i as int, token_end(s@, i as int, ':', ':')))->Err_0,
        ) && r->Err_0.start == i && r->Err_0.end == token_end(s@, i as int, ':', ':'),
{
    let e = scan_token(s, i, ':', ':');
    let text = string_of(s, i, e);
    match AccountComponent::new(text.as_str()) {
        Ok(c) => Ok((c, e)),
        Err(k) => err(i, e, ParseErrorKind::InvalidAccountComponent(k)),
    }
}

/// The keyword of each account type.
pub open spec fn account_type_name(t: AccountType) -> Seq<char> {
    match t {
        AccountType::Assets => seq!['A', 's', 's', 'e', 't', 's'],
        AccountType::Liabilities => seq!['L', 'i', 'a', 'b', 'i', 'l', 'i', 't', 'i', 'e', 's'],
        AccountType::Income => seq!['I', 'n', 'c', 'o', 'm', 'e'],
        AccountType::Expenses => seq!['E', 'x', 'p', 'e', 'n', 's', 'e', 's'],
        AccountType::Equity => seq!['E', 'q', 'u', 'i', 't', 'y'],
    }
}

/// The account type a keyword names.
pub open spec fn account_type_of(tok: Seq<char>) -> Option<AccountType> {
    if tok == account_type_name(AccountType::Assets) {
        Some(AccountType::Assets)
    } else if tok == account_type_name(AccountType::Liabilities) {
        Some(AccountType::Liabilities)
    } else if tok == account_type_name(AccountType::Income) {
        Some(AccountType::Income)
    } else if tok == account_type_name(AccountType::Expenses) {
        Some(AccountType::Expenses)
    } else if tok == account_type_name(AccountType::Equity) {
        Some(AccountType::Equity)
    } else {
        None
    }
}

/// An account type: a token as for a component, naming one of the five
/// types exactly.
pub open spec fn sp_account_type(s: Seq<char>, i: int) -> Option<(AccountType, int)> {
    let e = token_end(s, i, ':', ':');
    match account_type_of(s.subrange(i, e)) {
        Some(t) => Some((t, e)),
        None => None,
    }
}

/// The keyword of an account type.
pub fn account_type_str(t: AccountType) -> (r: &'static str)
    ensures
        r@ == account_type_name(t),
{
    let r = match t {
        AccountType::Assets => "Assets",
        AccountType::Liabilities => "Liabilities",
        AccountType::Income => "Income",
        AccountType::Expenses => "Expenses",
        AccountType::Equity => "Equity",
    };
    proof {
        reveal_strlit("Assets");
        reveal_strlit("Liabilities");
        reveal_strlit("Income");
        reveal_strlit("Expenses");
        reveal_strlit("Equity");
    }
    r
}

/// Whether `s[i..e]` is the text of `t`.
fn token_is(s: &Vec<char>, i: usize, e: usize, t: AccountType) -> (r: bool)
    requires
        i <= e <= s.len(),
    ensures
        r == (s@.subrange(i as int, e as int) == account_type_name(t)),
{
    let name = crate::text::chars_of(account_type_str(t));
    if e - i != name.len() {
        return false;
    }
    let mut k: usize = 0;
    while k < name.len()
        invariant
            e - i == name.len(),
            i <= e <= s.len(),
            name@ == account_type_name(t),
            0 <= k <= name.len(),
            forall|j: int| 0 <= j < k ==> s@[i + j] == name@[j],
        decreases name.len() - k,
    {
        if s[i + k] != name[k] {
            assert(s@.subrange(i as int, e as int)[k as int] != name@[k as int]);
            return false;
        }
        k += 1;
    }
    assert(s@.subrange(i as int, e as int) =~= name@);
    true
}

/// Each type's keyword is a valid component.
pub proof fn lemma_type_names_are_components()
    ensures
        forall|t: AccountType| is_valid_component(#[trigger] account_type_name(t)),
{
    assert forall|t: AccountType| is_valid_component(#[trigger] account_type_name(t)) by {
        let n = account_type_name(t);
        assert forall|i: int| 1 <= i < n.len() implies crate::account::component_char_ok(
            #[trigger] n[i],
        ) by {}
    }
}

/// The error for a token that names no account type: the component rule it
/// breaks, or, when it is a valid component, an unknown type.
pub open spec fn type_token_error(tok: Seq<char>) -> ParseErrorKind {
    match component_check(tok) {
        Err(e) => ParseErrorKind::InvalidAccountComponent(e),
        Ok(_) => ParseErrorKind::UnknownAccountType,
    }
}

/// Parses an account type. A token that is not a valid component fails as
/// such, with the token's span; a valid one that names no type fails as an
/// unknown type.
pub fn scan_account_type(s: &Vec<char>, i: usize) -> (r: Result<(AccountType, usize), ParseError>)
    requires
        i <= s.len(),
    ensures
        match sp_account_type(s@, i as int) {
            Some((t, e)) => r is Ok && r->Ok_0.0 == t && r->Ok_0.1 == e,
            None => r is Err,
        },
        r is Ok ==> r->Ok_0.1 <= s.len(),
        r is Err ==> r->Err_0.start == i && r->Err_0.end == token_end(s@, i as int, ':', ':')
            && r->Err_0.kind == type_token_error(s@.subrange(i as int, token_end(s@, i as int, ':', ':'))),
{
    let e = scan_token(s, i, ':', ':');
    let tok = crate::text::string_of(s, i, e);
    let cs = crate::text::chars_of(tok.as_str());
    if let Err(k) = check_component(&cs) {
        assert(account_type_of(s@.subrange(i as int, e as int)) is None) by {
            lemma_type_names_are_components();
        }
        return err(i, e, ParseErrorKind::InvalidAccountComponent(k));
    }
    if token_is(s, i, e, AccountType::Assets) {
        Ok((AccountType::Assets, e))
    } else if token_is(s, i, e, AccountType::Liabilities) {
        Ok((AccountType::Liabilities, e))
    } else if token_is(s, i, e, AccountType::Income) {
        Ok((AccountType::Income, e))
    } else if token_is(s, i, e, AccountType::Expenses) {
        Ok((AccountType::Expenses, e))
    } else if token_is(s, i, e, AccountType::Equity) {
        Ok((AccountType::Equity, e))
    } else {
        err(i, e, ParseErrorKind::UnknownAccountType)
    }
}

/// The components after an account type: each is a `:` followed by a
/// component, for as long as a `:` follows. A `:` followed by no valid
/// component is an error over the component's token.
pub open spec fn sp_components(s: Seq<char>, i: int) -> Result<
    (Seq<Seq<char>>, int),
    (ParseErrorKind, int, int),
>
    decreases s.len() - i,
{
    if 0 <= i < s.len() && s[i] == ':' {
        match sp_component(s, i + 1) {
            Some((c, e)) => if i < e <= s.len() {
                match sp_components(s, e) {
                    Ok((rest, f)) => Ok((seq![c] + rest, f)),
                    Err(x) => Err(x),
                }
            } else {
                Ok((seq![], i))
            },
            None => {
                let e = token_end(s, i + 1, ':', ':');
                Err(
                    (
                        ParseErrorKind::InvalidAccountComponent(
                            component_check(s.subrange(i + 1, e))->Err_0,
                        ),
                        i + 1,
                        e,
                    ),
                )
            },
        }
    } else {
        Ok((seq![], i))
    }
}

/// An account: its type, then its components.
pub open spec fn sp_account(s: Seq<char>, i: int) -> Option<(AccountView, int)> {
    match sp_account_type(s, i) {
        Some((t, e)) => match sp_components(s, e) {
            Ok((cs, f)) => Some((AccountView { account_type: t, components: cs }, f)),
            Err(_) => None,
        },
        None => None,
    }
}

/// The error a text that is no account gives at `i`, with its span: the
/// type token's error, or that of the first `:` followed by no valid
/// component.
pub open spec fn account_error(s: Seq<char>, i: int) -> (ParseErrorKind, int, int) {
    match sp_account_type(s, i) {
        None => {
            let e = token_end(s, i, ':', ':');
            (type_token_error(s.subrange(i, e)), i, e)
        },
        Some((t, e)) => match sp_components(s, e) {
            Err(x) => x,
            Ok(_) => (ParseErrorKind::UnknownAccountType, i, i),
        },
    }
}

pub open spec fn prepend_components(
    p: Seq<Seq<char>>,
    r: Result<(Seq<Seq<char>>, int), (ParseErrorKind, int, int)>,
) -> Result<(Seq<Seq<char>>, int), (ParseErrorKind, int, int)> {
    match r {
        Ok((cs, f)) => Ok((p + cs, f)),
        Err(x) => Err(x),
    }
}

pub fn scan_account(s: &Vec<char>, i: usize) -> (r: Result<(Account, usize), ParseError>)
    requires
        i <= s.len(),
    ensures
        match sp_account(s@, i as int) {
            Some((a, e)) => r is Ok && r->Ok_0.0@ == a && r->Ok_0.1 == e,
            None => r is Err,
        },
        r is Ok ==> r->Ok_0.1 <= s.len(),
        sp_account(s@, i as int) is None ==> r is Err && (r->Err_0.kind, r->Err_0.start as int,
            r->Err_0.end as int) == account_error(s@, i as int),
{
    let (t, e) = match scan_account_type(s, i) {
        Ok(x) => x,
        Err(er) => return Err(er),
    };
    let mut out: Vec<AccountComponent> = Vec::new();
    let mut j = e;
    proof {
        assert(sp_components(s@, e as int) == prepend_components(component_views(out@), sp_components(s@, j as int))) by {
            assert(component_views(out@) =~= seq![]);
            match sp_components(s@, e as int) {
                Ok((cs, f)) => {
                    assert(seq![] + cs =~= cs);
                },
                Err(_) => {},
            }
        }
    }
    loop
        invariant
            e <= j <= s.len(),
            sp_account_type(s@, i as int) == Some((t, e as int)),
            sp_components(s@, e as int) == prepend_components(
                component_views(out@),
                sp_components(s@, j as int),
            ),
        ensures
            e <= j <= s.len(),
            sp_components(s@, e as int) == Ok::<_, (ParseErrorKind, int, int)>(
                (component_views(out@), j as int),
            ),
        decreases s.len() - j,
    {
        if !(j < s.len() && s[j] == ':') {
            proof {
                assert(component_views(out@) + seq![] =~= component_views(out@));
            }
            break;
        }
        proof {
            lemma_token_end_bounds(s@, j + 1, ':', ':');
        }
        match scan_component(s, j + 1) {
            Ok((c, f)) => {
                let ghost before = out@;
                out.push(c);
                proof {
                    assert(component_views(out@) =~= component_views(before).push(c@));
                    match sp_components(s@, f as int) {
                        Ok((cs, g)) => {
                            assert(component_views(before) + (seq![c@] + cs) =~= component_views(
                                out@,
                            ) + cs);
                        },
                        Err(_) => {},
                    }
                }
                j = f;
            },
            Err(er) => {
                return Err(er);
            },
        }
    }
    let acc = Account::from_components(t, out);
    proof {
        assert(acc@ == (AccountView { account_type: t, components: component_views(out@) }));
    }
    Ok((acc, j))
}

// ---- commodities ----

/// A commodity: the longest run of characters that are neither white space
/// nor `,` nor `}`, which must form a valid code.
pub open spec fn sp_commodity(s: Seq<char>, i: int) -> Option<(Seq<char>, int)> {
    let e = token_end(s, i, ',', '}');
    let tok = s.subrange(i, e);
    if is_valid_commodity(tok) {
        Some((tok, e))
    } else {
        None
    }
}

pub fn scan_commodity(s: &Vec<char>, i: usize) -> (r: Result<(Commodity, usize), ParseError>)
    requires
        i <= s.len(),
    ensures
        match sp_commodity(s@, i as int) {
            Some((c, e)) => r is Ok && r->Ok_0.0@ == c && r->Ok_0.1 == e,
            None => r is Err,
        },
        r is Ok ==> r->Ok_0.1 <= s.len(),
        r is Err ==> r->Err_0.kind == ParseErrorKind::InvalidCommodity(
            commodity_check(s@.subrange(i as int, token_end(s@, i as int, ',', '}')))->Err_0,
        ) && r->Err_0.start == i && r->Err_0.end == token_end(s@, i as int, ',', '}'),
{
    let e = scan_token(s, i, ',', '}');
    let text = string_of(s, i, e);
    match Commodity::new(text.as_str()) {
        Ok(c) => Ok((c, e)),
        Err(k) => err(i, e, ParseErrorKind::InvalidCommodity(k)),
    }
}

/// The commodities after the first of a list: each follows a `,` with
/// optional blanks around it, for as long as that reads.
pub open spec fn sp_commodity_rest(s: Seq<char>, i: int) -> (Seq<Seq<char>>, int)
    decreases s.len() - i,
{
    let j = ws_end(s, i);
    if 0 <= i && j < s.len() && s[j] == ',' {
        match sp_commodity(s, ws_end(s, j + 1)) {
            Some((c, e)) => if i < e <= s.len() {
                let (rest, f) = sp_commodity_rest(s, e);
                (seq![c] + rest, f)
            } else {
                (seq![], i)
            },
            None => (seq![], i),
        }
    } else {
        (seq![], i)
    }
}

/// One or more commodities separated by commas.
pub open spec fn sp_commodity_list(s: Seq<char>, i: int) -> Option<(Seq<Seq<char>>, int)> {
    match sp_commodity(s, i) {
        Some((c, e)) => {
            let (rest, f) = sp_commodity_rest(s, e);
            Some((seq![c] + rest, f))
        },
        None => None,
    }
}

pub fn scan_commodity_list(s: &Vec<char>, i: usize) -> (r: Result<(Vec<Commodity>, usize), ParseError>)
    requires
        i <= s.len(),
    ensures
        match sp_commodity_list(s@, i as int) {
            Some((cs, e)) => r is Ok && crate::commodity::commodity_views(r->Ok_0.0@) == cs
                && r->Ok_0.1 == e,
            None => r is Err,
        },
        r is Ok ==> r->Ok_0.1 <= s.len(),
{
    let (first, e) = match scan_commodity(s, i) {
        Ok(x) => x,
        Err(er) => return Err(er),
    };
    let mut out: Vec<Commodity> = Vec::new();
    out.push(first);
    let mut j = e;
    loop
        invariant
            e <= j <= s.len(),
            sp_commodity_list(s@, i as int) == Some(({
                let (cs, f) = sp_commodity_rest(s@, j as int);
                (crate::commodity::commodity_views(out@) + cs, f)
            })),
        ensures
            e <= j <= s.len(),
            sp_commodity_list(s@, i as int) == Some((crate::commodity::commodity_views(out@), j as int)),
        decreases s.len() - j,
    {
        let k = skip_ws(s, j);
        if !(k < s.len() && s[k] == ',') {
            proof {
                assert(crate::commodity::commodity_views(out@) + seq![] =~= crate::commodity::commodity_views(out@));
            }
            break;
        }
        proof {
            lemma_ws_end_bounds(s@, k + 1);
        }
        let m = skip_ws(s, k + 1);
        match scan_commodity(s, m) {
            Ok((c, f)) => {
                if !(j < f) {
                    proof {
                        assert(crate::commodity::commodity_views(out@) + seq![] =~= crate::commodity::commodity_views(out@));
                    }
                    break;
                }
                let ghost before = out@;
                out.push(c);
                proof {
                    let (cs, g) = sp_commodity_rest(s@, f as int);
                    assert(crate::commodity::commodity_views(out@) =~= crate::commodity::commodity_views(before).push(c@));
                    assert(crate::commodity::commodity_views(before) + (seq![c@] + cs) =~= crate::commodity::commodity_views(out@)
                        + cs);
                }
                j = f;
            },
            Err(_) => {
                proof {
                    assert(crate::commodity::commodity_views(out@) + seq![] =~= crate::commodity::commodity_views(out@));
                }
                break;
            },
        }
    }
    Ok((out, j))
}

// ---- numbers ----

/// The end of the run of ASCII digits that starts at `i`.
pub open spec fn digits_end(s: Seq<char>, i: int) -> int
    decreases s.len() - i,
{
    if 0 <= i < s.len() && is_digit(s[i]) {
        digits_end(s, i + 1)
    } else {
        i
    }
}

pub proof fn lemma_digits_end(s: Seq<char>, i: int)
    requires
        0 <= i <= s.len(),
    ensures
        i <= digits_end(s, i) <= s.len(),
        all_digits(s.subrange(i, digits_end(s, i))),
        digits_end(s, i) < s.len() ==> !is_digit(s[digits_end(s, i)]),
    decreases s.len() - i,
{
    if i < s.len() && is_digit(s[i]) {
        lemma_digits_end(s, i + 1);
        let e = digits_end(s, i);
        assert forall|k: int| 0 <= k < e - i implies is_digit(#[trigger] s.subrange(i, e)[k]) by {
            if k > 0 {
                assert(s.subrange(i, e)[k] == s.subrange(i + 1, e)[k - 1]);
            }
        }
    }
}

pub fn is_digit_char(c: char) -> (r: bool)
    ensures
        r == is_digit(c),
{
    c == '0' || c == '1' || c == '2' || c == '3' || c == '4' || c == '5' || c == '6' || c == '7'
        || c == '8' || c == '9'
}

fn scan_digits(s: &Vec<char>, i: usize) -> (r: usize)
    requires
        i <= s.len(),
    ensures
        r == digits_end(s@, i as int),
        i <= r <= s.len(),
{
    let mut j = i;
    while j < s.len() && is_digit_char(s[j])
        invariant
            i <= j <= s.len(),
            digits_end(s@, i as int) == digits_end(s@, j as int),
        decreases s.len() - j,
    {
        j += 1;
    }
    j
}

/// A number without sign: digits, then optionally a point and more digits,
/// at most 28 digits in all.
pub open spec fn sp_unsigned_decimal(s: Seq<char>, i: int) -> Option<(Decimal, int)> {
    let e1 = digits_end(s, i);
    let has_frac = e1 < s.len() && s[e1] == '.' && digits_end(s, e1 + 1) > e1 + 1;
    let ip = s.subrange(i, e1);
    let fp = if has_frac {
        s.subrange(e1 + 1, digits_end(s, e1 + 1))
    } else {
        seq![]
    };
    let e = if has_frac {
        digits_end(s, e1 + 1)
    } else {
        e1
    };
    if e1 <= i || ip.len() + fp.len() > MAX_DIGITS {
        None
    } else {
        Some((Decimal { mantissa: digits_value(ip + fp) as i128, scale: fp.len() as u32 }, e))
    }
}

/// A number: an optional `+` or `-`, then a number without sign.
pub open spec fn sp_decimal(s: Seq<char>, i: int) -> Option<(Decimal, int)> {
    if 0 <= i < s.len() && (s[i] == '+' || s[i] == '-') {
        match sp_unsigned_decimal(s, i + 1) {
            Some((d, e)) => Some(
                (
                    if s[i] == '-' {
                        Decimal { mantissa: (-d.mantissa) as i128, scale: d.scale }
                    } else {
                        d
                    },
                    e,
                ),
            ),
            None => None,
        }
    } else {
        sp_unsigned_decimal(s, i)
    }
}

pub proof fn lemma_digits_value_bound(t: Seq<char>)
    ensures
        digits_value(t) < pow10(t.len()),
    decreases t.len(),
{
    if t.len() > 0 {
        lemma_digits_value_bound(t.drop_last());
        assert(digit_value(t.last()) < 10);
    }
}

pub proof fn lemma_pow10_mono(a: nat, b: nat)
    requires
        a <= b,
    ensures
        pow10(a) <= pow10(b),
    decreases b,
{
    if a < b {
        lemma_pow10_mono(a, (b - 1) as nat);
    }
}

/// Twenty-eight digits read below `10^28`.
pub proof fn lemma_pow10_28()
    ensures
        pow10(28) == 10000000000000000000000000000,
{
    reveal_with_fuel(pow10, 29);
}

pub fn scan_unsigned_decimal(s: &Vec<char>, i: usize) -> (r: Result<(Decimal, usize), ParseError>)
    requires
        i <= s.len(),
    ensures
        match sp_unsigned_decimal(s@, i as int) {
            Some((d, e)) => r is Ok && r->Ok_0.0 == d && r->Ok_0.1 == e,
            None => r is Err,
        },
        r is Ok ==> r->Ok_0.1 <= s.len() && r->Ok_0.0.mantissa >= 0 && r->Ok_0.0.mantissa
            < 10000000000000000000000000000,
{
    let e1 = scan_digits(s, i);
    if e1 == i {
        return err(i, i, ParseErrorKind::Expected(Expected::Digit));
    }
    proof {
        lemma_digits_end(s@, i as int);
    }
    let mut e = e1;
    let mut has_frac = false;
    if e1 < s.len() && s[e1] == '.' {
        let e2 = scan_digits(s, e1 + 1);
        if e2 > e1 + 1 {
            has_frac = true;
            e = e2;
            proof {
                lemma_digits_end(s@, e1 + 1);
            }
        }
    }
    let n_frac: usize = if has_frac { e - e1 - 1 } else { 0 };
    if e1 - i > MAX_DIGITS || n_frac > MAX_DIGITS - (e1 - i) {
        return err(i, e, ParseErrorKind::InvalidDecimal);
    }
    let ip = string_of(s, i, e1);
    let fp = if has_frac {
        string_of(s, e1 + 1, e)
    } else {
        String::new()
    };
    match decimal_from_digits(ip.as_str(), fp.as_str()) {
        Some((m, sc)) => {
            proof {
                let t = ip@ + fp@;
                lemma_digits_value_bound(t);
                lemma_pow10_mono(t.len(), 28);
                lemma_pow10_28();
            }
            Ok((Decimal { mantissa: m, scale: sc }, e))
        },
        None => err(i, e, ParseErrorKind::InvalidDecimal),
    }
}

pub fn scan_decimal(s: &Vec<char>, i: usize) -> (r: Result<(Decimal, usize), ParseError>)
    requires
        i <= s.len(),
    ensures
        match sp_decimal(s@, i as int) {
            Some((d, e)) => r is Ok && r->Ok_0.0 == d && r->Ok_0.1 == e,
            None => r is Err,
        },
        r is Ok ==> r->Ok_0.1 <= s.len(),
{
    if i < s.len() && (s[i] == '+' || s[i] == '-') {
        let (d, e) = match scan_unsigned_decimal(s, i + 1) {
            Ok(x) => x,
            Err(er) => return Err(er),
        };
        if s[i] == '-' {
            Ok((Decimal { mantissa: 0 - d.mantissa, scale: d.scale }, e))
        } else {
            Ok((d, e))
        }
    } else {
        scan_unsigned_decimal(s, i)
    }
}

// ---- dates ----

/// `n` digits at `j`, read as a number.
pub open spec fn fixed_digits(s: Seq<char>, j: int, n: int) -> Option<nat> {
    if 0 <= j && j + n <= s.len() && all_digits(s.subrange(j, j + n)) {
        Some(digits_value(s.subrange(j, j + n)))
    } else {
        None
    }
}

/// A date: an optional `-`, four digits of year, a separator `-` or `/`,
/// two digits of month, the same separator, and two digits of day, naming a
/// day of the calendar.
pub open spec fn sp_date(s: Seq<char>, i: int) -> Option<(Date, int)> {
    let neg = 0 <= i < s.len() && s[i] == '-';
    let j = if neg {
        i + 1
    } else {
        i
    };
    if j + 10 <= s.len() && fixed_digits(s, j, 4) is Some && (s[j + 4] == '-' || s[j + 4] == '/')
        && fixed_digits(s, j + 5, 2) is Some && s[j + 7] == s[j + 4] && fixed_digits(
        s,
        j + 8,
        2,
    ) is Some {
        let y = fixed_digits(s, j, 4)->Some_0 as int;
        let year = if neg {
            -y
        } else {
            y
        };
        let m = fixed_digits(s, j + 5, 2)->Some_0 as int;
        let d = fixed_digits(s, j + 8, 2)->Some_0 as int;
        if is_calendar_date(year, m, d) {
            Some((Date { year: year as i32, month: m as u32, day: d as u32 }, j + 10))
        } else {
            None
        }
    } else {
        None
    }
}

/// Where the digits of a date start: after its sign, if it has one.
pub open spec fn date_digits_start(s: Seq<char>, i: int) -> int {
    if 0 <= i < s.len() && s[i] == '-' {
        i + 1
    } else {
        i
    }
}

/// The first position from `j`, among the next `n`, that holds no digit.
pub open spec fn first_non_digit(s: Seq<char>, j: int, n: int) -> int
    decreases n,
{
    if n <= 0 {
        j
    } else if j < 0 || j >= s.len() || !is_digit(s[j]) {
        j
    } else {
        first_non_digit(s, j + 1, n - 1)
    }
}

/// The error a text that is no date gives at `i`, with its span: the token
/// class expected where the shape breaks, at that position; or, for a shape
/// without calendar day, the whole date.
pub open spec fn date_error(s: Seq<char>, i: int) -> (ParseErrorKind, int, int) {
    let j = date_digits_start(s, i);
    if fixed_digits(s, j, 4) is None {
        let p = first_non_digit(s, j, 4);
        (ParseErrorKind::Expected(Expected::FourDigitYear), p, p)
    } else if j + 4 >= s.len() || !(s[j + 4] == '-' || s[j + 4] == '/') {
        (ParseErrorKind::Expected(Expected::DateSeparator), j + 4, j + 4)
    } else if fixed_digits(s, j + 5, 2) is None {
        let p = first_non_digit(s, j + 5, 2);
        (ParseErrorKind::Expected(Expected::TwoDigitMonth), p, p)
    } else if j + 7 >= s.len() || s[j + 7] != s[j + 4] {
        (ParseErrorKind::Expected(Expected::Symbol(s[j + 4])), j + 7, j + 7)
    } else if fixed_digits(s, j + 8, 2) is None {
        let p = first_non_digit(s, j + 8, 2);
        (ParseErrorKind::Expected(Expected::TwoDigitDay), p, p)
    } else {
        (ParseErrorKind::InvalidDate, i, j + 10)
    }
}

/// Reads `n` digits at `j`, or gives the position of the first that is not
/// one.
fn read_fixed_digits(s: &Vec<char>, j: usize, n: usize) -> (r: Result<u32, usize>)
    requires
        n <= 4,
        j <= s.len(),
    ensures
        match fixed_digits(s@, j as int, n as int) {
            Some(v) => r is Ok && r->Ok_0 == v,
            None => r is Err && r->Err_0 == first_non_digit(s@, j as int, n as int),
        },
{
    let mut k: usize = 0;
    let mut v: u32 = 0;
    while k < n
        invariant
            0 <= k <= n <= 4,
            j <= s.len(),
            j + k <= s.len(),
            all_digits(s@.subrange(j as int, j + k)),
            v == digits_value(s@.subrange(j as int, j + k)),
            v < pow10(k as nat),
            first_non_digit(s@, j as int, n as int) == first_non_digit(s@, j + k, n - k),
        decreases n - k,
    {
        if k >= s.len() - j || !is_digit_char(s[j + k]) {
            proof {
                if j + n <= s.len() {
                    assert(!is_digit(s@.subrange(j as int, j + n)[k as int]));
                }
            }
            return Err(j + k);
        }
        let c = s[j + k];
        let d: u32 = if c == '0' {
            0
        } else if c == '1' {
            1
        } else if c == '2' {
            2
        } else if c == '3' {
            3
        } else if c == '4' {
            4
        } else if c == '5' {
            5
        } else if c == '6' {
            6
        } else if c == '7' {
            7
        } else if c == '8' {
            8
        } else {
            9
        };
        proof {
            reveal_with_fuel(pow10, 5);
            let t = s@.subrange(j as int, j + k + 1);
            assert(t.drop_last() =~= s@.subrange(j as int, j + k));
            assert(t.last() == c);
            assert forall|q: int| 0 <= q < t.len() implies is_digit(#[trigger] t[q]) by {
                if q < k {
                    assert(t[q] == s@.subrange(j as int, j + k)[q]);
                }
            }
        }
        v = v * 10 + d;
        k += 1;
    }
    Ok(v)
}

pub fn scan_date(s: &Vec<char>, i: usize) -> (r: Result<(Date, usize), ParseError>)
    requires
        i <= s.len(),
    ensures
        match sp_date(s@, i as int) {
            Some((d, e)) => r is Ok && r->Ok_0.0 == d && r->Ok_0.1 == e,
            None => r is Err,
        },
        r is Ok ==> r->Ok_0.1 <= s.len() && crate::date::valid_date(r->Ok_0.0),
        sp_date(s@, i as int) is None ==> r is Err && (r->Err_0.kind, r->Err_0.start as int,
            r->Err_0.end as int) == date_error(s@, i as int),
{
    let neg = i < s.len() && s[i] == '-';
    let j = if neg { i + 1 } else { i };
    let y = match read_fixed_digits(s, j, 4) {
        Ok(v) => v,
        Err(p) => return err(p, p, ParseErrorKind::Expected(Expected::FourDigitYear)),
    };
    if j + 4 >= s.len() || !(s[j + 4] == '-' || s[j + 4] == '/') {
        return err(j + 4, j + 4, ParseErrorKind::Expected(Expected::DateSeparator));
    }
    let sep = s[j + 4];
    let m = match read_fixed_digits(s, j + 5, 2) {
        Ok(v) => v,
        Err(p) => return err(p, p, ParseErrorKind::Expected(Expected::TwoDigitMonth)),
    };
    if j + 7 >= s.len() || s[j + 7] != sep {
        return err(j + 7, j + 7, ParseErrorKind::Expected(Expected::Symbol(sep)));
    }
    let d = match read_fixed_digits(s, j + 8, 2) {
        Ok(v) => v,
        Err(p) => return err(p, p, ParseErrorKind::Expected(Expected::TwoDigitDay)),
    };
    proof {
        reveal_with_fuel(pow10, 5);
        lemma_digits_value_bound(s@.subrange(j as int, j + 4));
    }
    let year: i32 = if neg { 0 - (y as i32) } else { y as i32 };
    match Date::new(year, m, d) {
        Some(date) => Ok((date, j + 10)),
        None => err(i, j + 10, ParseErrorKind::InvalidDate),
    }
}

// ---- quoted strings ----

/// The rest of a quoted string from `i`: plain characters, or `\` followed
/// by `"` or `\`, up to the closing `"`. Gives the unescaped text and the
/// position after the quote.
pub open spec fn sp_quoted_rest(s: Seq<char>, i: int) -> Option<(Seq<char>, int)>
    decreases s.len() - i,
{
    if i < 0 || i >= s.len() {
        None
    } else if s[i] == '"' {
        Some((seq![], i + 1))
    } else if s[i] == '\\' {
        if i + 1 < s.len() && (s[i + 1] == '"' || s[i + 1] == '\\') {
            match sp_quoted_rest(s, i + 2) {
                Some((t, e)) => Some((seq![s[i + 1]] + t, e)),
                None => None,
            }
        } else {
            None
        }
    } else {
        match sp_quoted_rest(s, i + 1) {
            Some((t, e)) => Some((seq![s[i]] + t, e)),
            None => None,
        }
    }
}

/// A quoted string.
pub open spec fn sp_quoted(s: Seq<char>, i: int) -> Option<(Seq<char>, int)> {
    if 0 <= i < s.len() && s[i] == '"' {
        sp_quoted_rest(s, i + 1)
    } else {
        None
    }
}

pub open spec fn prepend_text(p: Seq<char>, r: Option<(Seq<char>, int)>) -> Option<(Seq<char>, int)> {
    match r {
        Some((t, e)) => Some((p + t, e)),
        None => None,
    }
}

pub fn scan_quoted(s: &Vec<char>, i: usize) -> (r: Result<(String, usize), ParseError>)
    requires
        i <= s.len(),
    ensures
        match sp_quoted(s@, i as int) {
            Some((t, e)) => r is Ok && r->Ok_0.0@ == t && r->Ok_0.1 == e,
            None => r is Err,
        },
        r is Ok ==> r->Ok_0.1 <= s.len(),
{
    if !(i < s.len() && s[i] == '"') {
        return err(i, i, ParseErrorKind::Expected(Expected::Symbol('"')));
    }
    let mut out = String::new();
    let mut j = i + 1;
    loop
        invariant
            i + 1 <= j <= s.len(),
            sp_quoted(s@, i as int) == prepend_text(out@, sp_quoted_rest(s@, j as int)),
        decreases s.len() - j,
    {
        if j >= s.len() {
            return err(i, j, ParseErrorKind::UnterminatedString);
        }
        let c = s[j];
        if c == '"' {
            proof {
                assert(out@ + seq![] =~= out@);
            }
            return Ok((out, j + 1));
        } else if c == '\\' {
            if j + 1 < s.len() && (s[j + 1] == '"' || s[j + 1] == '\\') {
                let ghost before = out@;
                crate::text::push_char(&mut out, s[j + 1]);
                proof {
                    match sp_quoted_rest(s@, j + 2) {
                        Some((t, e)) => {
                            assert(before + (seq![s@[j + 1]] + t) =~= out@ + t);
                        },
                        None => {},
                    }
                }
                j = j + 2;
            } else {
                return err(j, j + 1, ParseErrorKind::InvalidEscape);
            }
        } else {
            let ghost before = out@;
            crate::text::push_char(&mut out, c);
            proof {
                match sp_quoted_rest(s@, j + 1) {
                    Some((t, e)) => {
                        assert(before + (seq![c] + t) =~= out@ + t);
                    },
                    None => {},
                }
            }
            j = j + 1;
        }
    }
}

// ---- flags ----

/// A flag: any one character that is not white space.
pub open spec fn sp_flag(s: Seq<char>, i: int) -> Option<(Flag, int)> {
    if 0 <= i < s.len() && !is_white_space(s[i]) {
        Some((flag_of(s[i]), i + 1))
    } else {
        None
    }
}

pub fn scan_flag(s: &Vec<char>, i: usize) -> (r: Result<(Flag, usize), ParseError>)
    requires
        i <= s.len(),
    ensures
        match sp_flag(s@, i as int) {
            Some((f, e)) => r is Ok && r->Ok_0.0 == f && r->Ok_0.1 == e,
            None => r is Err,
        },
        r is Ok ==> r->Ok_0.1 <= s.len() && crate::directive::valid_flag(r->Ok_0.0),
{
    if i < s.len() && !char_is_whitespace(s[i]) {
        Ok((Flag::new(s[i]), i + 1))
    } else {
        err(i, i, ParseErrorKind::Expected(Expected::Flag))
    }
}

// ---- amounts ----

/// An amount: a number, blanks, a commodity.
pub open spec fn sp_amount(s: Seq<char>, i: int) -> Option<(AmountView, int)> {
    match sp_decimal(s, i) {
        Some((d, e1)) => match ws1(s, e1) {
            Some(e2) => match sp_commodity(s, e2) {
                Some((c, e3)) => Some((AmountView { number: d, commodity: c }, e3)),
                None => None,
            },
            None => None,
        },
        None => None,
    }
}

pub fn scan_amount(s: &Vec<char>, i: usize) -> (r: Result<(Amount, usize), ParseError>)
    requires
        i <= s.len(),
    ensures
        match sp_amount(s@, i as int) {
            Some((a, e)) => r is Ok && r->Ok_0.0@ == a && r->Ok_0.1 == e,
            None => r is Err,
        },
        r is Ok ==> r->Ok_0.1 <= s.len(),
{
    let (d, e1) = match scan_decimal(s, i) {
        Ok(x) => x,
        Err(er) => return Err(er),
    };
    let e2 = match skip_ws1(s, e1) {
        Ok(x) => x,
        Err(er) => return Err(er),
    };
    let (c, e3) = match scan_commodity(s, e2) {
        Ok(x) => x,
        Err(er) => return Err(er),
    };
    Ok((Amount::new(d, c), e3))
}

/// A tolerance clause: `~`, blanks, a number without sign, blanks.
pub open spec fn sp_tolerance(s: Seq<char>, i: int) -> Option<(Decimal, int)> {
    if 0 <= i < s.len() && s[i] == '~' {
        match ws1(s, i + 1) {
            Some(e1) => match sp_unsigned_decimal(s, e1) {
                Some((t, e2)) => match ws1(s, e2) {
                    Some(e3) => Some((t, e3)),
                    None => None,
                },
                None => None,
            },
            None => None,
        }
    } else {
        None
    }
}

/// An amount with an optional tolerance: a number, blanks, an optional
/// tolerance clause, a commodity.
pub open spec fn sp_amount_with_tolerance(s: Seq<char>, i: int) -> Option<
    (AmountWithToleranceView, int),
> {
    match sp_decimal(s, i) {
        Some((d, e1)) => match ws1(s, e1) {
            Some(e2) => {
                let (tol, e3) = match sp_tolerance(s, e2) {
                    Some((t, e)) => (Some(t), e),
                    None => (None, e2),
                };
                match sp_commodity(s, e3) {
                    Some((c, e4)) => Some(
                        (
                            AmountWithToleranceView {
                                amount: AmountView { number: d, commodity: c },
                                tolerance: tol,
                            },
                            e4,
                        ),
                    ),
                    None => None,
                }
            },
            None => None,
        },
        None => None,
    }
}

fn scan_tolerance(s: &Vec<char>, i: usize) -> (r: Option<(Decimal, usize)>)
    requires
        i <= s.len(),
    ensures
        match sp_tolerance(s@, i as int) {
            Some((t, e)) => r == Some((t, e as usize)) && e <= s.len(),
            None => r is None,
        },
        r is Some ==> r->Some_0.0.mantissa >= 0 && r->Some_0.1 <= s.len(),
{
    if !(i < s.len() && s[i] == '~') {
        return None;
    }
    let e1 = match skip_ws1(s, i + 1) {
        Ok(x) => x,
        Err(_) => return None,
    };
    let (t, e2) = match scan_unsigned_decimal(s, e1) {
        Ok(x) => x,
        Err(_) => return None,
    };
    let e3 = match skip_ws1(s, e2) {
        Ok(x) => x,
        Err(_) => return None,
    };
    Some((t, e3))
}

pub fn scan_amount_with_tolerance(s: &Vec<char>, i: usize) -> (r: Result<
    (AmountWithTolerance, usize),
    ParseError,
>)
    requires
        i <= s.len(),
    ensures
        match sp_amount_with_tolerance(s@, i as int) {
            Some((a, e)) => r is Ok && r->Ok_0.0@ == a && r->Ok_0.1 == e,
            None => r is Err,
        },
        r is Ok ==> r->Ok_0.1 <= s.len(),
{
    let (d, e1) = match scan_decimal(s, i) {
        Ok(x) => x,
        Err(er) => return Err(er),
    };
    let e2 = match skip_ws1(s, e1) {
        Ok(x) => x,
        Err(er) => return Err(er),
    };
    let (tol, e3) = match scan_tolerance(s, e2) {
        Some((t, e)) => (Some(t), e),
        None => (None, e2),
    };
    let (c, e4) = match scan_commodity(s, e3) {
        Ok(x) => x,
        Err(er) => return Err(er),
    };
    Ok((AmountWithTolerance::new(Amount::new(d, c), tol), e4))
}

/// A cost clause: blanks, `{`, optional blanks, an amount,
/// optional blanks, `}`.
pub open spec fn sp_cost(s: Seq<char>, i: int) -> Option<(AmountView, int)> {
    match ws1(s, i) {
        Some(e1) => if e1 < s.len() && s[e1] == '{' {
            match sp_amount(s, ws_end(s, e1 + 1)) {
                Some((a, e2)) => {
                    let e3 = ws_end(s, e2);
                    if 0 <= e3 < s.len() && s[e3] == '}' {
                        Some((a, e3 + 1))
                    } else {
                        None
                    }
                },
                None => None,
            }
        } else {
            None
        },
        None => None,
    }
}

/// A price clause: blanks, `@`, blanks, an amount.
pub open spec fn sp_price(s: Seq<char>, i: int) -> Option<(AmountView, int)> {
    match ws1(s, i) {
        Some(e1) => if e1 < s.len() && s[e1] == '@' {
            match ws1(s, e1 + 1) {
                Some(e2) => sp_amount(s, e2),
                None => None,
            }
        } else {
            None
        },
        None => None,
    }
}

/// A posting's amount: an amount, then an optional cost clause, then an
/// optional price clause.
pub open spec fn sp_posting_amount(s: Seq<char>, i: int) -> Option<(PostingAmountView, int)> {
    match sp_amount(s, i) {
        Some((a, e1)) => {
            let (cost, e2) = match sp_cost(s, e1) {
                Some((c, e)) => (Some(c), e),
                None => (None, e1),
            };
            let (price, e3) = match sp_price(s, e2) {
                Some((p, e)) => (Some(p), e),
                None => (None, e2),
            };
            Some((PostingAmountView { amount: a, cost, price }, e3))
        },
        None => None,
    }
}

fn scan_cost(s: &Vec<char>, i: usize) -> (r: Option<(Amount, usize)>)
    requires
        i <= s.len(),
    ensures
        match sp_cost(s@, i as int) {
            Some((a, e)) => r is Some && r->Some_0.0@ == a && r->Some_0.1 == e,
            None => r is None,
        },
        r is Some ==> r->Some_0.1 <= s.len(),
{
    let e1 = match skip_ws1(s, i) {
        Ok(x) => x,
        Err(_) => return None,
    };
    if !(e1 < s.len() && s[e1] == '{') {
        return None;
    }
    let k = skip_ws(s, e1 + 1);
    let (a, e2) = match scan_amount(s, k) {
        Ok(x) => x,
        Err(_) => return None,
    };
    let e3 = skip_ws(s, e2);
    if e3 < s.len() && s[e3] == '}' {
        Some((a, e3 + 1))
    } else {
        None
    }
}

fn scan_price(s: &Vec<char>, i: usize) -> (r: Option<(Amount, usize)>)
    requires
        i <= s.len(),
    ensures
        match sp_price(s@, i as int) {
            Some((a, e)) => r is Some && r->Some_0.0@ == a && r->Some_0.1 == e,
            None => r is None,
        },
        r is Some ==> r->Some_0.1 <= s.len(),
{
    let e1 = match skip_ws1(s, i) {
        Ok(x) => x,
        Err(_) => return None,
    };
    if !(e1 < s.len() && s[e1] == '@') {
        return None;
    }
    let e2 = match skip_ws1(s, e1 + 1) {
        Ok(x) => x,
        Err(_) => return None,
    };
    match scan_amount(s, e2) {
        Ok(x) => Some(x),
        Err(_) => None,
    }
}

pub fn scan_posting_amount(s: &Vec<char>, i: usize) -> (r: Result<(PostingAmount, usize), ParseError>)
    requires
        i <= s.len(),
    ensures
        match sp_posting_amount(s@, i as int) {
            Some((a, e)) => r is Ok && r->Ok_0.0@ == a && r->Ok_0.1 == e,
            None => r is Err,
        },
        r is Ok ==> r->Ok_0.1 <= s.len(),
{
    let (a, e1) = match scan_amount(s, i) {
        Ok(x) => x,
        Err(er) => return Err(er),
    };
    let mut pa = PostingAmount::new(a);
    let mut e = e1;
    match scan_cost(s, e1) {
        Some((c, e2)) => {
            pa = pa.with_cost(c);
            e = e2;
        },
        None => {},
    }
    match scan_price(s, e) {
        Some((p, e3)) => {
            pa = pa.with_price(p);
            e = e3;
        },
        None => {},
    }
    Ok((pa, e))
}

// ---- postings and transactions ----

/// A flag followed by blanks.
pub open spec fn sp_flag_ws(s: Seq<char>, i: int) -> Option<(Flag, int)> {
    match sp_flag(s, i) {
        Some((f, e)) => match ws1(s, e) {
            Some(e2) => Some((f, e2)),
            None => None,
        },
        None => None,
    }
}

/// A posting line: blanks, an optional flag and blanks, an
/// account, then optionally blanks and a posting amount.
pub open spec fn sp_posting(s: Seq<char>, i: int) -> Option<(PostingView, int)> {
    match ws1(s, i) {
        Some(e1) => {
            let (flag, e2) = match sp_flag_ws(s, e1) {
                Some((f, e)) => (Some(f), e),
                None => (None, e1),
            };
            match sp_account(s, e2) {
                Some((a, e3)) => {
                    let (amount, e4) = match ws1(s, e3) {
                        Some(e) => match sp_posting_amount(s, e) {
                            Some((pa, f)) => (Some(pa), f),
                            None => (None, e3),
                        },
                        None => (None, e3),
                    };
                    Some((PostingView { account: a, flag, amount }, e4))
                },
                None => None,
            }
        },
        None => None,
    }
}

pub fn scan_posting(s: &Vec<char>, i: usize) -> (r: Result<(Posting, usize), ParseError>)
    requires
        i <= s.len(),
    ensures
        match sp_posting(s@, i as int) {
            Some((p, e)) => r is Ok && r->Ok_0.0@ == p && r->Ok_0.1 == e,
            None => r is Err,
        },
        r is Ok ==> r->Ok_0.1 <= s.len(),
{
    let e1 = match skip_ws1(s, i) {
        Ok(x) => x,
        Err(er) => return Err(er),
    };
    let mut flag: Option<Flag> = None;
    let mut e2 = e1;
    match scan_flag(s, e1) {
        Ok((f, e)) => match skip_ws1(s, e) {
            Ok(e3) => {
                flag = Some(f);
                e2 = e3;
            },
            Err(_) => {},
        },
        Err(_) => {},
    }
    let (a, e3) = match scan_account(s, e2) {
        Ok(x) => x,
        Err(er) => return Err(er),
    };
    let mut amount: Option<PostingAmount> = None;
    let mut e4 = e3;
    match skip_ws1(s, e3) {
        Ok(e) => match scan_posting_amount(s, e) {
            Ok((pa, f)) => {
                amount = Some(pa);
                e4 = f;
            },
            Err(_) => {},
        },
        Err(_) => {},
    }
    let p = match amount {
        Some(pa) => Posting::new(a, pa),
        None => Posting::new_without_amount(a),
    };
    let p = match flag {
        Some(f) => p.with_flag(f),
        None => p,
    };
    Ok((p, e4))
}

/// Posting lines, each after a newline, for as long as they read.
pub open spec fn sp_postings(s: Seq<char>, i: int) -> (Seq<PostingView>, int)
    decreases s.len() - i,
{
    if 0 <= i < s.len() && s[i] == '\n' {
        match sp_posting(s, i + 1) {
            Some((p, e)) => if i < e <= s.len() {
                let (rest, f) = sp_postings(s, e);
                (seq![p] + rest, f)
            } else {
                (seq![], i)
            },
            None => (seq![], i),
        }
    } else {
        (seq![], i)
    }
}

fn scan_postings(s: &Vec<char>, i: usize) -> (r: (Vec<Posting>, usize))
    requires
        i <= s.len(),
    ensures
        sp_postings(s@, i as int) == (posting_views(r.0@), r.1 as int),
        r.1 <= s.len(),
{
    let mut out: Vec<Posting> = Vec::new();
    let mut j = i;
    loop
        invariant
            i <= j <= s.len(),
            sp_postings(s@, i as int) == ({
                let (ps, f) = sp_postings(s@, j as int);
                (posting_views(out@) + ps, f)
            }),
        ensures
            i <= j <= s.len(),
            sp_postings(s@, i as int) == (posting_views(out@), j as int),
        decreases s.len() - j,
    {
        if !(j < s.len() && s[j] == '\n') {
            proof {
                assert(posting_views(out@) + seq![] =~= posting_views(out@));
            }
            break;
        }
        match scan_posting(s, j + 1) {
            Ok((p, f)) => {
                if !(j < f) {
                    proof {
                        assert(posting_views(out@) + seq![] =~= posting_views(out@));
                    }
                    break;
                }
                let ghost before = out@;
                out.push(p);
                proof {
                    let (ps, g) = sp_postings(s@, f as int);
                    assert(posting_views(out@) =~= posting_views(before).push(p@));
                    assert(posting_views(before) + (seq![p@] + ps) =~= posting_views(out@) + ps);
                }
                j = f;
            },
            Err(_) => {
                proof {
                    assert(posting_views(out@) + seq![] =~= posting_views(out@));
                }
                break;
            },
        }
    }
    (out, j)
}

/// A description: a quoted string, then optionally blanks and a second
/// one. With two strings the first is the payee and the second the
/// narration; with one it is the narration.
pub open spec fn sp_description(s: Seq<char>, i: int) -> Option<(TransactionDescriptionView, int)> {
    match sp_quoted(s, i) {
        Some((q1, e1)) => {
            let second = match ws1(s, e1) {
                Some(e2) => sp_quoted(s, e2),
                None => None,
            };
            match second {
                Some((q2, e3)) => Some(
                    (TransactionDescriptionView { narration: q2, payee: Some(q1) }, e3),
                ),
                None => Some((TransactionDescriptionView { narration: q1, payee: None }, e1)),
            }
        },
        None => None,
    }
}

pub fn scan_description(s: &Vec<char>, i: usize) -> (r: Result<
    (TransactionDescription, usize),
    ParseError,
>)
    requires
        i <= s.len(),
    ensures
        match sp_description(s@, i as int) {
            Some((d, e)) => r is Ok && r->Ok_0.0@ == d && r->Ok_0.1 == e,
            None => r is Err,
        },
        r is Ok ==> r->Ok_0.1 <= s.len(),
{
    let (q1, e1) = match scan_quoted(s, i) {
        Ok(x) => x,
        Err(er) => return Err(er),
    };
    match skip_ws1(s, e1) {
        Ok(e2) => match scan_quoted(s, e2) {
            Ok((q2, e3)) => {
                return Ok((TransactionDescription::new_with_payee(q1.as_str(), q2.as_str()), e3));
            },
            Err(_) => {},
        },
        Err(_) => {},
    }
    Ok((TransactionDescription::new_without_payee(q1.as_str()), e1))
}

/// A transaction's flag: the keyword `txn`, which stands for `*`, or a flag.
pub open spec fn sp_transaction_flag(s: Seq<char>, i: int) -> Option<(Flag, int)> {
    if 0 <= i && i + 3 <= s.len() && s.subrange(i, i + 3) == seq!['t', 'x', 'n'] {
        Some((Flag::Complete, i + 3))
    } else {
        sp_flag(s, i)
    }
}

/// A transaction: its flag, optionally blanks and a description, and
/// one or more posting lines.
pub open spec fn sp_transaction(s: Seq<char>, i: int) -> Option<(DirectiveTransactionView, int)> {
    match sp_transaction_flag(s, i) {
        Some((f, e1)) => {
            let (desc, e2) = match ws1(s, e1) {
                Some(e) => match sp_description(s, e) {
                    Some((d, g)) => (Some(d), g),
                    None => (None, e1),
                },
                None => (None, e1),
            };
            let (ps, e3) = sp_postings(s, e2);
            if ps.len() >= 1 {
                Some((DirectiveTransactionView { flag: f, description: desc, postings: ps }, e3))
            } else {
                None
            }
        },
        None => None,
    }
}

fn scan_transaction_flag(s: &Vec<char>, i: usize) -> (r: Result<(Flag, usize), ParseError>)
    requires
        i <= s.len(),
    ensures
        match sp_transaction_flag(s@, i as int) {
            Some((f, e)) => r is Ok && r->Ok_0.0 == f && r->Ok_0.1 == e,
            None => r is Err,
        },
        r is Ok ==> r->Ok_0.1 <= s.len(),
{
    if s.len() - i >= 3 && s[i] == 't' && s[i + 1] == 'x' && s[i + 2] == 'n' {
        assert(s@.subrange(i as int, i + 3) =~= seq!['t', 'x', 'n']);
        Ok((Flag::Complete, i + 3))
    } else {
        proof {
            if i + 3 <= s.len() && s@.subrange(i as int, i + 3) == seq!['t', 'x', 'n'] {
                assert(s@.subrange(i as int, i + 3)[0] == s@[i as int]);
                assert(s@.subrange(i as int, i + 3)[1] == s@[i + 1]);
                assert(s@.subrange(i as int, i + 3)[2] == s@[i + 2]);
            }
        }
        scan_flag(s, i)
    }
}

pub fn scan_transaction(s: &Vec<char>, i: usize) -> (r: Result<
    (DirectiveTransaction, usize),
    ParseError,
>)
    requires
        i <= s.len(),
    ensures
        match sp_transaction(s@, i as int) {
            Some((t, e)) => r is Ok && r->Ok_0.0@ == t && r->Ok_0.1 == e,
            None => r is Err,
        },
        r is Ok ==> r->Ok_0.1 <= s.len() && r->Ok_0.0@.postings.len() >= 1,
{
    let (f, e1) = match scan_transaction_flag(s, i) {
        Ok(x) => x,
        Err(er) => return Err(er),
    };
    let mut desc: Option<TransactionDescription> = None;
    let mut e2 = e1;
    match skip_ws1(s, e1) {
        Ok(e) => match scan_description(s, e) {
            Ok((d, g)) => {
                desc = Some(d);
                e2 = g;
            },
            Err(_) => {},
        },
        Err(_) => {},
    }
    let (ps, e3) = scan_postings(s, e2);
    if ps.len() == 0 {
        return err(e2, e2, ParseErrorKind::Expected(Expected::Symbol('\n')));
    }
    let t = match desc {
        Some(d) => DirectiveTransaction::new_with_description(f, d),
        None => DirectiveTransaction::new(f),
    };
    Ok((t.with_postings(ps), e3))
}

// ---- directives ----

/// `open`, blanks, an account, then optionally blanks and a list
/// of commodities. The account and the list as written.
pub open spec fn sp_open_parts(s: Seq<char>, i: int) -> Option<(AccountView, Seq<Seq<char>>, int)> {
    if 0 <= i && i + 4 <= s.len() && s.subrange(i, i + 4) == seq!['o', 'p', 'e', 'n'] {
        match ws1(s, i + 4) {
            Some(e1) => match sp_account(s, e1) {
                Some((a, e2)) => {
                    let (cs, e3) = match ws1(s, e2) {
                        Some(e) => match sp_commodity_list(s, e) {
                            Some((l, f)) => (l, f),
                            None => (seq![], e2),
                        },
                        None => (seq![], e2),
                    };
                    Some((a, cs, e3))
                },
                None => None,
            },
            None => None,
        }
    } else {
        None
    }
}

/// An open directive; its commodities come in ascending order, each once.
pub open spec fn sp_open(s: Seq<char>, i: int) -> Option<(DirectiveOpenView, int)> {
    match sp_open_parts(s, i) {
        Some((a, cs, e)) => Some(
            (DirectiveOpenView { account: a, commodities: canonical_order(cs) }, e),
        ),
        None => None,
    }
}

/// Whether the characters at `i` spell `kw`.
fn at_keyword(s: &Vec<char>, i: usize, kw: &str) -> (r: bool)
    requires
        i <= s.len(),
    ensures
        r == (i + kw@.len() <= s.len() && s@.subrange(i as int, i + kw@.len()) == kw@),
{
    let k = crate::text::chars_of(kw);
    if k.len() > s.len() - i {
        return false;
    }
    let mut j: usize = 0;
    while j < k.len()
        invariant
            0 <= j <= k.len(),
            k@ == kw@,
            i + k.len() <= s.len(),
            forall|q: int| 0 <= q < j ==> s@[i + q] == k@[q],
        decreases k.len() - j,
    {
        if s[i + j] != k[j] {
            assert(s@.subrange(i as int, i + k.len())[j as int] != k@[j as int]);
            return false;
        }
        j += 1;
    }
    assert(s@.subrange(i as int, i + k.len()) =~= k@);
    true
}

pub fn scan_open(s: &Vec<char>, i: usize) -> (r: Result<(DirectiveOpen, usize), ParseError>)
    requires
        i <= s.len(),
    ensures
        match sp_open(s@, i as int) {
            Some((o, e)) => r is Ok && r->Ok_0.0@ == o && r->Ok_0.1 == e,
            None => r is Err,
        },
        r is Ok ==> r->Ok_0.1 <= s.len(),
{
    proof {
        reveal_strlit("open");
        assert("open"@ =~= seq!['o', 'p', 'e', 'n']);
    }
    if !at_keyword(s, i, "open") {
        return err(i, i, ParseErrorKind::Expected(Expected::Keyword));
    }
    let e1 = match skip_ws1(s, i + 4) {
        Ok(x) => x,
        Err(er) => return Err(er),
    };
    let (a, e2) = match scan_account(s, e1) {
        Ok(x) => x,
        Err(er) => return Err(er),
    };
    let mut cs: Vec<Commodity> = Vec::new();
    assert(commodity_views(cs@) =~= seq![]);
    let mut e3 = e2;
    match skip_ws1(s, e2) {
        Ok(e) => match scan_commodity_list(s, e) {
            Ok((l, f)) => {
                cs = l;
                e3 = f;
            },
            Err(_) => {},
        },
        Err(_) => {},
    }
    Ok((DirectiveOpen::new(a, cs), e3))
}

/// `balance`, blanks, an account, blanks, an amount with an
/// optional tolerance.
pub open spec fn sp_balance(s: Seq<char>, i: int) -> Option<(DirectiveBalanceView, int)> {
    if 0 <= i && i + 7 <= s.len() && s.subrange(i, i + 7) == seq![
        'b',
        'a',
        'l',
        'a',
        'n',
        'c',
        'e',
    ] {
        match ws1(s, i + 7) {
            Some(e1) => match sp_account(s, e1) {
                Some((a, e2)) => match ws1(s, e2) {
                    Some(e3) => match sp_amount_with_tolerance(s, e3) {
                        Some((t, e4)) => Some((DirectiveBalanceView { account: a, amount: t }, e4)),
                        None => None,
                    },
                    None => None,
                },
                None => None,
            },
            None => None,
        }
    } else {
        None
    }
}

pub fn scan_balance(s: &Vec<char>, i: usize) -> (r: Result<(DirectiveBalance, usize), ParseError>)
    requires
        i <= s.len(),
    ensures
        match sp_balance(s@, i as int) {
            Some((b, e)) => r is Ok && r->Ok_0.0@ == b && r->Ok_0.1 == e,
            None => r is Err,
        },
        r is Ok ==> r->Ok_0.1 <= s.len(),
{
    proof {
        reveal_strlit("balance");
        assert("balance"@ =~= seq!['b', 'a', 'l', 'a', 'n', 'c', 'e']);
    }
    if !at_keyword(s, i, "balance") {
        return err(i, i, ParseErrorKind::Expected(Expected::Keyword));
    }
    let e1 = match skip_ws1(s, i + 7) {
        Ok(x) => x,
        Err(er) => return Err(er),
    };
    let (a, e2) = match scan_account(s, e1) {
        Ok(x) => x,
        Err(er) => return Err(er),
    };
    let e3 = match skip_ws1(s, e2) {
        Ok(x) => x,
        Err(er) => return Err(er),
    };
    let (t, e4) = match scan_amount_with_tolerance(s, e3) {
        Ok(x) => x,
        Err(er) => return Err(er),
    };
    Ok((DirectiveBalance::new(a, t), e4))
}

/// A directive's content: an open, else a balance, else a transaction.
pub open spec fn sp_directive_content(s: Seq<char>, i: int) -> Option<(DirectiveVariantView, int)> {
    match sp_open(s, i) {
        Some((o, e)) => Some((DirectiveVariantView::Open(o), e)),
        None => match sp_balance(s, i) {
            Some((b, e)) => Some((DirectiveVariantView::Balance(b), e)),
            None => match sp_transaction(s, i) {
                Some((t, e)) => Some((DirectiveVariantView::Transaction(t), e)),
                None => None,
            },
        },
    }
}

/// A directive: a date, blanks, and its content.
pub open spec fn sp_directive(s: Seq<char>, i: int) -> Option<(DirectiveView, int)> {
    match sp_date(s, i) {
        Some((d, e1)) => match ws1(s, e1) {
            Some(e2) => match sp_directive_content(s, e2) {
                Some((c, e3)) => Some((DirectiveView { date: d, content: c }, e3)),
                None => None,
            },
            None => None,
        },
        None => None,
    }
}

pub fn scan_directive_content(s: &Vec<char>, i: usize) -> (r: Result<
    (DirectiveVariant, usize),
    ParseError,
>)
    requires
        i <= s.len(),
    ensures
        match sp_directive_content(s@, i as int) {
            Some((c, e)) => r is Ok && r->Ok_0.0@ == c && r->Ok_0.1 == e,
            None => r is Err,
        },
        r is Ok ==> r->Ok_0.1 <= s.len(),
{
    if let Ok((o, e)) = scan_open(s, i) {
        return Ok((DirectiveVariant::Open(o), e));
    }
    if let Ok((b, e)) = scan_balance(s, i) {
        return Ok((DirectiveVariant::Balance(b), e));
    }
    match scan_transaction(s, i) {
        Ok((t, e)) => Ok((DirectiveVariant::Transaction(t), e)),
        Err(er) => Err(er),
    }
}

pub fn scan_directive(s: &Vec<char>, i: usize) -> (r: Result<(Directive, usize), ParseError>)
    requires
        i <= s.len(),
    ensures
        match sp_directive(s@, i as int) {
            Some((d, e)) => r is Ok && r->Ok_0.0@ == d && r->Ok_0.1 == e,
            None => r is Err,
        },
        r is Ok ==> r->Ok_0.1 <= s.len(),
{
    let (d, e1) = match scan_date(s, i) {
        Ok(x) => x,
        Err(er) => return Err(er),
    };
    let e2 = match skip_ws1(s, e1) {
        Ok(x) => x,
        Err(er) => return Err(er),
    };
    let (c, e3) = match scan_directive_content(s, e2) {
        Ok(x) => x,
        Err(er) => return Err(er),
    };
    Ok((Directive::new(d, c), e3))
}

// ---- whole inputs ----

/// The error for input left over after a complete value.
fn trailing<T>(e: usize, len: usize) -> (r: Result<T, ParseError>)
    ensures
        r is Err,
{
    err(e, len, ParseErrorKind::Expected(Expected::EndOfInput))
}

/// Reads the whole of `input` as an account component; it fails where the grammar does
/// not read, or where input is left over.
pub fn parse_account_component(input: &str) -> (r: Result<AccountComponent, ParseError>)
    ensures
        match sp_component(input@, 0) {
            Some((v, e)) => if e == input@.len() {
                r is Ok && r->Ok_0@ == v
            } else {
                r is Err
            },
            None => r is Err,
        },
{
    let s = crate::text::chars_of(input);
    match scan_component(&s, 0) {
        Ok((v, e)) => if e == s.len() {
            Ok(v)
        } else {
            trailing(e, s.len())
        },
        Err(er) => Err(er),
    }
}

/// Reads the whole of `input` as an account type; it fails where the grammar does
/// not read, or where input is left over.
pub fn parse_account_type(input: &str) -> (r: Result<AccountType, ParseError>)
    ensures
        match sp_account_type(input@, 0) {
            Some((v, e)) => if e == input@.len() {
                r is Ok && r->Ok_0 == v
            } else {
                r is Err
            },
            None => r is Err,
        },
{
    let s = crate::text::chars_of(input);
    match scan_account_type(&s, 0) {
        Ok((v, e)) => if e == s.len() {
            Ok(v)
        } else {
            trailing(e, s.len())
        },
        Err(er) => Err(er),
    }
}

/// Reads the whole of `input` as an account; it fails where the grammar does
/// not read, or where input is left over.
pub fn parse_account(input: &str) -> (r: Result<Account, ParseError>)
    ensures
        match sp_account(input@, 0) {
            Some((v, e)) => if e == input@.len() {
                r is Ok && r->Ok_0@ == v
            } else {
                r is Err
            },
            None => r is Err,
        },
        sp_account(input@, 0) is None ==> r is Err && (r->Err_0.kind, r->Err_0.start as int,
            r->Err_0.end as int) == account_error(input@, 0),
{
    let s = crate::text::chars_of(input);
    match scan_account(&s, 0) {
        Ok((v, e)) => if e == s.len() {
            Ok(v)
        } else {
            trailing(e, s.len())
        },
        Err(er) => Err(er),
    }
}

/// Reads the whole of `input` as a commodity; it fails where the grammar does
/// not read, or where input is left over.
pub fn parse_commodity(input: &str) -> (r: Result<Commodity, ParseError>)
    ensures
        match sp_commodity(input@, 0) {
            Some((v, e)) => if e == input@.len() {
                r is Ok && r->Ok_0@ == v
            } else {
                r is Err
            },
            None => r is Err,
        },
{
    let s = crate::text::chars_of(input);
    match scan_commodity(&s, 0) {
        Ok((v, e)) => if e == s.len() {
            Ok(v)
        } else {
            trailing(e, s.len())
        },
        Err(er) => Err(er),
    }
}

/// Reads the whole of `input` as a list of commodities, which it gives in
/// ascending order, each once; it fails where the grammar does not read, or
/// where input is left over.
pub fn parse_commodity_list(input: &str) -> (r: Result<Vec<Commodity>, ParseError>)
    ensures
        match sp_commodity_list(input@, 0) {
            Some((v, e)) => if e == input@.len() {
                r is Ok && commodity_views(r->Ok_0@) == canonical_order(v)
                    && crate::commodity::strictly_ascending(commodity_views(r->Ok_0@))
                    && commodity_views(r->Ok_0@).to_set() == v.to_set()
            } else {
                r is Err
            },
            None => r is Err,
        },
{
    let s = crate::text::chars_of(input);
    match scan_commodity_list(&s, 0) {
        Ok((v, e)) => if e == s.len() {
            Ok(crate::commodity::sorted_unique(v))
        } else {
            trailing(e, s.len())
        },
        Err(er) => Err(er),
    }
}

/// Reads the whole of `input` as a number; it fails where the grammar does
/// not read, or where input is left over.
pub fn parse_decimal(input: &str) -> (r: Result<Decimal, ParseError>)
    ensures
        match sp_decimal(input@, 0) {
            Some((v, e)) => if e == input@.len() {
                r is Ok && r->Ok_0 == v
            } else {
                r is Err
            },
            None => r is Err,
        },
{
    let s = crate::text::chars_of(input);
    match scan_decimal(&s, 0) {
        Ok((v, e)) => if e == s.len() {
            Ok(v)
        } else {
            trailing(e, s.len())
        },
        Err(er) => Err(er),
    }
}

/// Reads the whole of `input` as a number without sign; it fails where the grammar does
/// not read, or where input is left over.
pub fn parse_positive_decimal(input: &str) -> (r: Result<Decimal, ParseError>)
    ensures
        match sp_unsigned_decimal(input@, 0) {
            Some((v, e)) => if e == input@.len() {
                r is Ok && r->Ok_0 == v
            } else {
                r is Err
            },
            None => r is Err,
        },
{
    let s = crate::text::chars_of(input);
    match scan_unsigned_decimal(&s, 0) {
        Ok((v, e)) => if e == s.len() {
            Ok(v)
        } else {
            trailing(e, s.len())
        },
        Err(er) => Err(er),
    }
}

/// Reads the whole of `input` as a date; it fails where the grammar does
/// not read, or where input is left over.
pub fn parse_date(input: &str) -> (r: Result<Date, ParseError>)
    ensures
        match sp_date(input@, 0) {
            Some((v, e)) => if e == input@.len() {
                r is Ok && r->Ok_0 == v
            } else {
                r is Err
            },
            None => r is Err,
        },
        sp_date(input@, 0) is None ==> r is Err && (r->Err_0.kind, r->Err_0.start as int,
            r->Err_0.end as int) == date_error(input@, 0),
{
    let s = crate::text::chars_of(input);
    match scan_date(&s, 0) {
        Ok((v, e)) => if e == s.len() {
            Ok(v)
        } else {
            trailing(e, s.len())
        },
        Err(er) => Err(er),
    }
}

/// Reads the whole of `input` as a quoted string, unescaped; it fails where the grammar does
/// not read, or where input is left over.
pub fn parse_quoted_string(input: &str) -> (r: Result<String, ParseError>)
    ensures
        match sp_quoted(input@, 0) {
            Some((v, e)) => if e == input@.len() {
                r is Ok && r->Ok_0@ == v
            } else {
                r is Err
            },
            None => r is Err,
        },
{
    let s = crate::text::chars_of(input);
    match scan_quoted(&s, 0) {
        Ok((v, e)) => if e == s.len() {
            Ok(v)
        } else {
            trailing(e, s.len())
        },
        Err(er) => Err(er),
    }
}

/// Reads the whole of `input` as a flag; it fails where the grammar does
/// not read, or where input is left over.
pub fn parse_flag(input: &str) -> (r: Result<Flag, ParseError>)
    ensures
        match sp_flag(input@, 0) {
            Some((v, e)) => if e == input@.len() {
                r is Ok && r->Ok_0 == v
            } else {
                r is Err
            },
            None => r is Err,
        },
{
    let s = crate::text::chars_of(input);
    match scan_flag(&s, 0) {
        Ok((v, e)) => if e == s.len() {
            Ok(v)
        } else {
            trailing(e, s.len())
        },
        Err(er) => Err(er),
    }
}

/// Reads the whole of `input` as an amount; it fails where the grammar does
/// not read, or where input is left over.
pub fn parse_amount(input: &str) -> (r: Result<Amount, ParseError>)
    ensures
        match sp_amount(input@, 0) {
            Some((v, e)) => if e == input@.len() {
                r is Ok && r->Ok_0@ == v
            } else {
                r is Err
            },
            None => r is Err,
        },
{
    let s = crate::text::chars_of(input);
    match scan_amount(&s, 0) {
        Ok((v, e)) => if e == s.len() {
            Ok(v)
        } else {
            trailing(e, s.len())
        },
        Err(er) => Err(er),
    }
}

/// Reads the whole of `input` as an amount with an optional tolerance; it fails where the grammar does
/// not read, or where input is left over.
pub fn parse_amount_with_tolerance(input: &str) -> (r: Result<AmountWithTolerance, ParseError>)
    ensures
        match sp_amount_with_tolerance(input@, 0) {
            Some((v, e)) => if e == input@.len() {
                r is Ok && r->Ok_0@ == v
            } else {
                r is Err
            },
            None => r is Err,
        },
{
    let s = crate::text::chars_of(input);
    match scan_amount_with_tolerance(&s, 0) {
        Ok((v, e)) => if e == s.len() {
            Ok(v)
        } else {
            trailing(e, s.len())
        },
        Err(er) => Err(er),
    }
}

/// Reads the whole of `input` as a posting's amount; it fails where the grammar does
/// not read, or where input is left over.
pub fn parse_posting_amount(input: &str) -> (r: Result<PostingAmount, ParseError>)
    ensures
        match sp_posting_amount(input@, 0) {
            Some((v, e)) => if e == input@.len() {
                r is Ok && r->Ok_0@ == v
            } else {
                r is Err
            },
            None => r is Err,
        },
{
    let s = crate::text::chars_of(input);
    match scan_posting_amount(&s, 0) {
        Ok((v, e)) => if e == s.len() {
            Ok(v)
        } else {
            trailing(e, s.len())
        },
        Err(er) => Err(er),
    }
}

/// Reads the whole of `input` as a posting line; it fails where the grammar does
/// not read, or where input is left over.
pub fn parse_posting(input: &str) -> (r: Result<Posting, ParseError>)
    ensures
        match sp_posting(input@, 0) {
            Some((v, e)) => if e == input@.len() {
                r is Ok && r->Ok_0@ == v
            } else {
                r is Err
            },
            None => r is Err,
        },
{
    let s = crate::text::chars_of(input);
    match scan_posting(&s, 0) {
        Ok((v, e)) => if e == s.len() {
            Ok(v)
        } else {
            trailing(e, s.len())
        },
        Err(er) => Err(er),
    }
}

/// Reads the whole of `input` as a transaction's description; it fails where the grammar does
/// not read, or where input is left over.
pub fn parse_transaction_description(input: &str) -> (r: Result<TransactionDescription, ParseError>)
    ensures
        match sp_description(input@, 0) {
            Some((v, e)) => if e == input@.len() {
                r is Ok && r->Ok_0@ == v
            } else {
                r is Err
            },
            None => r is Err,
        },
{
    let s = crate::text::chars_of(input);
    match scan_description(&s, 0) {
        Ok((v, e)) => if e == s.len() {
            Ok(v)
        } else {
            trailing(e, s.len())
        },
        Err(er) => Err(er),
    }
}

/// Reads the whole of `input` as a transaction without its date; it fails where the grammar does
/// not read, or where input is left over.
pub fn parse_transaction_directive(input: &str) -> (r: Result<DirectiveTransaction, ParseError>)
    ensures
        match sp_transaction(input@, 0) {
            Some((v, e)) => if e == input@.len() {
                r is Ok && r->Ok_0@ == v
            } else {
                r is Err
            },
            None => r is Err,
        },
        r is Ok ==> r->Ok_0@.postings.len() >= 1,
{
    let s = crate::text::chars_of(input);
    match scan_transaction(&s, 0) {
        Ok((v, e)) => if e == s.len() {
            Ok(v)
        } else {
            trailing(e, s.len())
        },
        Err(er) => Err(er),
    }
}

/// Reads the whole of `input` as an open directive without its date; it fails where the grammar does
/// not read, or where input is left over.
pub fn parse_open_directive(input: &str) -> (r: Result<DirectiveOpen, ParseError>)
    ensures
        match sp_open(input@, 0) {
            Some((v, e)) => if e == input@.len() {
                r is Ok && r->Ok_0@ == v
            } else {
                r is Err
            },
            None => r is Err,
        },
{
    let s = crate::text::chars_of(input);
    match scan_open(&s, 0) {
        Ok((v, e)) => if e == s.len() {
            Ok(v)
        } else {
            trailing(e, s.len())
        },
        Err(er) => Err(er),
    }
}

/// Reads the whole of `input` as a balance directive without its date; it fails where the grammar does
/// not read, or where input is left over.
pub fn parse_balance_directive(input: &str) -> (r: Result<DirectiveBalance, ParseError>)
    ensures
        match sp_balance(input@, 0) {
            Some((v, e)) => if e == input@.len() {
                r is Ok && r->Ok_0@ == v
            } else {
                r is Err
            },
            None => r is Err,
        },
{
    let s = crate::text::chars_of(input);
    match scan_balance(&s, 0) {
        Ok((v, e)) => if e == s.len() {
            Ok(v)
        } else {
            trailing(e, s.len())
        },
        Err(er) => Err(er),
    }
}

/// Reads the whole of `input` as a directive; it fails where the grammar does
/// not read, or where input is left over.
pub fn parse_directive(input: &str) -> (r: Result<Directive, ParseError>)
    ensures
        match sp_directive(input@, 0) {
            Some((v, e)) => if e == input@.len() {
                r is Ok && r->Ok_0@ == v
            } else {
                r is Err
            },
            None => r is Err,
        },
{
    let s = crate::text::chars_of(input);
    match scan_directive(&s, 0) {
        Ok((v, e)) => if e == s.len() {
            Ok(v)
        } else {
            trailing(e, s.len())
        },
        Err(er) => Err(er),
    }
}

} // verus!
