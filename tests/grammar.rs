use beancount_rs::account::{Account, AccountType, InvalidAccountComponentError};
use beancount_rs::amount::{Amount, AmountWithTolerance, PostingAmount};
use beancount_rs::commodity::{Commodity, InvalidCommodityError};
use beancount_rs::date::Date;
use beancount_rs::decimal::Decimal;
use beancount_rs::directive::{
    Directive, DirectiveOpen, DirectiveTransaction, DirectiveVariant, Flag, Posting,
    TransactionDescription,
};
use beancount_rs::grammar::{
    parse_account, parse_amount, parse_amount_with_tolerance, parse_balance_directive,
    parse_commodity, parse_commodity_list, parse_date, parse_decimal, parse_directive,
    parse_flag, parse_open_directive, parse_posting, parse_posting_amount,
    parse_positive_decimal, parse_quoted_string, parse_transaction_description,
    parse_transaction_directive, scan_account, scan_commodity, scan_date, scan_directive_content,
    scan_quoted, Expected, ParseErrorKind,
};
use beancount_rs::marshal::{
    marshal_account, marshal_amount, marshal_amount_with_tolerance, marshal_balance_directive,
    marshal_commodity_list, marshal_date, marshal_decimal, marshal_directive, marshal_flag,
    marshal_open_directive, marshal_posting, marshal_posting_amount, marshal_quoted_string,
    marshal_transaction_description, marshal_transaction_directive,
};
use beancount_rs::text::chars_of;

fn acc(t: AccountType, components: &[&str]) -> Account {
    Account::new(t, components).unwrap()
}

fn com(code: &str) -> Commodity {
    Commodity::new(code).unwrap()
}

fn dec(mantissa: i64, scale: u32) -> Decimal {
    Decimal::new(mantissa, scale)
}

fn texts(account: &Account) -> Vec<&str> {
    account.components().iter().map(|c| c.as_str()).collect()
}

// ---- accounts ----

#[test]
fn parse_stops_at_whitespace() {
    let s = chars_of("Assets:Cash USD");
    let (account, end) = scan_account(&s, 0).unwrap();
    assert_eq!(end, 11);
    assert_eq!(account.account_type(), AccountType::Assets);
    assert_eq!(texts(&account), ["Cash"]);
}

#[test]
fn parse_single_component() {
    let account = parse_account("Assets:Cash").unwrap();
    assert_eq!(account.account_type(), AccountType::Assets);
    assert_eq!(texts(&account), ["Cash"]);
}

#[test]
fn parse_multiple_components() {
    let account = parse_account("Liabilities:CreditCard:CapitalOne").unwrap();
    assert_eq!(account.account_type(), AccountType::Liabilities);
    assert_eq!(texts(&account), ["CreditCard", "CapitalOne"]);
}

#[test]
fn parse_numeric_components() {
    let account = parse_account("Assets:401k:2024").unwrap();
    assert_eq!(texts(&account), ["401k", "2024"]);
}

#[test]
fn marshal_empty_components() {
    let account = acc(AccountType::Equity, &[]);
    assert_eq!(marshal_account(&account), "Equity");
    let parsed = parse_account("Equity").unwrap();
    assert!(parsed.components().is_empty());
}

#[test]
fn invalid_account_spans_type_token() {
    let e = parse_account("assets:Cash").unwrap_err();
    assert_eq!((e.start, e.end), (0, 6));
    assert_eq!(
        e.kind,
        ParseErrorKind::InvalidAccountComponent(InvalidAccountComponentError::InvalidStart)
    );
    let e = parse_account("Asset:Cash").unwrap_err();
    assert_eq!((e.start, e.end), (0, 5));
    assert_eq!(e.kind, ParseErrorKind::UnknownAccountType);
}

#[test]
fn invalid_component_is_rejected() {
    assert!(parse_account("Assets:cash").is_err());
    assert!(parse_account("Assets:").is_err());
}

#[test]
fn account_component_parse_with_partial_input() {
    let s = chars_of("Assets:Checking:Sub rest");
    let (account, end) = scan_account(&s, 0).unwrap();
    assert_eq!(texts(&account), ["Checking", "Sub"]);
    assert_eq!(end, 19);
}

// ---- commodities ----

#[test]
fn commodity_parse_with_partial_input() {
    let s = chars_of("USD,EUR");
    let (c, end) = scan_commodity(&s, 0).unwrap();
    assert_eq!(c.as_str(), "USD");
    assert_eq!(end, 3);
}

#[test]
fn parse_commodity_errors_name_the_rule() {
    let e = parse_commodity("usd").unwrap_err();
    assert_eq!(e.kind, ParseErrorKind::InvalidCommodity(InvalidCommodityError::InvalidStart));
    assert_eq!((e.start, e.end), (0, 3));
}

#[test]
fn parse_commodity_list_single() {
    let list = parse_commodity_list("USD").unwrap();
    assert_eq!(list.len(), 1);
    assert_eq!(list[0].as_str(), "USD");
}

#[test]
fn parse_commodity_list_with_spaces() {
    let list = parse_commodity_list("USD , EUR ,GBP").unwrap();
    let codes: Vec<&str> = list.iter().map(|c| c.as_str()).collect();
    assert_eq!(codes, ["EUR", "GBP", "USD"]);
}

#[test]
fn parse_commodity_list_no_spaces() {
    let list = parse_commodity_list("USD,EUR,GBP").unwrap();
    assert_eq!(list.len(), 3);
}

#[test]
fn marshal_commodity_list_sorts_alphabetically() {
    let list = vec![com("USD"), com("EUR"), com("GBP")];
    assert_eq!(marshal_commodity_list(&list), "EUR,GBP,USD");
}

#[test]
fn marshal_commodity_list_drops_repeats() {
    let list = vec![com("USD"), com("EUR"), com("USD")];
    assert_eq!(marshal_commodity_list(&list), "EUR,USD");
    assert_eq!(marshal_commodity_list(&[]), "");
}

// ---- numbers ----

#[test]
fn parse_decimal_basic() {
    assert_eq!(parse_decimal("123.45").unwrap(), dec(12345, 2));
}

#[test]
fn parse_decimal_negative() {
    assert_eq!(parse_decimal("-123.45").unwrap(), dec(-12345, 2));
}

#[test]
fn parse_decimal_positive_sign() {
    assert_eq!(parse_decimal("+123.45").unwrap(), dec(12345, 2));
}

#[test]
fn parse_decimal_integer() {
    assert_eq!(parse_decimal("1000").unwrap(), dec(1000, 0));
}

#[test]
fn parse_decimal_zero() {
    assert_eq!(parse_decimal("0").unwrap(), dec(0, 0));
    assert_eq!(parse_decimal("-0").unwrap(), dec(0, 0));
    assert_eq!(parse_decimal("+0").unwrap(), dec(0, 0));
}

#[test]
fn parse_decimal_high_precision() {
    assert_eq!(parse_decimal("0.000000001").unwrap(), dec(1, 9));
}

#[test]
fn parse_decimal_invalid() {
    for input in ["", "abc", "123.45.67", "12.34.56", "+", "-", ".123", "123.", "12..34", "1.2.3.4", "12abc34"] {
        assert!(parse_decimal(input).is_err(), "{}", input);
    }
}

#[test]
fn parse_decimal_digit_limit() {
    let ok = "1234567890123456789012345678";
    let d = parse_decimal(ok).unwrap();
    assert_eq!(d.mantissa(), 1234567890123456789012345678i128);
    assert_eq!(marshal_decimal(&d), ok);
    let e = parse_decimal("12345678901234567890123456789").unwrap_err();
    assert_eq!(e.kind, ParseErrorKind::InvalidDecimal);
    assert!(parse_decimal("0.123456789012345678901234567").is_ok());
}

#[test]
fn parse_positive_decimal_rejects_sign() {
    assert!(parse_positive_decimal("-1").is_err());
    assert_eq!(parse_positive_decimal("0.002").unwrap(), dec(2, 3));
}

#[test]
fn marshal_decimal_basic() {
    assert_eq!(marshal_decimal(&dec(12345, 2)), "123.45");
}

#[test]
fn marshal_decimal_negative() {
    assert_eq!(marshal_decimal(&dec(-12345, 2)), "-123.45");
}

#[test]
fn marshal_decimal_zero() {
    assert_eq!(marshal_decimal(&dec(0, 0)), "0");
    assert_eq!(marshal_decimal(&dec(0, 2)), "0.00");
}

#[test]
fn marshal_decimal_integer() {
    assert_eq!(marshal_decimal(&dec(1000, 0)), "1000");
}

#[test]
fn marshal_decimal_high_precision() {
    assert_eq!(marshal_decimal(&dec(1, 9)), "0.000000001");
    assert_eq!(marshal_decimal(&dec(-5, 3)), "-0.005");
}

#[test]
fn decimal_round_trips_as_typed() {
    for input in ["123", "123.45", "-123.45", "0.001", "1000000", "999.999999", "3.14159", "1234567.89", "250.00"] {
        let d = parse_decimal(input).unwrap();
        assert_eq!(marshal_decimal(&d), input);
    }
    assert_eq!(marshal_decimal(&parse_decimal("+123.45").unwrap()), "123.45");
    assert_eq!(marshal_decimal(&parse_decimal("007.50").unwrap()), "7.50");
}

// ---- dates ----

#[test]
fn parse_valid_dates() {
    let cases = [
        ("2023-01-01", 2023, 1, 1),
        ("2023-12-31", 2023, 12, 31),
        ("2024-02-29", 2024, 2, 29),
        ("2000-02-29", 2000, 2, 29),
        ("1900-12-25", 1900, 12, 25),
        ("0023-02-28", 23, 2, 28),
        ("-5000-02-28", -5000, 2, 28),
    ];
    for (input, y, m, d) in cases {
        let date = parse_date(input).unwrap();
        assert_eq!(date, Date::new(y, m, d).unwrap());
        assert_eq!(marshal_date(&date), input);
    }
}

#[test]
fn different_separator() {
    let date = parse_date("2020/01/02").unwrap();
    assert_eq!(date, Date::new(2020, 1, 2).unwrap());
    assert_eq!(marshal_date(&date), "2020-01-02");
}

#[test]
fn mixed_separators_are_rejected() {
    assert!(parse_date("2020/01-02").is_err());
    assert!(parse_date("2020-01/02").is_err());
}

#[test]
fn calendar_validity() {
    assert!(parse_date("2023-02-29").is_err());
    assert!(parse_date("2024-02-29").is_ok());
    assert!(parse_date("2023-04-31").is_err());
    for input in ["2023-13-01", "2023-00-01", "2023-01-32", "2023-01-00", "2023-06-31", "2023/09/31", "2023-11-31", "1900-02-29"] {
        let e = parse_date(input).unwrap_err();
        assert_eq!(e.kind, ParseErrorKind::InvalidDate, "{}", input);
        assert_eq!((e.start, e.end), (0, 10), "{}", input);
    }
}

#[test]
fn date_format_errors() {
    let e = parse_date("23-01-01").unwrap_err();
    assert_eq!((e.start, e.kind), (2, ParseErrorKind::Expected(Expected::FourDigitYear)));
    let e = parse_date("2023-1-01").unwrap_err();
    assert_eq!((e.start, e.kind), (6, ParseErrorKind::Expected(Expected::TwoDigitMonth)));
    let e = parse_date("2023-01-1").unwrap_err();
    assert_eq!((e.start, e.kind), (9, ParseErrorKind::Expected(Expected::TwoDigitDay)));
    let e = parse_date("2023.01.01").unwrap_err();
    assert_eq!((e.start, e.kind), (4, ParseErrorKind::Expected(Expected::DateSeparator)));
    let e = parse_date("").unwrap_err();
    assert_eq!((e.start, e.kind), (0, ParseErrorKind::Expected(Expected::FourDigitYear)));
}

#[test]
fn date_parse_with_partial_input() {
    let s = chars_of("2023-06-15 transaction");
    let (date, end) = scan_date(&s, 0).unwrap();
    assert_eq!(date, Date::new(2023, 6, 15).unwrap());
    assert_eq!(end, 10);
}

#[test]
fn parse_stops_at_non_digit() {
    assert!(parse_date("2023-06-15T10:30:00").is_err());
}

#[test]
fn parse_error_message() {
    let e = parse_date("2023-02-30").unwrap_err();
    assert_eq!(e.message("2023-02-30"), "2023-02-30 is not a valid date");
}

#[test]
fn marshal_various_dates() {
    assert_eq!(marshal_date(&Date::new(1, 1, 1).unwrap()), "0001-01-01");
    assert_eq!(marshal_date(&Date::new(9999, 12, 31).unwrap()), "9999-12-31");
    assert_eq!(marshal_date(&Date::new(2000, 2, 29).unwrap()), "2000-02-29");
}

// ---- quoted strings ----

#[test]
fn parse_quoted_string_basic() {
    assert_eq!(parse_quoted_string("\"Cafe Mogador\"").unwrap(), "Cafe Mogador");
}

#[test]
fn parse_quoted_string_empty() {
    assert_eq!(parse_quoted_string("\"\"").unwrap(), "");
}

#[test]
fn parse_quoted_string_with_spaces() {
    assert_eq!(parse_quoted_string("\"  Hello World  \"").unwrap(), "  Hello World  ");
}

#[test]
fn parse_quoted_string_with_special_chars() {
    assert_eq!(
        parse_quoted_string("\"Item: $123.45 (tax included)\"").unwrap(),
        "Item: $123.45 (tax included)"
    );
}

#[test]
fn parse_quoted_string_invalid() {
    for input in ["\"unterminated", "unterminated\"", "no quotes", "\"", "", "\"incomplete escape\\", "\"invalid escape \\x\"", "\"invalid escape \\n\""] {
        assert!(parse_quoted_string(input).is_err(), "{}", input);
    }
    assert_eq!(parse_quoted_string("\"abc").unwrap_err().kind, ParseErrorKind::UnterminatedString);
    assert_eq!(parse_quoted_string("\"a\\x\"").unwrap_err().kind, ParseErrorKind::InvalidEscape);
}

#[test]
fn parse_quoted_string_with_escaped_quotes() {
    assert_eq!(parse_quoted_string("\"She said \\\"Hello\\\"\"").unwrap(), "She said \"Hello\"");
}

#[test]
fn parse_quoted_string_with_escaped_backslashes() {
    assert_eq!(
        parse_quoted_string("\"Path: C:\\\\Users\\\\Name\"").unwrap(),
        "Path: C:\\Users\\Name"
    );
}

#[test]
fn parse_quoted_string_mixed_escapes() {
    assert_eq!(
        parse_quoted_string("\"Quote: \\\"text\\\" and path: C:\\\\temp\"").unwrap(),
        "Quote: \"text\" and path: C:\\temp"
    );
}

#[test]
fn parse_quoted_string_only_escapes() {
    assert_eq!(parse_quoted_string("\"\\\"\\\\\\\"\"").unwrap(), "\"\\\"");
}

#[test]
fn marshal_quoted_string_basic() {
    assert_eq!(marshal_quoted_string("Cafe Mogador"), "\"Cafe Mogador\"");
}

#[test]
fn marshal_quoted_string_empty() {
    assert_eq!(marshal_quoted_string(""), "\"\"");
}

#[test]
fn marshal_quoted_string_with_spaces() {
    assert_eq!(marshal_quoted_string("  Hello World  "), "\"  Hello World  \"");
}

#[test]
fn marshal_quoted_string_with_special_chars() {
    assert_eq!(
        marshal_quoted_string("Item: $123.45 (tax included)"),
        "\"Item: $123.45 (tax included)\""
    );
}

#[test]
fn marshal_quoted_string_with_quotes() {
    assert_eq!(marshal_quoted_string("She said \"Hello\""), "\"She said \\\"Hello\\\"\"");
}

#[test]
fn marshal_quoted_string_with_backslashes() {
    assert_eq!(marshal_quoted_string("Path: C:\\Users\\Name"), "\"Path: C:\\\\Users\\\\Name\"");
}

#[test]
fn marshal_quoted_string_mixed_escapes() {
    assert_eq!(
        marshal_quoted_string("Quote: \"text\" and path: C:\\temp"),
        "\"Quote: \\\"text\\\" and path: C:\\\\temp\""
    );
}

#[test]
fn marshal_quoted_string_only_escapes() {
    assert_eq!(marshal_quoted_string("\"\\\""), "\"\\\"\\\\\\\"\"");
}

#[test]
fn marshal_quoted_string_roundtrip() {
    for text in ["Simple text", "", "  Spaces  ", "Café Napoléon", "She said \"Hello\"", "Path: C:\\Users\\Name", "\"\\\""] {
        let quoted = marshal_quoted_string(text);
        assert_eq!(parse_quoted_string(&quoted).unwrap(), text);
    }
}

#[test]
fn parse_quoted_string_multiple_in_sequence() {
    let s = chars_of("\"first\"   \"second\"");
    let (first, end) = scan_quoted(&s, 0).unwrap();
    assert_eq!(first, "first");
    let (second, _) = scan_quoted(&s, end + 3).unwrap();
    assert_eq!(second, "second");
}

#[test]
fn parse_quoted_string_in_context() {
    let s = chars_of("* \"Transaction description\"");
    let (description, end) = scan_quoted(&s, 2).unwrap();
    assert_eq!(description, "Transaction description");
    assert_eq!(end, s.len());
}

#[test]
fn parse_quoted_string_borrowed_vs_owned() {
    assert_eq!(parse_quoted_string("\"Simple text\"").unwrap(), "Simple text");
    assert_eq!(parse_quoted_string("\"Text with \\\"quotes\\\"\"").unwrap(), "Text with \"quotes\"");
    assert_eq!(parse_quoted_string("\"\"").unwrap(), "");
}

// ---- descriptions ----

#[test]
fn parse_transaction_description_narration_only() {
    let d = parse_transaction_description("\"Direct deposit\"").unwrap();
    assert_eq!(d.narration(), "Direct deposit");
    assert_eq!(d.payee(), None);
    assert!(!d.has_payee());
}

#[test]
fn parse_transaction_description_with_payee() {
    let d = parse_transaction_description("\"Cafe Mogador\" \"Lamb tagine with wine\"").unwrap();
    assert_eq!(d.narration(), "Lamb tagine with wine");
    assert_eq!(d.payee(), Some("Cafe Mogador"));
    assert!(d.has_payee());
}

#[test]
fn parse_transaction_description_empty_narration() {
    let d = parse_transaction_description("\"\"").unwrap();
    assert_eq!(d.narration(), "");
    assert_eq!(d.payee(), None);
}

#[test]
fn parse_transaction_description_empty_payee_and_narration() {
    let d = parse_transaction_description("\"\" \"\"").unwrap();
    assert_eq!(d.narration(), "");
    assert_eq!(d.payee(), Some(""));
    assert!(d.has_payee());
}

#[test]
fn parse_transaction_description_with_multiple_spaces() {
    let d = parse_transaction_description("\"Payee\"    \"Narration\"").unwrap();
    assert_eq!(d.narration(), "Narration");
    assert_eq!(d.payee(), Some("Payee"));
}

#[test]
fn parse_transaction_description_with_tabs() {
    let d = parse_transaction_description("\"Payee\"\t\"Narration\"").unwrap();
    assert_eq!(d.narration(), "Narration");
    assert_eq!(d.payee(), Some("Payee"));
}

#[test]
fn parse_transaction_description_invalid() {
    assert!(parse_transaction_description("\"unterminated").is_err());
    assert!(parse_transaction_description("\"payee\" \"unterminated").is_err());
    assert!(parse_transaction_description("\"payee\"").is_ok());
    assert!(parse_transaction_description("no quotes").is_err());
    assert!(parse_transaction_description("").is_err());
}

#[test]
fn marshal_transaction_description_narration_only() {
    let d = TransactionDescription::new_without_payee("Direct deposit");
    assert_eq!(marshal_transaction_description(&d), "\"Direct deposit\"");
}

#[test]
fn marshal_transaction_description_with_payee() {
    let d = TransactionDescription::new_with_payee("Cafe Mogador", "Lamb tagine with wine");
    assert_eq!(marshal_transaction_description(&d), "\"Cafe Mogador\" \"Lamb tagine with wine\"");
}

#[test]
fn marshal_transaction_description_empty_narration() {
    let d = TransactionDescription::new_without_payee("");
    assert_eq!(marshal_transaction_description(&d), "\"\"");
}

#[test]
fn marshal_transaction_description_empty_payee_and_narration() {
    let d = TransactionDescription::new_with_payee("", "");
    assert_eq!(marshal_transaction_description(&d), "\"\" \"\"");
}

#[test]
fn parse_transaction_description_in_context() {
    let t = parse_transaction_directive("* \"Store\" \"Purchase\"\n  Assets:Cash").unwrap();
    let d = t.description().unwrap();
    assert_eq!(d.payee(), Some("Store"));
    assert_eq!(d.narration(), "Purchase");
}

#[test]
fn parse_transaction_description_priority() {
    // The two-string form is tried first.
    let d = parse_transaction_description("\"First\" \"Second\"").unwrap();
    assert_eq!(d.payee(), Some("First"));
    assert_eq!(d.narration(), "Second");
}

// ---- flags ----

#[test]
fn flag_parse_flag_complete() {
    assert_eq!(parse_flag("*").unwrap(), Flag::Complete);
}

#[test]
fn flag_parse_flag_incomplete() {
    assert_eq!(parse_flag("!").unwrap(), Flag::Incomplete);
}

#[test]
fn flag_parse_flag_other() {
    assert_eq!(parse_flag("?").unwrap(), Flag::Other('?'));
    assert!(parse_flag(" ").is_err());
    assert!(parse_flag("").is_err());
    assert!(parse_flag("**").is_err());
}

#[test]
fn flag_marshal_flag_complete() {
    assert_eq!(marshal_flag(Flag::Complete), "*");
}

#[test]
fn flag_marshal_flag_incomplete() {
    assert_eq!(marshal_flag(Flag::Incomplete), "!");
}

#[test]
fn flag_parse_flag_copy_semantics() {
    let flag = parse_flag("*").unwrap();
    let copy = flag;
    assert_eq!(flag, copy);
}

// ---- amounts ----

#[test]
fn parse_valid_amounts() {
    let cases = [
        ("100.50 USD", dec(10050, 2), "USD"),
        ("-50.25 EUR", dec(-5025, 2), "EUR"),
        ("0 BTC", dec(0, 0), "BTC"),
        ("1234567.89 AAPL", dec(123456789, 2), "AAPL"),
        ("0.00001 ETH", dec(1, 5), "ETH"),
        ("1000000 JPY", dec(1000000, 0), "JPY"),
        ("+500.75 CAD", dec(50075, 2), "CAD"),
        ("42 SHARES", dec(42, 0), "SHARES"),
        ("3.14159 A", dec(314159, 5), "A"),
        ("999.999999 A'B.C_D-E1", dec(999999999, 6), "A'B.C_D-E1"),
        ("-3492.02 USD", dec(-349202, 2), "USD"),
        ("+250.00 EUR", dec(25000, 2), "EUR"),
    ];
    for (input, number, code) in cases {
        let a = parse_amount(input).unwrap();
        assert_eq!(*a.number(), number);
        assert_eq!(a.commodity().as_str(), code);
        let again = parse_amount(&marshal_amount(&a)).unwrap();
        assert_eq!(a, again);
    }
}

#[test]
fn parse_amount_integer() {
    let a = parse_amount("1000 JPY").unwrap();
    assert_eq!(*a.number(), dec(1000, 0));
    assert_eq!(a.commodity().as_str(), "JPY");
}

#[test]
fn parse_amount_zero() {
    let a = parse_amount("0 USD").unwrap();
    assert_eq!(*a.number(), dec(0, 0));
}

#[test]
fn parse_amount_multiple_spaces() {
    let a = parse_amount("100.50    USD").unwrap();
    assert_eq!(*a.number(), dec(10050, 2));
    assert_eq!(a.commodity().as_str(), "USD");
}

#[test]
fn parse_amount_tab_separator() {
    let a = parse_amount("100.50\tUSD").unwrap();
    assert_eq!(a.commodity().as_str(), "USD");
}

#[test]
fn parse_amount_high_precision() {
    let a = parse_amount("0.000000001 BTC").unwrap();
    assert_eq!(*a.number(), dec(1, 9));
    assert_eq!(a.commodity().as_str(), "BTC");
}

#[test]
fn parse_amount_invalid() {
    for input in ["USD", "100.50", "100.50USD", "abc USD", "100.50.25 USD", "100. USD", ".100 USD", "100.50 usd", ""] {
        assert!(parse_amount(input).is_err(), "{}", input);
    }
}

#[test]
fn marshal_amount_basic() {
    assert_eq!(marshal_amount(&Amount::new(dec(10050, 2), com("USD"))), "100.50 USD");
}

#[test]
fn marshal_amount_negative() {
    assert_eq!(marshal_amount(&Amount::new(dec(-5025, 2), com("EUR"))), "-50.25 EUR");
}

#[test]
fn marshal_amount_zero() {
    assert_eq!(marshal_amount(&Amount::new(dec(0, 0), com("BTC"))), "0 BTC");
}

#[test]
fn parse_decimal_valid() {
    assert_eq!(*parse_amount("123.45 USD").unwrap().number(), dec(12345, 2));
}

#[test]
fn parse_amount_with_tolerance_basic() {
    let a = parse_amount_with_tolerance("100.50 USD").unwrap();
    assert_eq!(*a.number(), dec(10050, 2));
    assert_eq!(a.tolerance(), None);
    assert_eq!(a.commodity().as_str(), "USD");
}

#[test]
fn parse_amount_with_tolerance_with_tolerance() {
    let a = parse_amount_with_tolerance("319.020 ~ 0.002 RGAGX").unwrap();
    assert_eq!(*a.number(), dec(319020, 3));
    assert_eq!(a.tolerance(), Some(&dec(2, 3)));
    assert_eq!(a.commodity().as_str(), "RGAGX");
}

#[test]
fn parse_amount_with_tolerance_negative() {
    let a = parse_amount_with_tolerance("-50.25 EUR").unwrap();
    assert_eq!(*a.number(), dec(-5025, 2));
}

#[test]
fn parse_amount_with_tolerance_positive_sign() {
    let a = parse_amount_with_tolerance("+500.75 CAD").unwrap();
    assert_eq!(*a.number(), dec(50075, 2));
}

#[test]
fn parse_amount_with_tolerance_zero() {
    let a = parse_amount_with_tolerance("0 ~ 0 USD").unwrap();
    assert_eq!(*a.number(), dec(0, 0));
    assert_eq!(a.tolerance(), Some(&dec(0, 0)));
}

#[test]
fn tolerance_may_not_be_signed() {
    assert!(parse_amount_with_tolerance("1 ~ -0.5 USD").is_err());
}

#[test]
fn marshal_amount_with_tolerance_basic() {
    let a = AmountWithTolerance::without_tolerance(dec(10050, 2), com("USD"));
    assert_eq!(marshal_amount_with_tolerance(&a), "100.50 USD");
}

#[test]
fn marshal_amount_with_tolerance_with_tolerance() {
    let a = AmountWithTolerance::with_tolerance(dec(319020, 3), dec(2, 3), com("RGAGX"));
    assert_eq!(marshal_amount_with_tolerance(&a), "319.020 ~ 0.002 RGAGX");
}

#[test]
fn marshal_amount_with_tolerance_negative() {
    let a = AmountWithTolerance::without_tolerance(dec(-5025, 2), com("EUR"));
    assert_eq!(marshal_amount_with_tolerance(&a), "-50.25 EUR");
}

#[test]
fn marshal_amount_with_tolerance_zero() {
    let a = AmountWithTolerance::with_tolerance(dec(0, 0), dec(0, 0), com("USD"));
    assert_eq!(marshal_amount_with_tolerance(&a), "0 ~ 0 USD");
}

#[test]
fn test_from_and_to_amount_conversion() {
    let amount = Amount::new(dec(10050, 2), com("USD"));
    let with = AmountWithTolerance::from_amount_with_tolerance(amount.clone(), dec(1, 2));
    assert_eq!(with.amount(), &amount);
    assert_eq!(with.tolerance(), Some(&dec(1, 2)));
    let without = AmountWithTolerance::from_amount(amount.clone());
    assert_eq!(without.amount(), &amount);
    assert_eq!(without.tolerance(), None);
}

// ---- posting amounts and postings ----

#[test]
fn parse_posting_amount_basic() {
    let p = parse_posting_amount("100.50 USD").unwrap();
    assert_eq!(*p.amount().number(), dec(10050, 2));
    assert!(!p.has_cost());
    assert!(!p.has_price());
}

#[test]
fn parse_posting_amount_with_cost() {
    let p = parse_posting_amount("10 STOCK {50.00 USD}").unwrap();
    assert_eq!(*p.amount().number(), dec(10, 0));
    assert_eq!(p.amount().commodity().as_str(), "STOCK");
    let cost = p.cost().unwrap();
    assert_eq!(*cost.number(), dec(5000, 2));
    assert_eq!(cost.commodity().as_str(), "USD");
    assert!(p.price().is_none());
    let padded = parse_posting_amount("10 STOCK { 50.00 USD } @ 55.00 USD").unwrap();
    assert_eq!(*padded.cost().unwrap().number(), dec(5000, 2));
    assert_eq!(*padded.price().unwrap().number(), dec(5500, 2));
}

#[test]
fn parse_posting_amount_with_price() {
    let p = parse_posting_amount("10 STOCK @ 55.00 USD").unwrap();
    assert!(p.cost().is_none());
    assert_eq!(*p.price().unwrap().number(), dec(5500, 2));
}

#[test]
fn parse_posting_amount_with_cost_and_price() {
    let p = parse_posting_amount("10 STOCK {50.00 USD} @ 55.00 USD").unwrap();
    assert_eq!(*p.cost().unwrap().number(), dec(5000, 2));
    assert_eq!(*p.price().unwrap().number(), dec(5500, 2));
}

#[test]
fn parse_posting_amount_invalid() {
    for input in ["STOCK {50.00 USD}", "10 STOCK {50.00}", "10 STOCK {50.00 USD"] {
        assert!(parse_posting_amount(input).is_err(), "{}", input);
    }
}

#[test]
fn posting_amount_marshal_posting_amount_basic() {
    let p = PostingAmount::new(Amount::new(dec(10050, 2), com("USD")));
    assert_eq!(marshal_posting_amount(&p), "100.50 USD");
}

#[test]
fn posting_amount_marshal_posting_amount_with_cost() {
    let p = PostingAmount::new(Amount::new(dec(10, 0), com("STOCK")))
        .with_cost(Amount::new(dec(5000, 2), com("USD")));
    assert_eq!(marshal_posting_amount(&p), "10 STOCK {50.00 USD}");
}

#[test]
fn posting_amount_marshal_posting_amount_with_price() {
    let p = PostingAmount::new(Amount::new(dec(10, 0), com("STOCK")))
        .with_price(Amount::new(dec(5500, 2), com("USD")));
    assert_eq!(marshal_posting_amount(&p), "10 STOCK @ 55.00 USD");
}

#[test]
fn posting_amount_marshal_posting_amount_with_cost_and_price() {
    let p = PostingAmount::new(Amount::new(dec(10, 0), com("STOCK")))
        .with_cost(Amount::new(dec(5000, 2), com("USD")))
        .with_price(Amount::new(dec(5500, 2), com("USD")));
    assert_eq!(marshal_posting_amount(&p), "10 STOCK {50.00 USD} @ 55.00 USD");
}

#[test]
fn parse_posting_with_amount() {
    let p = parse_posting("  Assets:Cash  100.50 USD").unwrap();
    assert_eq!(texts(p.account()), ["Cash"]);
    assert_eq!(*p.amount().unwrap().amount().number(), dec(10050, 2));
    assert!(!p.has_flag());
}

#[test]
fn parse_posting_without_amount() {
    let p = parse_posting("  Expenses:Restaurant").unwrap();
    assert_eq!(texts(p.account()), ["Restaurant"]);
    assert!(!p.has_amount());
}

#[test]
fn parse_posting_negative_amount() {
    let p = parse_posting("  Liabilities:CreditCard  -37.45 USD").unwrap();
    assert_eq!(*p.amount().unwrap().amount().number(), dec(-3745, 2));
}

#[test]
fn parse_posting_zero_amount() {
    let p = parse_posting("  Assets:Cash  0 USD").unwrap();
    assert_eq!(*p.amount().unwrap().amount().number(), dec(0, 0));
}

#[test]
fn parse_posting_tabs() {
    let p = parse_posting("\tAssets:Cash\t100 USD").unwrap();
    assert_eq!(*p.amount().unwrap().amount().number(), dec(100, 0));
}

#[test]
fn parse_posting_with_flag() {
    let p = parse_posting("  ! Assets:Cash  100 USD").unwrap();
    assert_eq!(p.flag(), Some(Flag::Incomplete));
    assert_eq!(texts(p.account()), ["Cash"]);
}

#[test]
fn parse_posting_with_cost() {
    let p = parse_posting("  Assets:Investments:Stock  10 STOCK {150.00 USD}").unwrap();
    assert_eq!(*p.amount().unwrap().cost().unwrap().number(), dec(15000, 2));
}

#[test]
fn parse_posting_with_price() {
    let p = parse_posting("  Assets:Investments:Stock  -5 STOCK @ 155.00 USD").unwrap();
    assert_eq!(*p.amount().unwrap().price().unwrap().number(), dec(15500, 2));
}

#[test]
fn parse_posting_with_cost_and_price() {
    let p = parse_posting("  Assets:Stock  10 STOCK {150.00 USD} @ 155.00 USD").unwrap();
    let a = p.amount().unwrap();
    assert!(a.has_cost());
    assert!(a.has_price());
}

#[test]
fn posting_needs_indentation() {
    assert!(parse_posting("Assets:Cash").is_err());
}

#[test]
fn posting_marshal_posting_with_amount() {
    let p = Posting::new(
        acc(AccountType::Assets, &["Cash"]),
        PostingAmount::new(Amount::new(dec(10050, 2), com("USD"))),
    );
    assert_eq!(marshal_posting(&p), "  Assets:Cash  100.50 USD");
}

#[test]
fn posting_marshal_posting_without_amount() {
    let p = Posting::new_without_amount(acc(AccountType::Expenses, &["Restaurant"]));
    assert_eq!(marshal_posting(&p), "  Expenses:Restaurant");
}

#[test]
fn posting_marshal_posting_negative_amount() {
    let p = Posting::new(
        acc(AccountType::Liabilities, &["CreditCard"]),
        PostingAmount::new(Amount::new(dec(-3745, 2), com("USD"))),
    );
    assert_eq!(marshal_posting(&p), "  Liabilities:CreditCard  -37.45 USD");
}

#[test]
fn posting_marshal_posting_zero_amount() {
    let p = Posting::new(
        acc(AccountType::Assets, &["Cash"]),
        PostingAmount::new(Amount::new(dec(0, 0), com("USD"))),
    );
    assert_eq!(marshal_posting(&p), "  Assets:Cash  0 USD");
}

#[test]
fn posting_marshal_posting_with_flag() {
    let p = Posting::new(
        acc(AccountType::Assets, &["Cash"]),
        PostingAmount::new(Amount::new(dec(100, 0), com("USD"))),
    )
    .with_flag(Flag::Incomplete);
    assert_eq!(marshal_posting(&p), "  ! Assets:Cash  100 USD");
}

#[test]
fn posting_marshal_posting_with_cost() {
    let p = Posting::new(
        acc(AccountType::Assets, &["Investments", "Stock"]),
        PostingAmount::new(Amount::new(dec(10, 0), com("STOCK")))
            .with_cost(Amount::new(dec(15000, 2), com("USD"))),
    );
    assert_eq!(marshal_posting(&p), "  Assets:Investments:Stock  10 STOCK {150.00 USD}");
}

#[test]
fn posting_marshal_posting_with_price() {
    let p = Posting::new(
        acc(AccountType::Assets, &["Investments", "Stock"]),
        PostingAmount::new(Amount::new(dec(-5, 0), com("STOCK")))
            .with_price(Amount::new(dec(15500, 2), com("USD"))),
    );
    assert_eq!(marshal_posting(&p), "  Assets:Investments:Stock  -5 STOCK @ 155.00 USD");
}

// ---- transactions ----

#[test]
fn parse_valid_transactions() {
    let cases: [(&str, Flag, Option<(Option<&str>, &str)>, usize); 6] = [
        ("* \"Cafe Mogador\" \"Lamb tagine with wine\"\n  Liabilities:CreditCard  -37.45 USD\n  Expenses:Restaurant", Flag::Complete, Some((Some("Cafe Mogador"), "Lamb tagine with wine")), 2),
        ("! \"Direct deposit\"\n  Assets:Checking  2500.00 USD\n  Income:Salary", Flag::Incomplete, Some((None, "Direct deposit")), 2),
        ("*\n  Assets:Cash  -20.00 USD\n  Expenses:Coffee  20.00 USD", Flag::Complete, None, 2),
        ("txn \"Grocery shopping\"\n  Assets:Cash  -45.50 USD\n  Expenses:Groceries", Flag::Complete, Some((None, "Grocery shopping")), 2),
        ("* \"Multi-way split\"\n  Assets:Checking  -100.00 USD\n  Expenses:Groceries  60.00 USD\n  Expenses:Gas  40.00 USD", Flag::Complete, Some((None, "Multi-way split")), 3),
        ("* \"Mixed postings\"\n  Assets:Cash  -50.00 USD\n  Expenses:Food  30.00 USD\n  Expenses:Tips", Flag::Complete, Some((None, "Mixed postings")), 3),
    ];
    for (input, flag, description, count) in cases {
        let t = parse_transaction_directive(input).unwrap();
        assert_eq!(t.flag(), &flag);
        match description {
            Some((payee, narration)) => {
                let d = t.description().unwrap();
                assert_eq!(d.payee(), payee);
                assert_eq!(d.narration(), narration);
            }
            None => assert!(t.description().is_none()),
        }
        assert_eq!(t.postings().len(), count);
    }
}

#[test]
fn transaction_needs_a_posting() {
    assert!(parse_transaction_directive("* \"No postings\"").is_err());
    assert!(parse_transaction_directive("*").is_err());
    let t = parse_transaction_directive("* \"One\"\n  Assets:Cash  1 USD").unwrap();
    assert_eq!(t.postings().len(), 1);
}

fn transaction_text(t: &DirectiveTransaction) -> String {
    marshal_transaction_directive(t)
}

#[test]
fn marshal_transaction_basic() {
    let t = DirectiveTransaction::new_with_description(
        Flag::Complete,
        TransactionDescription::new_with_payee("Cafe Mogador", "Lamb tagine with wine"),
    )
    .with_postings(vec![
        Posting::new(
            acc(AccountType::Liabilities, &["CreditCard"]),
            PostingAmount::new(Amount::new(dec(-3745, 2), com("USD"))),
        ),
        Posting::new_without_amount(acc(AccountType::Expenses, &["Restaurant"])),
    ]);
    assert_eq!(
        transaction_text(&t),
        "* \"Cafe Mogador\" \"Lamb tagine with wine\"\n  Liabilities:CreditCard  -37.45 USD\n  Expenses:Restaurant"
    );
}

#[test]
fn marshal_transaction_narration_only() {
    let t = DirectiveTransaction::new_with_description(
        Flag::Incomplete,
        TransactionDescription::new_without_payee("Direct deposit"),
    )
    .with_posting(Posting::new(
        acc(AccountType::Assets, &["Checking"]),
        PostingAmount::new(Amount::new(dec(250000, 2), com("USD"))),
    ))
    .with_posting(Posting::new_without_amount(acc(AccountType::Income, &["Salary"])));
    assert_eq!(
        transaction_text(&t),
        "! \"Direct deposit\"\n  Assets:Checking  2500.00 USD\n  Income:Salary"
    );
}

#[test]
fn marshal_transaction_no_payee_narration() {
    let mut t = DirectiveTransaction::new(Flag::Complete);
    t.add_posting(Posting::new(
        acc(AccountType::Assets, &["Cash"]),
        PostingAmount::new(Amount::new(dec(-2000, 2), com("USD"))),
    ));
    t.add_posting(Posting::new(
        acc(AccountType::Expenses, &["Coffee"]),
        PostingAmount::new(Amount::new(dec(2000, 2), com("USD"))),
    ));
    assert_eq!(transaction_text(&t), "*\n  Assets:Cash  -20.00 USD\n  Expenses:Coffee  20.00 USD");
}

#[test]
fn marshal_transaction_multiple_postings() {
    let t = DirectiveTransaction::new_with_description(
        Flag::Complete,
        TransactionDescription::new_without_payee("Multi-way split"),
    )
    .with_postings(vec![
        Posting::new(acc(AccountType::Assets, &["Checking"]), PostingAmount::new(Amount::new(dec(-10000, 2), com("USD")))),
        Posting::new(acc(AccountType::Expenses, &["Groceries"]), PostingAmount::new(Amount::new(dec(6000, 2), com("USD")))),
        Posting::new(acc(AccountType::Expenses, &["Gas"]), PostingAmount::new(Amount::new(dec(4000, 2), com("USD")))),
    ]);
    assert_eq!(
        transaction_text(&t),
        "* \"Multi-way split\"\n  Assets:Checking  -100.00 USD\n  Expenses:Groceries  60.00 USD\n  Expenses:Gas  40.00 USD"
    );
}

#[test]
fn marshal_transaction_mixed_amounts_and_empty() {
    let t = DirectiveTransaction::new_with_description(
        Flag::Complete,
        TransactionDescription::new_without_payee("Mixed postings"),
    )
    .with_postings(vec![
        Posting::new(acc(AccountType::Assets, &["Cash"]), PostingAmount::new(Amount::new(dec(-5000, 2), com("USD")))),
        Posting::new(acc(AccountType::Expenses, &["Food"]), PostingAmount::new(Amount::new(dec(3000, 2), com("USD")))),
        Posting::new_without_amount(acc(AccountType::Expenses, &["Tips"])),
    ]);
    assert_eq!(
        transaction_text(&t),
        "* \"Mixed postings\"\n  Assets:Cash  -50.00 USD\n  Expenses:Food  30.00 USD\n  Expenses:Tips"
    );
}

#[test]
fn marshal_transaction_with_cost() {
    let t = DirectiveTransaction::new_with_description(
        Flag::Complete,
        TransactionDescription::new_without_payee("Buy stocks"),
    )
    .with_postings(vec![
        Posting::new(
            acc(AccountType::Assets, &["Investments", "Stock"]),
            PostingAmount::new(Amount::new(dec(10, 0), com("STOCK"))).with_cost(Amount::new(dec(15000, 2), com("USD"))),
        ),
        Posting::new(acc(AccountType::Assets, &["Cash"]), PostingAmount::new(Amount::new(dec(-150000, 2), com("USD")))),
    ]);
    let text = transaction_text(&t);
    assert_eq!(
        text,
        "* \"Buy stocks\"\n  Assets:Investments:Stock  10 STOCK {150.00 USD}\n  Assets:Cash  -1500.00 USD"
    );
    assert_eq!(parse_transaction_directive(&text).unwrap(), t);
}

#[test]
fn marshal_transaction_with_price() {
    let t = DirectiveTransaction::new_with_description(
        Flag::Complete,
        TransactionDescription::new_without_payee("Sell stocks"),
    )
    .with_postings(vec![
        Posting::new(
            acc(AccountType::Assets, &["Investments", "Stock"]),
            PostingAmount::new(Amount::new(dec(-5, 0), com("STOCK"))).with_price(Amount::new(dec(15500, 2), com("USD"))),
        ),
        Posting::new(acc(AccountType::Assets, &["Cash"]), PostingAmount::new(Amount::new(dec(77500, 2), com("USD")))),
    ]);
    let text = transaction_text(&t);
    assert_eq!(
        text,
        "* \"Sell stocks\"\n  Assets:Investments:Stock  -5 STOCK @ 155.00 USD\n  Assets:Cash  775.00 USD"
    );
    assert_eq!(parse_transaction_directive(&text).unwrap(), t);
}

#[test]
fn marshal_transaction_with_cost_and_price() {
    let t = DirectiveTransaction::new_with_description(
        Flag::Complete,
        TransactionDescription::new_without_payee("Buy stocks"),
    )
    .with_postings(vec![
        Posting::new(
            acc(AccountType::Assets, &["Investments", "Stock"]),
            PostingAmount::new(Amount::new(dec(10, 0), com("STOCK")))
                .with_cost(Amount::new(dec(15000, 2), com("USD")))
                .with_price(Amount::new(dec(15500, 2), com("USD"))),
        ),
        Posting::new(acc(AccountType::Assets, &["Cash"]), PostingAmount::new(Amount::new(dec(-150000, 2), com("USD")))),
    ]);
    let text = transaction_text(&t);
    assert_eq!(
        text,
        "* \"Buy stocks\"\n  Assets:Investments:Stock  10 STOCK {150.00 USD} @ 155.00 USD\n  Assets:Cash  -1500.00 USD"
    );
    assert_eq!(parse_transaction_directive(&text).unwrap(), t);
}

// ---- open and balance ----

#[test]
fn marshal_open_directive_no_commodities() {
    let o = DirectiveOpen::new(acc(AccountType::Assets, &["Cash"]), vec![]);
    assert_eq!(marshal_open_directive(&o), "open Assets:Cash");
}

#[test]
fn marshal_open_directive_with_commodities() {
    let o = DirectiveOpen::new(
        acc(AccountType::Assets, &["Investment"]),
        vec![com("USD"), com("EUR"), com("GBP"), com("EUR")],
    );
    assert_eq!(o.commodity_constraints().len(), 3);
    assert_eq!(marshal_open_directive(&o), "open Assets:Investment EUR,GBP,USD");
}

#[test]
fn parse_open_directive_padding() {
    let o = parse_open_directive("open   Assets:Cash   USD ,  EUR").unwrap();
    assert_eq!(marshal_open_directive(&o), "open Assets:Cash EUR,USD");
    assert!(parse_open_directive("openAssets:Cash").is_err());
}

#[test]
fn marshal_balance_directive_basic() {
    let b = parse_balance_directive("balance Assets:Checking 1000.50 USD").unwrap();
    assert_eq!(marshal_balance_directive(&b), "balance Assets:Checking 1000.50 USD");
}

#[test]
fn marshal_balance_directive_negative() {
    let b = parse_balance_directive("balance Liabilities:CreditCard -3492.02 USD").unwrap();
    assert_eq!(*b.amount_with_tolerance().number(), dec(-349202, 2));
    assert_eq!(marshal_balance_directive(&b), "balance Liabilities:CreditCard -3492.02 USD");
}

#[test]
fn marshal_balance_directive_with_tolerance() {
    let b = parse_balance_directive("balance Assets:Investment 319.020 ~ 0.002 RGAGX").unwrap();
    assert_eq!(b.amount_with_tolerance().tolerance(), Some(&dec(2, 3)));
    assert_eq!(marshal_balance_directive(&b), "balance Assets:Investment 319.020 ~ 0.002 RGAGX");
}

#[test]
fn marshal_balance_directive_zero() {
    let b = parse_balance_directive("balance Assets:Cash 0 USD").unwrap();
    assert_eq!(marshal_balance_directive(&b), "balance Assets:Cash 0 USD");
}

// ---- directives ----

const VALID_DIRECTIVES: [&str; 15] = [
    "2024-01-01 open Assets:Cash",
    "2024-12-31 open Liabilities:CreditCard:CapitalOne",
    "2023-05-15 open Assets:Checking USD",
    "2024-03-20 open Assets:Investment EUR,USD",
    "2022-11-08 open Assets:Crypto BTC,ETH,USDC",
    "2024-01-01 open Expenses:Food",
    "2024-06-15 open Income:Salary",
    "2024-01-01 open Equity:Opening-Balances",
    "2024-12-26 balance Liabilities:CreditCard -3492.02 USD",
    "2024-01-01 balance Assets:Checking 1000.50 USD",
    "2023-09-20 balance Assets:Investment 319.020 ~ 0.002 RGAGX",
    "2024-06-30 balance Assets:Cash 0 USD",
    "2024-01-15 * \"Cafe Mogador\" \"Lamb tagine with wine\"\n  Liabilities:CreditCard  -37.45 USD\n  Expenses:Restaurant",
    "2024-02-01 ! \"Direct deposit\"\n  Assets:Checking  2500.00 USD\n  Income:Salary",
    "2024-03-10 *\n  Assets:Cash  -20.00 USD\n  Expenses:Coffee  20.00 USD",
];

#[test]
fn parse_directive_valid() {
    for input in VALID_DIRECTIVES {
        assert!(parse_directive(input).is_ok(), "{}", input);
    }
}

#[test]
fn canonical_directives_round_trip() {
    for input in VALID_DIRECTIVES {
        let d = parse_directive(input).unwrap();
        let text = marshal_directive(&d);
        assert_eq!(text, input);
        assert_eq!(parse_directive(&text).unwrap(), d);
    }
}

#[test]
fn non_canonical_directives_settle_after_one_pass() {
    for input in [
        "2024/03/20   open Assets:Investment USD , EUR",
        "2024-01-01\tbalance  Assets:Cash\t+5.0   USD",
        "2024-01-15 txn \"Narration\"\n\tAssets:Cash\t\t-1 USD {2 EUR} @ 3 GBP\n  Expenses:Food",
    ] {
        let first = parse_directive(input).unwrap();
        let text = marshal_directive(&first);
        let second = parse_directive(&text).unwrap();
        assert_eq!(first, second);
        assert_eq!(marshal_directive(&second), text);
    }
}

#[test]
fn parse_directive_basic_open() {
    let d = parse_directive("2024-01-01 open Assets:Cash").unwrap();
    assert_eq!(d.date(), &Date::new(2024, 1, 1).unwrap());
    let open = d.as_open().unwrap();
    assert_eq!(texts(open.account()), ["Cash"]);
    assert_eq!(open.commodity_constraints().len(), 0);
}

#[test]
fn parse_directive_open_with_commodities() {
    let d = parse_directive("2024-03-15 open Assets:Investment USD,EUR,GBP").unwrap();
    assert_eq!(d.date(), &Date::new(2024, 3, 15).unwrap());
    let open = d.as_open().unwrap();
    let codes: Vec<&str> = open.commodity_constraints().iter().map(|c| c.as_str()).collect();
    assert_eq!(codes, ["EUR", "GBP", "USD"]);
}

#[test]
fn commodity_order_is_deterministic() {
    let d = parse_directive("2024-03-15 open Assets:Investment USD,EUR,GBP").unwrap();
    assert_eq!(marshal_directive(&d), "2024-03-15 open Assets:Investment EUR,GBP,USD");
    let o = parse_open_directive("open Assets:Investment USD,EUR,GBP").unwrap();
    assert_eq!(marshal_open_directive(&o), "open Assets:Investment EUR,GBP,USD");
}

#[test]
fn parse_directive_complex_account() {
    let d = parse_directive("2023-12-31 open Liabilities:CreditCard:CapitalOne:Rewards USD").unwrap();
    let open = d.as_open().unwrap();
    assert_eq!(texts(open.account()), ["CreditCard", "CapitalOne", "Rewards"]);
    assert_eq!(open.commodity_constraints().len(), 1);
}

#[test]
fn marshal_directive_basic_open() {
    let open = DirectiveOpen::new(acc(AccountType::Assets, &["Cash"]), vec![]);
    let d = Directive::new_open(Date::new(2024, 1, 1).unwrap(), open);
    assert_eq!(marshal_directive(&d), "2024-01-01 open Assets:Cash");
}

#[test]
fn marshal_directive_open_with_commodities() {
    let open = DirectiveOpen::new(
        acc(AccountType::Assets, &["Investment"]),
        vec![com("USD"), com("EUR"), com("GBP")],
    );
    let d = Directive::new_open(Date::new(2024, 6, 15).unwrap(), open);
    assert_eq!(marshal_directive(&d), "2024-06-15 open Assets:Investment EUR,GBP,USD");
}

#[test]
fn parse_directive_content_open() {
    let s = chars_of("open Assets:Cash USD");
    match scan_directive_content(&s, 0).unwrap().0 {
        DirectiveVariant::Open(open) => {
            assert_eq!(texts(open.account()), ["Cash"]);
            assert_eq!(open.commodity_constraints().len(), 1);
        }
        _ => panic!("Expected Open directive"),
    }
}

#[test]
fn marshal_directive_content_open() {
    let open = DirectiveOpen::new(acc(AccountType::Assets, &["Checking"]), vec![com("USD")]);
    assert_eq!(marshal_open_directive(&open), "open Assets:Checking USD");
}

#[test]
fn parse_directive_multiple_spaces() {
    let d = parse_directive("2024-01-01    open Assets:Cash").unwrap();
    assert_eq!(d.date(), &Date::new(2024, 1, 1).unwrap());
    assert!(d.as_open().is_some());
}

#[test]
fn parse_directive_invalid_missing_space() {
    assert!(parse_directive("2024-01-01open Assets:Cash").is_err());
}

#[test]
fn parse_directive_invalid_date() {
    assert!(parse_directive("2024-13-01 open Assets:Cash").is_err());
}

#[test]
fn parse_directive_content_balance() {
    let s = chars_of("balance Assets:Checking 1000.50 USD");
    match scan_directive_content(&s, 0).unwrap().0 {
        DirectiveVariant::Balance(balance) => {
            assert_eq!(texts(balance.account()), ["Checking"]);
            assert_eq!(*balance.amount_with_tolerance().number(), dec(100050, 2));
            assert_eq!(balance.amount_with_tolerance().commodity().as_str(), "USD");
            assert_eq!(balance.amount_with_tolerance().tolerance(), None);
        }
        _ => panic!("Expected Balance directive"),
    }
}

#[test]
fn parse_directive_balance_with_date() {
    let d = parse_directive("2024-12-26 balance Liabilities:CreditCard -3492.02 USD").unwrap();
    assert_eq!(d.date(), &Date::new(2024, 12, 26).unwrap());
    let balance = d.as_balance().unwrap();
    assert_eq!(texts(balance.account()), ["CreditCard"]);
    assert_eq!(*balance.amount_with_tolerance().number(), dec(-349202, 2));
    assert_eq!(balance.amount_with_tolerance().commodity().as_str(), "USD");
}

#[test]
fn balance_with_tolerance_scenario() {
    let input = "2023-09-20 balance Assets:Investment 319.020 ~ 0.002 RGAGX";
    let d = parse_directive(input).unwrap();
    assert_eq!(d.date(), &Date::new(2023, 9, 20).unwrap());
    let b = d.as_balance().unwrap();
    assert_eq!(b.account().account_type(), AccountType::Assets);
    assert_eq!(texts(b.account()), ["Investment"]);
    assert_eq!(*b.amount_with_tolerance().number(), dec(319020, 3));
    assert_eq!(b.amount_with_tolerance().tolerance(), Some(&dec(2, 3)));
    assert_eq!(b.amount_with_tolerance().commodity().as_str(), "RGAGX");
    assert_eq!(marshal_directive(&d), input);
}

#[test]
fn transaction_round_trip_scenario() {
    let input = "2024-01-15 * \"Cafe Mogador\" \"Lamb tagine with wine\"\n  Liabilities:CreditCard  -37.45 USD\n  Expenses:Restaurant";
    let d = parse_directive(input).unwrap();
    let t = d.as_transaction().unwrap();
    assert_eq!(t.postings().len(), 2);
    assert!(t.postings()[0].has_amount());
    assert!(!t.postings()[1].has_amount());
    assert_eq!(marshal_directive(&d), input);
}

#[test]
fn transaction_directive_needs_postings() {
    assert!(parse_directive("2024-01-15 * \"Nothing\"").is_err());
    assert!(parse_directive("2024-01-15 * \"One\"\n  Assets:Cash").is_ok());
}

#[test]
fn directive_accessors() {
    let d = parse_directive("2024-01-15 txn\n  Assets:Cash").unwrap();
    assert!(d.as_open().is_none());
    assert!(d.as_balance().is_none());
    assert_eq!(*d.as_transaction().unwrap().flag(), Flag::Complete);
    let t = d.clone().into_transaction().unwrap();
    assert_eq!(t.postings().len(), 1);
    assert!(d.clone().into_open().is_none());
    assert!(d.into_balance().is_none());
}

#[test]
fn directive_with_other_flag() {
    let d = parse_directive("2024-01-15 ? \"Check\"\n  Assets:Cash").unwrap();
    assert_eq!(*d.as_transaction().unwrap().flag(), Flag::Other('?'));
    assert_eq!(marshal_directive(&d), "2024-01-15 ? \"Check\"\n  Assets:Cash");
}

#[test]
fn commodity_list_is_a_set() {
    let list = parse_commodity_list("USD,EUR,USD").unwrap();
    let codes: Vec<&str> = list.iter().map(|c| c.as_str()).collect();
    assert_eq!(codes, ["EUR", "USD"]);
}

#[test]
fn invalid_date_messages_name_the_date() {
    for input in ["2023-02-29", "2023-04-31", "2023/13/01", "2023-01-00"] {
        let e = parse_date(input).unwrap_err();
        assert_eq!((e.start, e.end, e.kind), (0, 10, ParseErrorKind::InvalidDate));
        assert_eq!(e.message(input), format!("{} is not a valid date", input));
    }
    let e = parse_date("-2023-02-29").unwrap_err();
    assert_eq!((e.start, e.end), (0, 11));
    assert_eq!(e.message("-2023-02-29"), "-2023-02-29 is not a valid date");
}

#[test]
fn malformed_dates_name_what_was_expected() {
    let cases = [
        ("2023.01.01", Expected::DateSeparator, 4),
        ("20230101", Expected::DateSeparator, 4),
        ("2023", Expected::DateSeparator, 4),
        ("2023-cd-01", Expected::TwoDigitMonth, 5),
        ("2023/cd/01", Expected::TwoDigitMonth, 5),
        ("2023-01-bc", Expected::TwoDigitDay, 8),
        ("2023-01", Expected::Symbol('-'), 7),
        ("2023/01-01", Expected::Symbol('/'), 7),
        ("", Expected::FourDigitYear, 0),
        ("not-a-date", Expected::FourDigitYear, 0),
        ("abcd/01/01", Expected::FourDigitYear, 0),
        ("01-01-2023", Expected::FourDigitYear, 2),
    ];
    for (input, expected, at) in cases {
        let e = parse_date(input).unwrap_err();
        assert_eq!((e.kind, e.start, e.end), (ParseErrorKind::Expected(expected), at, at), "{}", input);
    }
    let e = parse_date("2023-1-01").unwrap_err();
    assert_eq!(e.message("2023-1-01"), "expected a two digit month");
}

#[test]
fn account_error_messages() {
    let e = parse_account("assets:Cash").unwrap_err();
    assert_eq!(
        e.message("assets:Cash"),
        "Account component must start with an uppercase letter or a number"
    );
    let e = parse_account("InvalidType:Cash").unwrap_err();
    assert_eq!((e.start, e.end, e.kind), (0, 11, ParseErrorKind::UnknownAccountType));
    assert_eq!(
        e.message("InvalidType:Cash"),
        "Expected Assets, Liabilities, Income, Expenses or Equity"
    );
}

#[test]
fn account_component_errors() {
    let cases = [
        ("Assets:cash", 7, 11, InvalidAccountComponentError::InvalidStart),
        ("Assets:Cash_Money", 7, 17, InvalidAccountComponentError::InvalidCharacter),
        ("Assets:", 7, 7, InvalidAccountComponentError::Empty),
        ("Assets::Valid", 7, 7, InvalidAccountComponentError::Empty),
    ];
    for (input, start, end, kind) in cases {
        let e = parse_account(input).unwrap_err();
        assert_eq!((e.start, e.end, e.kind), (start, end, ParseErrorKind::InvalidAccountComponent(kind)), "{}", input);
    }
    let e = parse_account("Assets:cash").unwrap_err();
    assert_eq!(
        e.message("Assets:cash"),
        "Account component must start with an uppercase letter or a number"
    );
}

#[test]
fn a_quote_flag_reads_back() {
    let input = "2024-01-01 * \"Narration\"\n  \" Assets:Cash  1 USD";
    let d = parse_directive(input).unwrap();
    assert_eq!(d.as_transaction().unwrap().postings()[0].flag(), Some(Flag::Other('"')));
    assert_eq!(marshal_directive(&d), input);
    assert_eq!(parse_directive(&marshal_directive(&d)).unwrap(), d);
}
