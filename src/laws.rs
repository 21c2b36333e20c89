//! What holds between the grammar and the marshaller: canonical text reads
//! back as the value it was written from.
use vstd::prelude::*;
use crate::account::{AccountType, AccountView, is_valid_component, valid_account};
use crate::amount::{AmountView, AmountWithToleranceView, PostingAmountView, tolerance_ok};
use crate::commodity::{is_valid_commodity, lemma_canonical_order, strictly_ascending};
use crate::date::{Date, valid_date};
use crate::decimal::{
    Decimal, all_digits, decimal_text, digit_char, digit_value, digits_of, digits_value, is_digit,
    magnitude, padded_digits, pow10, unsigned_decimal_text, valid_decimal, zeros,
};
use crate::directive::{
    DirectiveBalanceView, DirectiveOpenView, DirectiveTransactionView, DirectiveVariantView,
    DirectiveView, PostingView, TransactionDescriptionView, flag_char, flag_of, valid_flag,
};
use crate::grammar::{
    is_blank, lemma_digits_value_bound, lemma_pow10_mono,
    account_type_name, account_type_of, digits_end, ends_token, fixed_digits, lemma_pow10_28,
    sp_account, sp_amount, sp_amount_with_tolerance, sp_balance, sp_commodity, sp_commodity_list,
    sp_commodity_rest, sp_component, sp_components, sp_cost, sp_date, sp_decimal, sp_description,
    sp_directive, sp_directive_content, sp_flag_ws, sp_open, sp_open_parts, sp_posting,
    sp_posting_amount, sp_postings, sp_price, sp_quoted, sp_quoted_rest, sp_tolerance,
    sp_transaction, sp_transaction_flag, sp_unsigned_decimal, token_end, ws1, ws_end,
};
use crate::marshal::{
    account_text, amount_text, amount_with_tolerance_text, balance_text, components_text,
    content_text, cost_part, date_text, description_part, description_text, directive_text,
    escaped, escaped_char, flag_part, join_commas, open_text, posting_amount_part,
    posting_amount_text, posting_text, postings_text, price_part, quoted_text, transaction_text,
};
use crate::text::is_white_space;

verus! {

/// `t` stands in `s` from position `i`.
pub open spec fn at(s: Seq<char>, i: int, t: Seq<char>) -> bool {
    0 <= i && i + t.len() <= s.len() && s.subrange(i, i + t.len()) == t
}

pub proof fn lemma_at_index(s: Seq<char>, i: int, t: Seq<char>, k: int)
    requires
        at(s, i, t),
        0 <= k < t.len(),
    ensures
        s[i + k] == t[k],
{
    assert(s.subrange(i, i + t.len())[k] == s[i + k]);
}

pub proof fn lemma_at_split(s: Seq<char>, i: int, a: Seq<char>, b: Seq<char>)
    requires
        at(s, i, a + b),
    ensures
        at(s, i, a),
        at(s, i + a.len(), b),
{
    assert forall|k: int| 0 <= k < a.len() implies s.subrange(i, i + a.len())[k] == a[k] by {
        lemma_at_index(s, i, a + b, k);
    }
    assert(s.subrange(i, i + a.len()) =~= a);
    assert forall|k: int| 0 <= k < b.len() implies s.subrange(i + a.len(), i + a.len() + b.len())[k]
        == b[k] by {
        lemma_at_index(s, i, a + b, a.len() + k);
    }
    assert(s.subrange(i + a.len(), i + a.len() + b.len()) =~= b);
}

pub proof fn lemma_at_whole(t: Seq<char>)
    ensures
        at(t, 0, t),
{
    assert(t.subrange(0, t.len() as int) =~= t);
}

// ---- quoted strings ----

proof fn lemma_quoted_rest_at(s: Seq<char>, i: int, t: Seq<char>)
    requires
        at(s, i, escaped(t) + seq!['"']),
    ensures
        sp_quoted_rest(s, i) == Some((t, i + escaped(t).len() + 1)),
    decreases t.len(),
{
    if t.len() == 0 {
        lemma_at_index(s, i, escaped(t) + seq!['"'], 0);
    } else {
        let c = t[0];
        let rest = escaped(t.drop_first()) + seq!['"'];
        assert(escaped(t) + seq!['"'] =~= escaped_char(c) + rest);
        lemma_at_split(s, i, escaped_char(c), rest);
        lemma_quoted_rest_at(s, i + escaped_char(c).len(), t.drop_first());
        if c == '"' || c == '\\' {
            lemma_at_index(s, i, escaped_char(c), 0);
            lemma_at_index(s, i, escaped_char(c), 1);
        } else {
            lemma_at_index(s, i, escaped_char(c), 0);
        }
        assert(seq![c] + t.drop_first() =~= t);
    }
}

/// A quoted string reads back as its text wherever it stands.
pub proof fn lemma_quoted_at(s: Seq<char>, i: int, t: Seq<char>)
    requires
        at(s, i, quoted_text(t)),
    ensures
        sp_quoted(s, i) == Some((t, i + quoted_text(t).len())),
{
    assert(quoted_text(t) =~= seq!['"'] + (escaped(t) + seq!['"']));
    lemma_at_split(s, i, seq!['"'], escaped(t) + seq!['"']);
    lemma_at_index(s, i, seq!['"'], 0);
    lemma_quoted_rest_at(s, i + 1, t);
}

/// Any text, quoted, reads back as itself.
pub proof fn lemma_quoted_round_trip(t: Seq<char>)
    ensures
        sp_quoted(quoted_text(t), 0) == Some((t, quoted_text(t).len() as int)),
{
    lemma_at_whole(quoted_text(t));
    lemma_quoted_at(quoted_text(t), 0, t);
}

// ---- numbers ----

proof fn lemma_digit_char(d: nat)
    requires
        d < 10,
    ensures
        digit_value(digit_char(d)) == d,
        is_digit(digit_char(d)),
{
}

proof fn lemma_digits_of_all_digits(n: nat)
    ensures
        all_digits(digits_of(n)),
        digits_of(n).len() >= 1,
    decreases n,
{
    if n < 10 {
        lemma_digit_char(n);
    } else {
        lemma_digits_of_all_digits(n / 10);
        lemma_digit_char(n % 10);
        assert forall|q: int| 0 <= q < digits_of(n).len() implies is_digit(#[trigger] digits_of(n)[q]) by {
            if q < digits_of(n / 10).len() {
                assert(digits_of(n)[q] == digits_of(n / 10)[q]);
            }
        }
    }
}

proof fn lemma_digits_value_of(n: nat)
    ensures
        digits_value(digits_of(n)) == n,
    decreases n,
{
    if n < 10 {
        lemma_digit_char(n);
        assert(digits_of(n).drop_last() =~= seq![]);
        assert(digits_value(digits_of(n).drop_last()) == 0);
        assert(digits_of(n).last() == digit_char(n));
    } else {
        lemma_digits_value_of(n / 10);
        lemma_digit_char(n % 10);
        assert(digits_of(n).drop_last() =~= digits_of(n / 10));
        assert(digits_of(n).last() == digit_char(n % 10));
        assert(n == (n / 10) * 10 + n % 10) by (nonlinear_arith);
    }
}

proof fn lemma_zeros_value(k: nat, t: Seq<char>)
    ensures
        digits_value(zeros(k) + t) == digits_value(t),
    decreases t.len(), k,
{
    if t.len() == 0 {
        assert(zeros(k) + t =~= zeros(k));
        if k > 0 {
            assert(zeros(k).drop_last() =~= zeros((k - 1) as nat));
            lemma_zeros_value((k - 1) as nat, t);
            assert(zeros((k - 1) as nat) + t =~= zeros((k - 1) as nat));
        }
    } else {
        assert((zeros(k) + t).drop_last() =~= zeros(k) + t.drop_last());
        lemma_zeros_value(k, t.drop_last());
    }
}

proof fn lemma_digits_of_len(n: nat, k: nat)
    requires
        n < pow10(k),
        k >= 1,
    ensures
        digits_of(n).len() <= k,
    decreases n,
{
    if n >= 10 {
        if k == 1 {
            assert(pow10(1) == 10) by {
                reveal_with_fuel(pow10, 2);
            }
        }
        let k1 = (k - 1) as nat;
        assert(pow10(k) == 10 * pow10(k1));
        assert(n / 10 < pow10(k1)) by (nonlinear_arith)
            requires
                n < 10 * pow10(k1),
        ;
        lemma_digits_of_len(n / 10, k1);
    }
}

proof fn lemma_padded_digits(n: nat, w: nat)
    ensures
        all_digits(padded_digits(n, w)),
        digits_value(padded_digits(n, w)) == n,
        padded_digits(n, w).len() >= w,
        padded_digits(n, w).len() >= 1,
        padded_digits(n, w).len() == if digits_of(n).len() >= w {
            digits_of(n).len()
        } else {
            w
        },
{
    lemma_digits_of_all_digits(n);
    lemma_digits_value_of(n);
    if digits_of(n).len() < w {
        let k = (w - digits_of(n).len()) as nat;
        lemma_zeros_value(k, digits_of(n));
        assert forall|q: int| 0 <= q < padded_digits(n, w).len() implies is_digit(
            #[trigger] padded_digits(n, w)[q],
        ) by {
            if q >= k {
                assert(padded_digits(n, w)[q] == digits_of(n)[q - k]);
            }
        }
    }
}

proof fn lemma_digits_run(s: Seq<char>, i: int, t: Seq<char>)
    requires
        at(s, i, t),
        all_digits(t),
        i + t.len() == s.len() || !is_digit(s[i + t.len()]),
    ensures
        digits_end(s, i) == i + t.len(),
    decreases t.len(),
{
    if t.len() > 0 {
        lemma_at_index(s, i, t, 0);
        assert(t =~= seq![t[0]] + t.drop_first());
        lemma_at_split(s, i, seq![t[0]], t.drop_first());
        lemma_digits_run(s, i + 1, t.drop_first());
    }
}

proof fn lemma_all_digits_split(t: Seq<char>, p: int)
    requires
        all_digits(t),
        0 <= p <= t.len(),
    ensures
        all_digits(t.take(p)),
        all_digits(t.skip(p)),
{
    assert forall|q: int| 0 <= q < t.take(p).len() implies is_digit(#[trigger] t.take(p)[q]) by {
        assert(t.take(p)[q] == t[q]);
    }
    assert forall|q: int| 0 <= q < t.skip(p).len() implies is_digit(#[trigger] t.skip(p)[q]) by {
        assert(t.skip(p)[q] == t[q + p]);
    }
}

/// What may follow a number without running into it: the end, or a
/// character that is neither a digit nor a point.
pub open spec fn ends_number(s: Seq<char>, j: int) -> bool {
    j == s.len() || (0 <= j < s.len() && !is_digit(s[j]) && s[j] != '.')
}

#[verifier::rlimit(100)]
proof fn lemma_unsigned_decimal_at(s: Seq<char>, i: int, d: Decimal)
    requires
        valid_decimal(d),
        at(s, i, unsigned_decimal_text(d)),
        ends_number(s, i + unsigned_decimal_text(d).len()),
    ensures
        sp_unsigned_decimal(s, i) == Some(
            (
                Decimal { mantissa: magnitude(d.mantissa as int) as i128, scale: d.scale },
                i + unsigned_decimal_text(d).len(),
            ),
        ),
        unsigned_decimal_text(d).len() >= 1,
        is_digit(s[i]),
{
    let n = magnitude(d.mantissa as int);
    let w = (d.scale + 1) as nat;
    let body = padded_digits(n, w);
    let sc = d.scale as int;
    lemma_padded_digits(n, w);
    assert(n < pow10(28)) by {
        lemma_pow10_28();
    }
    lemma_digits_of_len(n, 28);
    assert(body.len() <= 28);
    let p = body.len() - sc;
    lemma_all_digits_split(body, p);
    let t = unsigned_decimal_text(d);
    if sc == 0 {
        assert(t == body);
        lemma_digits_run(s, i, body);
        lemma_at_index(s, i, body, 0);
        assert(body + seq![] =~= body);
    } else {
        assert(t == body.take(p) + seq!['.'] + body.skip(p));
        assert(t =~= body.take(p) + (seq!['.'] + body.skip(p)));
        lemma_at_split(s, i, body.take(p), seq!['.'] + body.skip(p));
        lemma_at_split(s, i + p, seq!['.'], body.skip(p));
        lemma_at_index(s, i + p, seq!['.'], 0);
        lemma_digits_run(s, i, body.take(p));
        lemma_digits_run(s, i + p + 1, body.skip(p));
        lemma_at_index(s, i, body.take(p), 0);
        assert(s.subrange(i + p + 1, digits_end(s, i + p + 1)) == body.skip(p));
        assert(s.subrange(i, i + p) == body.take(p));
        assert(body.take(p) + body.skip(p) =~= body);
    }
}

/// A number reads back as itself wherever it stands, when what follows does
/// not run into it.
pub proof fn lemma_decimal_at(s: Seq<char>, i: int, d: Decimal)
    requires
        valid_decimal(d),
        at(s, i, decimal_text(d)),
        ends_number(s, i + decimal_text(d).len()),
    ensures
        sp_decimal(s, i) == Some((d, i + decimal_text(d).len())),
{
    let u = unsigned_decimal_text(d);
    if d.mantissa < 0 {
        lemma_at_split(s, i, seq!['-'], u);
        lemma_at_index(s, i, seq!['-'], 0);
        lemma_unsigned_decimal_at(s, i + 1, d);
    } else {
        lemma_unsigned_decimal_at(s, i, d);
    }
}

/// Any number within bounds, written out, reads back as itself.
pub proof fn lemma_decimal_round_trip(d: Decimal)
    requires
        valid_decimal(d),
    ensures
        sp_decimal(decimal_text(d), 0) == Some((d, decimal_text(d).len() as int)),
{
    lemma_at_whole(decimal_text(d));
    lemma_decimal_at(decimal_text(d), 0, d);
}

// ---- dates ----

proof fn lemma_fixed_digits_at(s: Seq<char>, j: int, n: nat, w: nat)
    requires
        at(s, j, padded_digits(n, w)),
        padded_digits(n, w).len() == w,
    ensures
        fixed_digits(s, j, w as int) == Some(n),
{
    lemma_padded_digits(n, w);
}

/// A date reads back as itself wherever it stands.
#[verifier::rlimit(100)]
pub proof fn lemma_date_at(s: Seq<char>, i: int, d: Date)
    requires
        valid_date(d),
        at(s, i, date_text(d)),
    ensures
        sp_date(s, i) == Some((d, i + date_text(d).len())),
{
    let y = magnitude(d.year as int);
    let sign: Seq<char> = if d.year < 0 {
        seq!['-']
    } else {
        seq![]
    };
    let ys = padded_digits(y, 4);
    let ms = padded_digits(d.month as nat, 2);
    let ds = padded_digits(d.day as nat, 2);
    reveal_with_fuel(pow10, 5);
    lemma_padded_digits(y, 4);
    lemma_padded_digits(d.month as nat, 2);
    lemma_padded_digits(d.day as nat, 2);
    lemma_digits_of_len(y, 4);
    lemma_digits_of_len(d.month as nat, 2);
    lemma_digits_of_len(d.day as nat, 2);
    let j = i + sign.len();
    assert(date_text(d) =~= sign + (ys + (seq!['-'] + (ms + (seq!['-'] + ds)))));
    lemma_at_split(s, i, sign, ys + (seq!['-'] + (ms + (seq!['-'] + ds))));
    lemma_at_split(s, j, ys, seq!['-'] + (ms + (seq!['-'] + ds)));
    lemma_at_split(s, j + 4, seq!['-'], ms + (seq!['-'] + ds));
    lemma_at_split(s, j + 5, ms, seq!['-'] + ds);
    lemma_at_split(s, j + 7, seq!['-'], ds);
    lemma_at_index(s, j + 4, seq!['-'], 0);
    lemma_at_index(s, j + 7, seq!['-'], 0);
    lemma_fixed_digits_at(s, j, y, 4);
    lemma_fixed_digits_at(s, j + 5, d.month as nat, 2);
    lemma_fixed_digits_at(s, j + 8, d.day as nat, 2);
    lemma_at_index(s, j, ys, 0);
    if d.year < 0 {
        lemma_at_index(s, i, sign, 0);
    }
}

// ---- tokens, accounts and commodities ----

proof fn lemma_token_run(s: Seq<char>, i: int, t: Seq<char>, a: char, b: char)
    requires
        at(s, i, t),
        forall|k: int| 0 <= k < t.len() ==> !ends_token(#[trigger] t[k], a, b),
        i + t.len() == s.len() || ends_token(s[i + t.len()], a, b),
    ensures
        token_end(s, i, a, b) == i + t.len(),
    decreases t.len(),
{
    if t.len() > 0 {
        lemma_at_index(s, i, t, 0);
        assert(t =~= seq![t[0]] + t.drop_first());
        lemma_at_split(s, i, seq![t[0]], t.drop_first());
        assert forall|k: int| 0 <= k < t.drop_first().len() implies !ends_token(
            #[trigger] t.drop_first()[k],
            a,
            b,
        ) by {
            assert(t.drop_first()[k] == t[k + 1]);
        }
        lemma_token_run(s, i + 1, t.drop_first(), a, b);
    }
}

proof fn lemma_component_chars(c: Seq<char>)
    requires
        is_valid_component(c),
    ensures
        forall|k: int| 0 <= k < c.len() ==> !ends_token(#[trigger] c[k], ':', ':'),
        c.len() >= 1,
{
    assert forall|k: int| 0 <= k < c.len() implies !ends_token(#[trigger] c[k], ':', ':') by {
        if k > 0 {
            assert(crate::account::component_char_ok(c[k]));
        }
    }
}

proof fn lemma_component_at(s: Seq<char>, i: int, c: Seq<char>)
    requires
        is_valid_component(c),
        at(s, i, c),
        i + c.len() == s.len() || ends_token(s[i + c.len()], ':', ':'),
    ensures
        sp_component(s, i) == Some((c, i + c.len())),
{
    lemma_component_chars(c);
    lemma_token_run(s, i, c, ':', ':');
}

/// After an account: the end, or white space.
pub open spec fn ends_account(s: Seq<char>, j: int) -> bool {
    j == s.len() || (0 <= j < s.len() && is_white_space(s[j]))
}

#[verifier::rlimit(100)]
proof fn lemma_components_at(s: Seq<char>, i: int, cs: Seq<Seq<char>>)
    requires
        forall|k: int| 0 <= k < cs.len() ==> is_valid_component(#[trigger] cs[k]),
        at(s, i, components_text(cs)),
        ends_account(s, i + components_text(cs).len()),
    ensures
        sp_components(s, i) == Ok::<_, (crate::grammar::ParseErrorKind, int, int)>(
            (cs, i + components_text(cs).len()),
        ),
    decreases cs.len(),
{
    if cs.len() == 0 {
        assert(cs =~= seq![]);
    } else {
        let c = cs[0];
        let rest = cs.drop_first();
        let rt = components_text(rest);
        assert(components_text(cs) =~= seq![':'] + (c + rt));
        lemma_at_split(s, i, seq![':'], c + rt);
        lemma_at_split(s, i + 1, c, rt);
        lemma_at_index(s, i, seq![':'], 0);
        assert forall|k: int| 0 <= k < rest.len() implies is_valid_component(#[trigger] rest[k]) by {
            assert(rest[k] == cs[k + 1]);
        }
        if rest.len() > 0 {
            assert(rt =~= seq![':'] + (rest[0] + components_text(rest.drop_first())));
            lemma_at_index(s, i + 1 + c.len(), rt, 0);
        } else {
            assert(rt.len() == 0);
        }
        lemma_component_at(s, i + 1, c);
        lemma_component_chars(c);
        lemma_components_at(s, i + 1 + c.len(), rest);
        assert(seq![c] + rest =~= cs);
    }
}

proof fn lemma_account_type_of(t: AccountType)
    ensures
        account_type_of(account_type_name(t)) == Some(t),
        forall|k: int| 0 <= k < account_type_name(t).len() ==> !ends_token(
            #[trigger] account_type_name(t)[k],
            ':',
            ':',
        ),
        account_type_name(t).len() >= 6,
{
    let a = account_type_name(AccountType::Assets);
    let l = account_type_name(AccountType::Liabilities);
    let n = account_type_name(AccountType::Income);
    let x = account_type_name(AccountType::Expenses);
    let q = account_type_name(AccountType::Equity);
    assert(a[0] != l[0] && a[0] != n[0] && a[0] != x[0] && a[0] != q[0]);
    assert(l[0] != n[0] && l[0] != x[0] && l[0] != q[0]);
    assert(n[0] != x[0] && n[0] != q[0]);
    assert(x[1] != q[1]);
}

/// An account reads back as itself wherever it stands, when white space or
/// the end follows.
#[verifier::rlimit(100)]
pub proof fn lemma_account_at(s: Seq<char>, i: int, a: AccountView)
    requires
        valid_account(a),
        at(s, i, account_text(a)),
        ends_account(s, i + account_text(a).len()),
    ensures
        sp_account(s, i) == Some((a, i + account_text(a).len())),
{
    let name = account_type_name(a.account_type);
    let ct = components_text(a.components);
    lemma_at_split(s, i, name, ct);
    lemma_account_type_of(a.account_type);
    if a.components.len() > 0 {
        assert(ct =~= seq![':'] + (a.components[0] + components_text(a.components.drop_first())));
        lemma_at_index(s, i + name.len(), ct, 0);
    }
    lemma_token_run(s, i, name, ':', ':');
    lemma_components_at(s, i + name.len(), a.components);
}

proof fn lemma_commodity_chars(c: Seq<char>)
    requires
        is_valid_commodity(c),
    ensures
        forall|k: int| 0 <= k < c.len() ==> !ends_token(#[trigger] c[k], ',', '}'),
        c.len() >= 1,
        !is_white_space(c[0]) && c[0] != '~' && !is_digit(c[0]) && c[0] != '+' && c[0] != '-',
{
    assert forall|k: int| 0 <= k < c.len() implies !ends_token(#[trigger] c[k], ',', '}') by {
        if 0 < k < c.len() - 1 {
            assert(crate::commodity::commodity_char_ok(c[k]));
        }
    }
}

/// After a commodity: the end, white space, `,` or `}`.
pub open spec fn ends_commodity(s: Seq<char>, j: int) -> bool {
    j == s.len() || (0 <= j < s.len() && ends_token(s[j], ',', '}'))
}

pub proof fn lemma_commodity_at(s: Seq<char>, i: int, c: Seq<char>)
    requires
        is_valid_commodity(c),
        at(s, i, c),
        ends_commodity(s, i + c.len()),
    ensures
        sp_commodity(s, i) == Some((c, i + c.len())),
{
    lemma_commodity_chars(c);
    lemma_token_run(s, i, c, ',', '}');
}

/// The commodities after the first, each after a comma.
pub open spec fn list_tail(cs: Seq<Seq<char>>) -> Seq<char> {
    if cs.len() == 0 {
        seq![]
    } else {
        seq![','] + join_commas(cs)
    }
}

proof fn lemma_join_split(cs: Seq<Seq<char>>)
    requires
        cs.len() >= 1,
    ensures
        join_commas(cs) == cs[0] + list_tail(cs.drop_first()),
{
    if cs.len() == 1 {
        assert(cs[0] + list_tail(cs.drop_first()) =~= cs[0]);
    }
}

#[verifier::rlimit(100)]
proof fn lemma_list_tail_at(s: Seq<char>, e: int, cs: Seq<Seq<char>>)
    requires
        forall|k: int| 0 <= k < cs.len() ==> is_valid_commodity(#[trigger] cs[k]),
        at(s, e, list_tail(cs)),
        e + list_tail(cs).len() == s.len(),
    ensures
        sp_commodity_rest(s, e) == (cs, s.len() as int),
    decreases cs.len(),
{
    if cs.len() == 0 {
        assert(cs =~= seq![]);
    } else {
        let c = cs[0];
        let rest = cs.drop_first();
        lemma_join_split(cs);
        assert(list_tail(cs) =~= seq![','] + (c + list_tail(rest)));
        lemma_at_split(s, e, seq![','], c + list_tail(rest));
        lemma_at_split(s, e + 1, c, list_tail(rest));
        lemma_at_index(s, e, seq![','], 0);
        lemma_commodity_chars(c);
        lemma_at_index(s, e + 1, c, 0);
        assert forall|k: int| 0 <= k < rest.len() implies is_valid_commodity(#[trigger] rest[k]) by {
            assert(rest[k] == cs[k + 1]);
        }
        if rest.len() > 0 {
            lemma_at_index(s, e + 1 + c.len(), list_tail(rest), 0);
        }
        lemma_commodity_at(s, e + 1, c);
        lemma_list_tail_at(s, e + 1 + c.len(), rest);
        assert(seq![c] + rest =~= cs);
    }
}

/// A list of commodities at the end of a text reads back as itself.
#[verifier::rlimit(100)]
pub proof fn lemma_commodity_list_at(s: Seq<char>, i: int, cs: Seq<Seq<char>>)
    requires
        cs.len() >= 1,
        forall|k: int| 0 <= k < cs.len() ==> is_valid_commodity(#[trigger] cs[k]),
        at(s, i, join_commas(cs)),
        i + join_commas(cs).len() == s.len(),
    ensures
        sp_commodity_list(s, i) == Some((cs, s.len() as int)),
{
    let c = cs[0];
    let rest = cs.drop_first();
    lemma_join_split(cs);
    lemma_at_split(s, i, c, list_tail(rest));
    assert forall|k: int| 0 <= k < rest.len() implies is_valid_commodity(#[trigger] rest[k]) by {
        assert(rest[k] == cs[k + 1]);
    }
    if rest.len() > 0 {
        lemma_at_index(s, i + c.len(), list_tail(rest), 0);
    }
    lemma_commodity_at(s, i, c);
    lemma_list_tail_at(s, i + c.len(), rest);
    assert(seq![c] + rest =~= cs);
}

// ---- open and balance directives ----

/// An open directive as it can be written: a valid account and valid
/// commodities in ascending order.
pub open spec fn valid_open(o: DirectiveOpenView) -> bool {
    &&& valid_account(o.account)
    &&& forall|k: int| 0 <= k < o.commodities.len() ==> is_valid_commodity(#[trigger] o.commodities[k])
    &&& strictly_ascending(o.commodities)
}

proof fn lemma_ws1_single(s: Seq<char>, i: int)
    requires
        0 <= i < s.len(),
        is_blank(s[i]),
        i + 1 < s.len(),
        !is_white_space(s[i + 1]),
    ensures
        ws1(s, i) == Some(i + 1),
{
    assert(ws_end(s, i + 1) == i + 1);
    assert(ws_end(s, i) == ws_end(s, i + 1));
}

proof fn lemma_ws1_none(s: Seq<char>, i: int)
    requires
        i == s.len() || (0 <= i < s.len() && !is_white_space(s[i])),
    ensures
        ws1(s, i) is None,
        ws_end(s, i) == i,
{
}

/// An open directive, written out to the end of a text, reads back as
/// itself.
#[verifier::rlimit(100)]
pub proof fn lemma_open_at(s: Seq<char>, i: int, o: DirectiveOpenView)
    requires
        valid_open(o),
        at(s, i, open_text(o)),
        i + open_text(o).len() == s.len(),
    ensures
        sp_open(s, i) == Some((o, s.len() as int)),
{
    let kw = seq!['o', 'p', 'e', 'n'];
    let at_text = account_text(o.account);
    let cs = o.commodities;
    lemma_canonical_order(cs, cs);
    let tail: Seq<char> = if cs.len() > 0 {
        seq![' '] + join_commas(cs)
    } else {
        seq![]
    };
    assert(open_text(o) =~= kw + (seq![' '] + (at_text + tail)));
    lemma_at_split(s, i, kw, seq![' '] + (at_text + tail));
    lemma_at_split(s, i + 4, seq![' '], at_text + tail);
    lemma_at_split(s, i + 5, at_text, tail);
    lemma_at_index(s, i + 4, seq![' '], 0);
    let name = account_type_name(o.account.account_type);
    lemma_account_type_of(o.account.account_type);
    assert(at_text =~= name + components_text(o.account.components));
    lemma_at_split(s, i + 5, name, components_text(o.account.components));
    lemma_at_index(s, i + 5, name, 0);
    lemma_ws1_single(s, i + 4);
    let e2 = i + 5 + at_text.len();
    if cs.len() > 0 {
        lemma_at_split(s, e2, seq![' '], join_commas(cs));
        lemma_at_index(s, e2, seq![' '], 0);
        lemma_join_split(cs);
        lemma_at_split(s, e2 + 1, cs[0], list_tail(cs.drop_first()));
        lemma_commodity_chars(cs[0]);
        lemma_at_index(s, e2 + 1, cs[0], 0);
        lemma_account_at(s, i + 5, o.account);
        lemma_ws1_single(s, e2);
        lemma_commodity_list_at(s, e2 + 1, cs);
    } else {
        lemma_account_at(s, i + 5, o.account);
        lemma_ws1_none(s, e2);
        assert(cs =~= seq![]);
    }
    assert(sp_open_parts(s, i) == Some((o.account, cs, s.len() as int)));
}

/// An amount with its tolerance as it can be written.
pub open spec fn valid_amount_with_tolerance(a: AmountWithToleranceView) -> bool {
    &&& valid_decimal(a.amount.number)
    &&& is_valid_commodity(a.amount.commodity)
    &&& tolerance_ok(a.tolerance)
    &&& a.tolerance is Some ==> valid_decimal(a.tolerance->Some_0)
}

#[verifier::rlimit(100)]
proof fn lemma_tolerance_at(s: Seq<char>, j: int, t: Decimal)
    requires
        valid_decimal(t),
        t.mantissa >= 0,
        at(s, j, seq!['~', ' '] + decimal_text(t) + seq![' ']),
        j + decimal_text(t).len() + 3 < s.len(),
        !is_white_space(s[j + decimal_text(t).len() + 3]),
    ensures
        sp_tolerance(s, j) == Some((t, j + decimal_text(t).len() + 3)),
{
    let td = decimal_text(t);
    assert(seq!['~', ' '] + td + seq![' '] =~= seq!['~'] + (seq![' '] + (td + seq![' '])));
    lemma_at_split(s, j, seq!['~'], seq![' '] + (td + seq![' ']));
    lemma_at_split(s, j + 1, seq![' '], td + seq![' ']);
    lemma_at_split(s, j + 2, td, seq![' ']);
    lemma_at_index(s, j, seq!['~'], 0);
    lemma_at_index(s, j + 1, seq![' '], 0);
    lemma_at_index(s, j + 2 + td.len(), seq![' '], 0);
    assert(td == unsigned_decimal_text(t));
    lemma_unsigned_decimal_at(s, j + 2, t);
    lemma_ws1_single(s, j + 1);
    lemma_ws1_single(s, j + 2 + td.len());
}

proof fn lemma_awt_from_parts(
    s: Seq<char>,
    i: int,
    a: AmountWithToleranceView,
    e1: int,
    e2: int,
    e3: int,
)
    requires
        sp_decimal(s, i) == Some((a.amount.number, e1)),
        ws1(s, e1) == Some(e2),
        match a.tolerance {
            Some(t) => sp_tolerance(s, e2) == Some((t, e3)),
            None => sp_tolerance(s, e2) is None && e3 == e2,
        },
        sp_commodity(s, e3) == Some((a.amount.commodity, s.len() as int)),
    ensures
        sp_amount_with_tolerance(s, i) == Some((a, s.len() as int)),
{
}

/// An amount with its tolerance, written out to the end of a text, reads
/// back as itself.
#[verifier::rlimit(100)]
pub proof fn lemma_amount_with_tolerance_at(s: Seq<char>, i: int, a: AmountWithToleranceView)
    requires
        valid_amount_with_tolerance(a),
        at(s, i, amount_with_tolerance_text(a)),
        i + amount_with_tolerance_text(a).len() == s.len(),
    ensures
        sp_amount_with_tolerance(s, i) == Some((a, s.len() as int)),
{
    let n = decimal_text(a.amount.number);
    let c = a.amount.commodity;
    let mid: Seq<char> = match a.tolerance {
        Some(t) => seq![' ', '~', ' '] + decimal_text(t),
        None => seq![],
    };
    lemma_commodity_chars(c);
    assert(amount_with_tolerance_text(a) =~= n + (mid + (seq![' '] + c)));
    lemma_at_split(s, i, n, mid + (seq![' '] + c));
    lemma_at_split(s, i + n.len(), mid, seq![' '] + c);
    let e2 = i + n.len() + mid.len();
    lemma_at_split(s, e2, seq![' '], c);
    lemma_at_index(s, e2, seq![' '], 0);
    lemma_at_index(s, e2 + 1, c, 0);
    lemma_commodity_at(s, e2 + 1, c);
    lemma_awt_middle(s, i, a);
    match a.tolerance {
        Some(t) => {
            lemma_awt_from_parts(s, i, a, i + n.len(), i + n.len() + 1, e2 + 1);
        },
        None => {
            lemma_awt_from_parts(s, i, a, i + n.len(), e2 + 1, e2 + 1);
        },
    }
}

#[verifier::rlimit(100)]
proof fn lemma_awt_middle(s: Seq<char>, i: int, a: AmountWithToleranceView)
    requires
        valid_amount_with_tolerance(a),
        at(s, i, amount_with_tolerance_text(a)),
        i + amount_with_tolerance_text(a).len() == s.len(),
    ensures
        sp_decimal(s, i) == Some((a.amount.number, i + decimal_text(a.amount.number).len())),
        match a.tolerance {
            Some(t) => ws1(s, i + decimal_text(a.amount.number).len()) == Some(
                i + decimal_text(a.amount.number).len() + 1,
            ) && sp_tolerance(s, i + decimal_text(a.amount.number).len() + 1) == Some(
                (t, i + decimal_text(a.amount.number).len() + decimal_text(t).len() + 4),
            ),
            None => ws1(s, i + decimal_text(a.amount.number).len()) == Some(
                i + decimal_text(a.amount.number).len() + 1,
            ) && sp_tolerance(s, i + decimal_text(a.amount.number).len() + 1) is None,
        },
{
    let n = decimal_text(a.amount.number);
    let c = a.amount.commodity;
    let mid: Seq<char> = match a.tolerance {
        Some(t) => seq![' ', '~', ' '] + decimal_text(t),
        None => seq![],
    };
    lemma_commodity_chars(c);
    assert(amount_with_tolerance_text(a) =~= n + (mid + (seq![' '] + c)));
    lemma_at_split(s, i, n, mid + (seq![' '] + c));
    lemma_at_split(s, i + n.len(), mid, seq![' '] + c);
    let e2 = i + n.len() + mid.len();
    lemma_at_split(s, e2, seq![' '], c);
    lemma_at_index(s, e2, seq![' '], 0);
    lemma_at_index(s, e2 + 1, c, 0);
    match a.tolerance {
        Some(t) => {
            let td = decimal_text(t);
            lemma_at_index(s, i + n.len(), mid, 0);
            lemma_at_index(s, i + n.len(), mid, 1);
            lemma_decimal_at(s, i, a.amount.number);
            lemma_ws1_single(s, i + n.len());
            assert(mid + (seq![' '] + c) =~= seq![' '] + ((seq!['~', ' '] + td + seq![' ']) + c));
            lemma_at_split(s, i + n.len(), seq![' '], (seq!['~', ' '] + td + seq![' ']) + c);
            lemma_at_split(s, i + n.len() + 1, seq!['~', ' '] + td + seq![' '], c);
            lemma_tolerance_at(s, i + n.len() + 1, t);
        },
        None => {
            lemma_decimal_at(s, i, a.amount.number);
            lemma_ws1_single(s, e2);
        },
    }
}

/// A balance directive as it can be written.
pub open spec fn valid_balance(b: DirectiveBalanceView) -> bool {
    valid_account(b.account) && valid_amount_with_tolerance(b.amount)
}

/// A balance directive, written out to the end of a text, reads back as
/// itself.
#[verifier::rlimit(100)]
pub proof fn lemma_balance_at(s: Seq<char>, i: int, b: DirectiveBalanceView)
    requires
        valid_balance(b),
        at(s, i, balance_text(b)),
        i + balance_text(b).len() == s.len(),
    ensures
        sp_balance(s, i) == Some((b, s.len() as int)),
{
    let kw = seq!['b', 'a', 'l', 'a', 'n', 'c', 'e'];
    let at_text = account_text(b.account);
    let am = amount_with_tolerance_text(b.amount);
    assert(balance_text(b) =~= kw + (seq![' '] + (at_text + (seq![' '] + am))));
    lemma_at_split(s, i, kw, seq![' '] + (at_text + (seq![' '] + am)));
    lemma_at_split(s, i + 7, seq![' '], at_text + (seq![' '] + am));
    lemma_at_split(s, i + 8, at_text, seq![' '] + am);
    let e2 = i + 8 + at_text.len();
    lemma_at_split(s, e2, seq![' '], am);
    lemma_at_index(s, i + 7, seq![' '], 0);
    lemma_at_index(s, e2, seq![' '], 0);
    let name = account_type_name(b.account.account_type);
    lemma_account_type_of(b.account.account_type);
    assert(at_text =~= name + components_text(b.account.components));
    lemma_at_split(s, i + 8, name, components_text(b.account.components));
    lemma_at_index(s, i + 8, name, 0);
    lemma_ws1_single(s, i + 7);
    lemma_account_at(s, i + 8, b.account);
    let n = decimal_text(b.amount.amount.number);
    assert(am =~= n + (am.subrange(n.len() as int, am.len() as int)));
    lemma_at_split(s, e2 + 1, n, am.subrange(n.len() as int, am.len() as int));
    lemma_unsigned_first_digit(s, e2 + 1, b.amount.amount.number);
    lemma_ws1_single(s, e2);
    lemma_amount_with_tolerance_at(s, e2 + 1, b.amount);
}

proof fn lemma_unsigned_first_digit(s: Seq<char>, i: int, d: Decimal)
    requires
        valid_decimal(d),
        at(s, i, decimal_text(d)),
    ensures
        !is_white_space(s[i]),
{
    let n = magnitude(d.mantissa as int);
    lemma_padded_digits(n, (d.scale + 1) as nat);
    let body = padded_digits(n, (d.scale + 1) as nat);
    let u = unsigned_decimal_text(d);
    if d.scale > 0 {
        assert(u[0] == body[0]);
    }
    assert(is_digit(u[0]));
    if d.mantissa < 0 {
        lemma_at_index(s, i, decimal_text(d), 0);
    } else {
        lemma_at_index(s, i, u, 0);
    }
}

/// A directive whose content is an open or a balance, as it can be written.
pub open spec fn valid_open_or_balance_directive(d: DirectiveView) -> bool {
    valid_date(d.date) && match d.content {
        DirectiveVariantView::Open(o) => valid_open(o),
        DirectiveVariantView::Balance(b) => valid_balance(b),
        DirectiveVariantView::Transaction(_) => false,
    }
}

#[verifier::rlimit(100)]
proof fn lemma_directive_head(d: DirectiveView)
    requires
        valid_date(d.date),
        content_text(d.content).len() > 0,
        !is_white_space(content_text(d.content)[0]),
    ensures
        sp_date(directive_text(d), 0) == Some((d.date, date_text(d.date).len() as int)),
        ws1(directive_text(d), date_text(d.date).len() as int) == Some(
            date_text(d.date).len() as int + 1,
        ),
        at(directive_text(d), date_text(d.date).len() as int + 1, content_text(d.content)),
        date_text(d.date).len() as int + 1 + content_text(d.content).len() == directive_text(
            d,
        ).len(),
{
    let t = directive_text(d);
    let dt = date_text(d.date);
    let ct = content_text(d.content);
    lemma_at_whole(t);
    assert(t =~= dt + (seq![' '] + ct));
    lemma_at_split(t, 0, dt, seq![' '] + ct);
    lemma_at_split(t, dt.len() as int, seq![' '], ct);
    lemma_at_index(t, dt.len() as int, seq![' '], 0);
    lemma_at_index(t, dt.len() as int + 1, ct, 0);
    lemma_date_at(t, 0, d.date);
    lemma_ws1_single(t, dt.len() as int);
}

proof fn lemma_content_open(s: Seq<char>, e: int, o: DirectiveOpenView)
    requires
        sp_open(s, e) == Some((o, s.len() as int)),
    ensures
        sp_directive_content(s, e) == Some((DirectiveVariantView::Open(o), s.len() as int)),
{
}

proof fn lemma_content_balance(s: Seq<char>, e: int, b: DirectiveBalanceView)
    requires
        sp_open_parts(s, e) is None,
        sp_balance(s, e) == Some((b, s.len() as int)),
    ensures
        sp_directive_content(s, e) == Some((DirectiveVariantView::Balance(b), s.len() as int)),
{
}

proof fn lemma_not_open(s: Seq<char>, e: int)
    requires
        0 <= e < s.len(),
        s[e] == 'b',
    ensures
        sp_open_parts(s, e) is None,
{
    if e + 4 <= s.len() && s.subrange(e, e + 4) == seq!['o', 'p', 'e', 'n'] {
        assert(s.subrange(e, e + 4)[0] == s[e]);
    }
}

proof fn lemma_open_first(o: DirectiveOpenView)
    ensures
        open_text(o).len() > 0 && open_text(o)[0] == 'o',
{
    let a = seq!['o', 'p', 'e', 'n', ' '] + account_text(o.account);
    assert(open_text(o)[0] == a[0]);
}

proof fn lemma_balance_first(b: DirectiveBalanceView)
    ensures
        balance_text(b).len() > 0 && balance_text(b)[0] == 'b',
{
    let a = seq!['b', 'a', 'l', 'a', 'n', 'c', 'e', ' '] + account_text(b.account);
    assert((a + seq![' '])[0] == a[0]);
    assert(balance_text(b)[0] == a[0]);
}

#[verifier::rlimit(100)]
proof fn lemma_open_directive_round_trip(d: DirectiveView, o: DirectiveOpenView)
    requires
        valid_date(d.date),
        d.content == DirectiveVariantView::Open(o),
        valid_open(o),
    ensures
        sp_directive(directive_text(d), 0) == Some((d, directive_text(d).len() as int)),
{
    let t = directive_text(d);
    let e: int = date_text(d.date).len() as int + 1;
    lemma_open_first(o);
    assert(content_text(d.content) == open_text(o));
    lemma_directive_head(d);
    lemma_open_at(t, e, o);
    lemma_content_open(t, e, o);
    lemma_directive_from_parts(d);
}

#[verifier::rlimit(100)]
proof fn lemma_balance_directive_round_trip(d: DirectiveView, b: DirectiveBalanceView)
    requires
        valid_date(d.date),
        d.content == DirectiveVariantView::Balance(b),
        valid_balance(b),
    ensures
        sp_directive(directive_text(d), 0) == Some((d, directive_text(d).len() as int)),
{
    let t = directive_text(d);
    let e: int = date_text(d.date).len() as int + 1;
    lemma_balance_first(b);
    assert(content_text(d.content) == balance_text(b));
    lemma_directive_head(d);
    lemma_balance_at(t, e, b);
    lemma_at_index(t, e, balance_text(b), 0);
    lemma_not_open(t, e);
    lemma_content_balance(t, e, b);
    lemma_directive_from_parts(d);
}

/// An open or balance directive, written out, reads back as itself.
pub proof fn lemma_open_or_balance_directive_round_trip(d: DirectiveView)
    requires
        valid_open_or_balance_directive(d),
    ensures
        sp_directive(directive_text(d), 0) == Some((d, directive_text(d).len() as int)),
{
    match d.content {
        DirectiveVariantView::Open(o) => lemma_open_directive_round_trip(d, o),
        DirectiveVariantView::Balance(b) => lemma_balance_directive_round_trip(d, b),
        DirectiveVariantView::Transaction(_) => {},
    }
}

// ---- amounts and postings ----

/// An amount as it can be written.
pub open spec fn valid_amount(a: AmountView) -> bool {
    valid_decimal(a.number) && is_valid_commodity(a.commodity)
}

proof fn lemma_decimal_starts(d: Decimal)
    requires
        valid_decimal(d),
    ensures
        decimal_text(d).len() >= 1,
        is_digit(decimal_text(d)[0]) || decimal_text(d)[0] == '-',
        !is_white_space(decimal_text(d)[0]),
{
    let n = magnitude(d.mantissa as int);
    lemma_padded_digits(n, (d.scale + 1) as nat);
    let body = padded_digits(n, (d.scale + 1) as nat);
    let u = unsigned_decimal_text(d);
    if d.scale > 0 {
        assert(u[0] == body[0]);
    }
    assert(is_digit(u[0]));
}

/// An amount reads back as itself wherever it stands, when what follows
/// ends its commodity.
#[verifier::rlimit(100)]
pub proof fn lemma_amount_at(s: Seq<char>, i: int, a: AmountView)
    requires
        valid_amount(a),
        at(s, i, amount_text(a)),
        ends_commodity(s, i + amount_text(a).len()),
    ensures
        sp_amount(s, i) == Some((a, i + amount_text(a).len())),
        !is_white_space(s[i]),
{
    let n = decimal_text(a.number);
    let c = a.commodity;
    assert(amount_text(a) =~= n + (seq![' '] + c));
    lemma_at_split(s, i, n, seq![' '] + c);
    lemma_at_split(s, i + n.len(), seq![' '], c);
    lemma_at_index(s, i + n.len(), seq![' '], 0);
    lemma_commodity_chars(c);
    lemma_at_index(s, i + n.len() + 1, c, 0);
    lemma_decimal_starts(a.number);
    lemma_at_index(s, i, n, 0);
    lemma_decimal_at(s, i, a.number);
    lemma_ws1_single(s, i + n.len());
    lemma_commodity_at(s, i + n.len() + 1, c);
}

/// Where no number starts, no amount does.
proof fn lemma_no_amount(s: Seq<char>, r: int)
    requires
        0 <= r < s.len(),
        !is_digit(s[r]),
        s[r] != '+',
        s[r] != '-',
    ensures
        sp_amount(s, r) is None,
        sp_posting_amount(s, r) is None,
{
}

pub open spec fn valid_posting_amount(p: PostingAmountView) -> bool {
    &&& valid_amount(p.amount)
    &&& p.cost is Some ==> valid_amount(p.cost->Some_0)
    &&& p.price is Some ==> valid_amount(p.price->Some_0)
}

/// A posting as it can be written: a valid account, amounts and flag.
pub open spec fn valid_posting(p: PostingView) -> bool {
    &&& valid_account(p.account)
    &&& p.flag is Some ==> valid_flag(p.flag->Some_0)
    &&& p.amount is Some ==> valid_posting_amount(p.amount->Some_0)
}

/// What follows a posting line: the end, or a newline and the next one.
pub open spec fn posting_follows(s: Seq<char>, j: int, next: Option<PostingView>) -> bool {
    match next {
        None => j == s.len(),
        Some(q) => valid_posting(q) && at(s, j, seq!['\n'] + posting_text(q)),
    }
}

#[verifier::rlimit(100)]
proof fn lemma_posting_head(s: Seq<char>, j: int, q: PostingView)
    requires
        valid_posting(q),
        at(s, j, posting_text(q)),
    ensures
        ({
            let name = account_type_name(q.account.account_type);
            let fp = flag_part(q.flag);
            &&& s[j] == ' ' && s[j + 1] == ' '
            &&& at(s, j + 2, fp)
            &&& at(s, j + 2 + fp.len(), account_text(q.account))
            &&& at(s, j + 2 + fp.len(), name)
            &&& name.len() >= 6
            &&& !is_white_space(s[j + 2])
            &&& (q.flag is Some ==> s[j + 2] == flag_char(q.flag->Some_0) && s[j + 3] == ' ')
            &&& (q.flag is None ==> s[j + 2] == name[0])
        }),
{
    let name = account_type_name(q.account.account_type);
    let fp = flag_part(q.flag);
    let at_text = account_text(q.account);
    let ap = posting_amount_part(q.amount);
    lemma_account_type_of(q.account.account_type);
    assert(posting_text(q) =~= seq![' ', ' '] + (fp + (at_text + ap)));
    lemma_at_split(s, j, seq![' ', ' '], fp + (at_text + ap));
    lemma_at_split(s, j + 2, fp, at_text + ap);
    lemma_at_split(s, j + 2 + fp.len(), at_text, ap);
    lemma_at_index(s, j, seq![' ', ' '], 0);
    lemma_at_index(s, j, seq![' ', ' '], 1);
    assert(at_text =~= name + components_text(q.account.components));
    lemma_at_split(s, j + 2 + fp.len(), name, components_text(q.account.components));
    lemma_at_index(s, j + 2 + fp.len(), name, 0);
    if q.flag is Some {
        lemma_at_index(s, j + 2, fp, 0);
        lemma_at_index(s, j + 2, fp, 1);
    }
}

/// Facts about the second character of each type keyword.
proof fn lemma_type_name_second(t: AccountType)
    ensures
        !is_white_space(account_type_name(t)[1]),
        !ends_token(account_type_name(t)[1], ',', '}'),
        !crate::commodity::commodity_char_ok(account_type_name(t)[1]),
        !crate::commodity::commodity_end_ok(account_type_name(t)[1]),
        !ends_token(account_type_name(t)[0], ',', '}'),
        !is_digit(account_type_name(t)[0]),
        account_type_name(t)[0] != '+' && account_type_name(t)[0] != '-',
        account_type_name(t)[0] != '{' && account_type_name(t)[0] != '@',
        account_type_name(t)[0] != '"',
        !is_white_space(account_type_name(t)[0]),
{
}

/// A newline ends a line: no blank, and so no cost, price or second
/// quoted string, is read across it.
proof fn lemma_posting_blocks(s: Seq<char>, j: int, q: PostingView)
    requires
        valid_posting(q),
        at(s, j, seq!['\n'] + posting_text(q)),
    ensures
        ws1(s, j) is None,
        sp_cost(s, j) is None,
        sp_price(s, j) is None,
        s[j] == '\n',
{
    lemma_at_split(s, j, seq!['\n'], posting_text(q));
    lemma_at_index(s, j, seq!['\n'], 0);
}

#[verifier::rlimit(100)]
proof fn lemma_cost_at(s: Seq<char>, e1: int, c: AmountView)
    requires
        valid_amount(c),
        at(s, e1, cost_part(Some(c))),
    ensures
        sp_cost(s, e1) == Some((c, e1 + cost_part(Some(c)).len())),
{
    let cp = cost_part(Some(c));
    let ct = amount_text(c);
    assert(cp =~= seq![' ', '{'] + (ct + seq!['}']));
    lemma_at_split(s, e1, seq![' ', '{'], ct + seq!['}']);
    lemma_at_split(s, e1 + 2, ct, seq!['}']);
    lemma_at_index(s, e1, seq![' ', '{'], 0);
    lemma_at_index(s, e1, seq![' ', '{'], 1);
    lemma_at_index(s, e1 + 2 + ct.len(), seq!['}'], 0);
    lemma_amount_at(s, e1 + 2, c);
    lemma_ws1_single(s, e1);
    assert(ws_end(s, e1 + 2) == e1 + 2);
    assert(ws_end(s, e1 + 2 + ct.len()) == e1 + 2 + ct.len());
}

#[verifier::rlimit(100)]
proof fn lemma_price_at(s: Seq<char>, e2: int, p: AmountView, next: Option<PostingView>)
    requires
        valid_amount(p),
        at(s, e2, price_part(Some(p))),
        posting_follows(s, e2 + price_part(Some(p)).len(), next),
    ensures
        sp_price(s, e2) == Some((p, e2 + price_part(Some(p)).len())),
{
    let pp = price_part(Some(p));
    let pt = amount_text(p);
    let end = e2 + pp.len();
    assert(pp =~= seq![' ', '@', ' '] + pt);
    lemma_at_split(s, e2, seq![' ', '@', ' '], pt);
    lemma_at_index(s, e2, seq![' ', '@', ' '], 0);
    lemma_at_index(s, e2, seq![' ', '@', ' '], 1);
    lemma_at_index(s, e2, seq![' ', '@', ' '], 2);
    match next {
        Some(q) => {
            lemma_posting_blocks(s, end, q);
        },
        None => {},
    }
    lemma_amount_at(s, e2 + 3, p);
    lemma_ws1_single(s, e2);
    lemma_ws1_single(s, e2 + 2);
}

proof fn lemma_no_price(s: Seq<char>, e2: int, next: Option<PostingView>)
    requires
        posting_follows(s, e2, next),
    ensures
        sp_price(s, e2) is None,
        sp_cost(s, e2) is None,
        ends_commodity(s, e2),
        ends_account(s, e2),
{
    match next {
        Some(q) => {
            lemma_posting_blocks(s, e2, q);
        },
        None => {
            lemma_ws1_none(s, e2);
        },
    }
}

/// A posting's amount reads back as itself when the end or a newline and
/// another posting line follows.
#[verifier::rlimit(100)]
proof fn lemma_posting_amount_at(
    s: Seq<char>,
    i: int,
    pa: PostingAmountView,
    next: Option<PostingView>,
)
    requires
        valid_posting_amount(pa),
        at(s, i, posting_amount_text(pa)),
        posting_follows(s, i + posting_amount_text(pa).len(), next),
    ensures
        sp_posting_amount(s, i) == Some((pa, i + posting_amount_text(pa).len())),
{
    let at_ = amount_text(pa.amount);
    let cp = cost_part(pa.cost);
    let pp = price_part(pa.price);
    let end = i + posting_amount_text(pa).len();
    assert(posting_amount_text(pa) =~= at_ + (cp + pp));
    lemma_at_split(s, i, at_, cp + pp);
    lemma_at_split(s, i + at_.len(), cp, pp);
    let e1 = i + at_.len();
    let e2 = e1 + cp.len();
    lemma_no_price(s, end, next);
    if pa.price is Some {
        lemma_at_index(s, e2, pp, 0);
        lemma_price_at(s, e2, pa.price->Some_0, next);
    }
    if pa.cost is Some {
        lemma_at_index(s, e1, cp, 0);
        lemma_cost_at(s, e1, pa.cost->Some_0);
    } else if pa.price is Some {
        lemma_at_index(s, e1, pp, 0);
        lemma_at_index(s, e1, pp, 1);
        lemma_ws1_single(s, e1);
    }
    lemma_amount_at(s, i, pa.amount);
    lemma_posting_amount_from_parts(s, i, pa, e1, e2, end);
}

proof fn lemma_posting_amount_from_parts(
    s: Seq<char>,
    i: int,
    pa: PostingAmountView,
    e1: int,
    e2: int,
    end: int,
)
    requires
        sp_amount(s, i) == Some((pa.amount, e1)),
        match pa.cost {
            Some(c) => sp_cost(s, e1) == Some((c, e2)),
            None => sp_cost(s, e1) is None && e2 == e1,
        },
        match pa.price {
            Some(p) => sp_price(s, e2) == Some((p, end)),
            None => sp_price(s, e2) is None && end == e2,
        },
    ensures
        sp_posting_amount(s, i) == Some((pa, end)),
{
}

#[verifier::rlimit(100)]
proof fn lemma_posting_flag_at(s: Seq<char>, i: int, p: PostingView)
    requires
        valid_posting(p),
        at(s, i, posting_text(p)),
    ensures
        ws1(s, i) == Some(i + 2),
        sp_flag_ws(s, i + 2) == (match p.flag {
            Some(f) => Some((f, i + 2 + flag_part(p.flag).len())),
            None => None,
        }),
{
    let name = account_type_name(p.account.account_type);
    let fp = flag_part(p.flag);
    lemma_posting_head(s, i, p);
    lemma_type_name_second(p.account.account_type);
    let a0 = i + 2 + fp.len();
    lemma_at_index(s, a0, name, 0);
    lemma_at_index(s, a0, name, 1);
    assert(ws_end(s, i + 2) == i + 2);
    assert(ws_end(s, i + 1) == i + 2);
    assert(ws_end(s, i) == i + 2);
    match p.flag {
        Some(f) => {
            assert(flag_of(flag_char(f)) == f);
            lemma_ws1_single(s, i + 3);
        },
        None => {
            lemma_ws1_none(s, i + 3);
        },
    }
}

#[verifier::rlimit(100)]
proof fn lemma_posting_amount_part_at(
    s: Seq<char>,
    e3: int,
    a: Option<PostingAmountView>,
    next: Option<PostingView>,
)
    requires
        a is Some ==> valid_posting_amount(a->Some_0),
        at(s, e3, posting_amount_part(a)),
        posting_follows(s, e3 + posting_amount_part(a).len(), next),
    ensures
        ends_account(s, e3),
        (match ws1(s, e3) {
            Some(e) => match sp_posting_amount(s, e) {
                Some((pa, f)) => (Some(pa), f),
                None => (None, e3),
            },
            None => (None, e3),
        }) == (a, e3 + posting_amount_part(a).len()),
{
    let end = e3 + posting_amount_part(a).len();
    lemma_no_price(s, end, next);
    match a {
        Some(pa) => {
            let pat = posting_amount_text(pa);
            assert(posting_amount_part(a) =~= seq![' ', ' '] + pat);
            lemma_at_split(s, e3, seq![' ', ' '], pat);
            lemma_at_index(s, e3, seq![' ', ' '], 0);
            lemma_at_index(s, e3, seq![' ', ' '], 1);
            lemma_decimal_starts(pa.amount.number);
            assert(pat[0] == decimal_text(pa.amount.number)[0]);
            lemma_at_index(s, e3 + 2, pat, 0);
            lemma_posting_amount_at(s, e3 + 2, pa, next);
            assert(ws_end(s, e3 + 2) == e3 + 2);
            assert(ws_end(s, e3 + 1) == e3 + 2);
        },
        None => {
            match next {
                Some(q) => {
                    lemma_posting_blocks(s, end, q);
                },
                None => {
                    lemma_ws1_none(s, end);
                },
            }
        },
    }
}

/// A posting line reads back as itself when the end or a newline and
/// another posting line follows.
#[verifier::rlimit(100)]
pub proof fn lemma_posting_at(s: Seq<char>, i: int, p: PostingView, next: Option<PostingView>)
    requires
        valid_posting(p),
        at(s, i, posting_text(p)),
        posting_follows(s, i + posting_text(p).len(), next),
    ensures
        sp_posting(s, i) == Some((p, i + posting_text(p).len())),
{
    let fp = flag_part(p.flag);
    let at_text = account_text(p.account);
    let ap = posting_amount_part(p.amount);
    lemma_posting_head(s, i, p);
    let a0 = i + 2 + fp.len();
    assert(posting_text(p) =~= (seq![' ', ' '] + fp + at_text) + ap);
    lemma_at_split(s, i, seq![' ', ' '] + fp + at_text, ap);
    let e3 = a0 + at_text.len();
    lemma_posting_flag_at(s, i, p);
    lemma_posting_amount_part_at(s, e3, p.amount, next);
    lemma_account_at(s, a0, p.account);
}

proof fn lemma_postings_forward(ps: Seq<PostingView>)
    requires
        ps.len() >= 1,
    ensures
        postings_text(ps) == seq!['\n'] + posting_text(ps[0]) + postings_text(ps.drop_first()),
    decreases ps.len(),
{
    if ps.len() == 1 {
        assert(ps.drop_last() =~= seq![]);
        assert(ps.drop_first() =~= seq![]);
        assert(postings_text(ps.drop_last()) == Seq::<char>::empty());
        assert(postings_text(ps.drop_first()) == Seq::<char>::empty());
        assert(postings_text(ps) =~= seq!['\n'] + posting_text(ps[0]) + postings_text(
            ps.drop_first(),
        ));
    } else {
        lemma_postings_forward(ps.drop_last());
        assert(ps.drop_last().drop_first() =~= ps.drop_first().drop_last());
        assert(ps.drop_first().last() == ps.last());
        assert(ps.drop_last()[0] == ps[0]);
        assert(postings_text(ps) =~= seq!['\n'] + posting_text(ps[0]) + postings_text(
            ps.drop_first(),
        ));
    }
}

/// Posting lines, each after a newline, at the end of a text read back as
/// themselves.
#[verifier::rlimit(100)]
pub proof fn lemma_postings_at(s: Seq<char>, i: int, ps: Seq<PostingView>)
    requires
        forall|k: int| 0 <= k < ps.len() ==> valid_posting(#[trigger] ps[k]),
        at(s, i, postings_text(ps)),
        i + postings_text(ps).len() == s.len(),
    ensures
        sp_postings(s, i) == (ps, s.len() as int),
    decreases ps.len(),
{
    if ps.len() == 0 {
        assert(ps =~= seq![]);
    } else {
        let p = ps[0];
        let rest = ps.drop_first();
        lemma_postings_forward(ps);
        assert(postings_text(ps) =~= seq!['\n'] + (posting_text(p) + postings_text(rest)));
        lemma_at_split(s, i, seq!['\n'], posting_text(p) + postings_text(rest));
        lemma_at_split(s, i + 1, posting_text(p), postings_text(rest));
        lemma_at_index(s, i, seq!['\n'], 0);
        let e = i + 1 + posting_text(p).len();
        assert forall|k: int| 0 <= k < rest.len() implies valid_posting(#[trigger] rest[k]) by {
            assert(rest[k] == ps[k + 1]);
        }
        let next: Option<PostingView> = if rest.len() > 0 {
            Some(rest[0])
        } else {
            None
        };
        if rest.len() > 0 {
            lemma_postings_forward(rest);
            assert(postings_text(rest) =~= (seq!['\n'] + posting_text(rest[0])) + postings_text(
                rest.drop_first(),
            ));
            lemma_at_split(s, e, seq!['\n'] + posting_text(rest[0]), postings_text(rest.drop_first()));
        }
        lemma_posting_at(s, i + 1, p, next);
        lemma_postings_at(s, e, rest);
        assert(seq![p] + rest =~= ps);
    }
}

/// A description reads back as itself when a newline and a posting line
/// follow.
#[verifier::rlimit(100)]
pub proof fn lemma_description_at(
    s: Seq<char>,
    i: int,
    d: TransactionDescriptionView,
    q: PostingView,
)
    requires
        valid_posting(q),
        at(s, i, description_text(d)),
        at(s, i + description_text(d).len(), seq!['\n'] + posting_text(q)),
    ensures
        sp_description(s, i) == Some((d, i + description_text(d).len())),
{
    let end = i + description_text(d).len();
    lemma_posting_blocks(s, end, q);
    match d.payee {
        Some(p) => {
            let qp = quoted_text(p);
            let qn = quoted_text(d.narration);
            assert(description_text(d) =~= qp + (seq![' '] + qn));
            lemma_at_split(s, i, qp, seq![' '] + qn);
            lemma_at_split(s, i + qp.len(), seq![' '], qn);
            lemma_at_index(s, i + qp.len(), seq![' '], 0);
            lemma_at_index(s, i + qp.len() + 1, qn, 0);
            lemma_quoted_at(s, i, p);
            lemma_quoted_at(s, i + qp.len() + 1, d.narration);
            lemma_ws1_single(s, i + qp.len());
        },
        None => {
            lemma_quoted_at(s, i, d.narration);
        },
    }
}

/// A transaction as it can be written: a valid flag and one or more valid
/// postings.
pub open spec fn valid_transaction(t: DirectiveTransactionView) -> bool {
    &&& valid_flag(t.flag)
    &&& t.postings.len() >= 1
    &&& forall|k: int| 0 <= k < t.postings.len() ==> valid_posting(#[trigger] t.postings[k])
}

/// A transaction, written out to the end of a text, reads back as itself.
#[verifier::rlimit(100)]
pub proof fn lemma_transaction_at(s: Seq<char>, i: int, t: DirectiveTransactionView)
    requires
        valid_transaction(t),
        at(s, i, transaction_text(t)),
        i + transaction_text(t).len() == s.len(),
    ensures
        sp_transaction(s, i) == Some((t, s.len() as int)),
{
    let c = flag_char(t.flag);
    let dp = description_part(t.description);
    let pt = postings_text(t.postings);
    assert(transaction_text(t) =~= seq![c] + (dp + pt));
    lemma_at_split(s, i, seq![c], dp + pt);
    lemma_at_split(s, i + 1, dp, pt);
    lemma_at_index(s, i, seq![c], 0);
    let e2 = i + 1 + dp.len();
    let p0 = t.postings[0];
    lemma_postings_forward(t.postings);
    assert(pt =~= (seq!['\n'] + posting_text(p0)) + postings_text(t.postings.drop_first()));
    lemma_at_split(s, e2, seq!['\n'] + posting_text(p0), postings_text(t.postings.drop_first()));
    lemma_at_index(s, e2, seq!['\n'] + posting_text(p0), 0);
    lemma_postings_at(s, e2, t.postings);
    match t.description {
        Some(d) => {
            let dt = description_text(d);
            assert(dp =~= seq![' '] + dt);
            lemma_at_split(s, i + 1, seq![' '], dt);
            lemma_at_index(s, i + 1, seq![' '], 0);
            lemma_description_at(s, i + 2, d, p0);
            assert(dt[0] == '"');
            lemma_at_index(s, i + 2, dt, 0);
            lemma_ws1_single(s, i + 1);
        },
        None => {
            lemma_posting_blocks(s, i + 1, p0);
        },
    }
    assert(s[i + 1] == ' ' || s[i + 1] == '\n');
    assert(sp_transaction_flag(s, i) == Some((t.flag, i + 1))) by {
        if i + 3 <= s.len() && s.subrange(i, i + 3) == seq!['t', 'x', 'n'] {
            assert(s.subrange(i, i + 3)[1] == s[i + 1]);
        }
    }
}

/// A directive as it can be written.
pub open spec fn valid_directive(d: DirectiveView) -> bool {
    valid_date(d.date) && match d.content {
        DirectiveVariantView::Open(o) => valid_open(o),
        DirectiveVariantView::Balance(b) => valid_balance(b),
        DirectiveVariantView::Transaction(t) => valid_transaction(t),
    }
}

proof fn lemma_not_open_or_balance(s: Seq<char>, e: int)
    requires
        0 <= e,
        e + 1 < s.len(),
        s[e + 1] == ' ' || s[e + 1] == '\n',
    ensures
        sp_open_parts(s, e) is None,
        sp_balance(s, e) is None,
{
    if e + 4 <= s.len() && s.subrange(e, e + 4) == seq!['o', 'p', 'e', 'n'] {
        assert(s.subrange(e, e + 4)[1] == s[e + 1]);
    }
    if e + 7 <= s.len() && s.subrange(e, e + 7) == seq!['b', 'a', 'l', 'a', 'n', 'c', 'e'] {
        assert(s.subrange(e, e + 7)[1] == s[e + 1]);
    }
}

proof fn lemma_content_transaction(s: Seq<char>, e: int, t: DirectiveTransactionView)
    requires
        sp_open_parts(s, e) is None,
        sp_balance(s, e) is None,
        sp_transaction(s, e) == Some((t, s.len() as int)),
    ensures
        sp_directive_content(s, e) == Some(
            (DirectiveVariantView::Transaction(t), s.len() as int),
        ),
{
}

proof fn lemma_directive_from_parts(d: DirectiveView)
    requires
        sp_date(directive_text(d), 0) == Some((d.date, date_text(d.date).len() as int)),
        ws1(directive_text(d), date_text(d.date).len() as int) == Some(
            date_text(d.date).len() as int + 1,
        ),
        sp_directive_content(directive_text(d), date_text(d.date).len() as int + 1) == Some(
            (d.content, directive_text(d).len() as int),
        ),
    ensures
        sp_directive(directive_text(d), 0) == Some((d, directive_text(d).len() as int)),
{
}

proof fn lemma_transaction_second_char(t: DirectiveTransactionView)
    requires
        t.postings.len() >= 1,
    ensures
        transaction_text(t).len() >= 2,
        transaction_text(t)[0] == flag_char(t.flag),
        transaction_text(t)[1] == ' ' || transaction_text(t)[1] == '\n',
{
    let c = flag_char(t.flag);
    let dp = description_part(t.description);
    lemma_postings_forward(t.postings);
    assert(transaction_text(t) =~= seq![c] + (dp + postings_text(t.postings)));
    if t.description is Some {
        assert(transaction_text(t)[1] == ' ');
    } else {
        assert(transaction_text(t)[1] == '\n');
    }
}

#[verifier::rlimit(100)]
proof fn lemma_transaction_directive_round_trip(d: DirectiveView, t: DirectiveTransactionView)
    requires
        valid_date(d.date),
        d.content == DirectiveVariantView::Transaction(t),
        valid_transaction(t),
    ensures
        sp_directive(directive_text(d), 0) == Some((d, directive_text(d).len() as int)),
{
    let s = directive_text(d);
    let e: int = date_text(d.date).len() as int + 1;
    let ct = content_text(d.content);
    lemma_transaction_second_char(t);
    assert(ct == transaction_text(t));
    lemma_directive_head(d);
    lemma_transaction_at(s, e, t);
    lemma_at_index(s, e, ct, 1);
    lemma_not_open_or_balance(s, e);
    lemma_content_transaction(s, e, t);
    lemma_directive_from_parts(d);
}

/// Round trip: a directive written out reads back as itself; the grammar
/// reads the whole canonical text and gives the same directive.
pub proof fn lemma_directive_round_trip(d: DirectiveView)
    requires
        valid_directive(d),
    ensures
        sp_directive(directive_text(d), 0) == Some((d, directive_text(d).len() as int)),
{
    match d.content {
        DirectiveVariantView::Transaction(t) => {
            lemma_transaction_directive_round_trip(d, t);
        },
        _ => {
            lemma_open_or_balance_directive_round_trip(d);
        },
    }
}

/// A posting's amount, written out, reads back as itself.
pub proof fn lemma_posting_amount_round_trip(pa: PostingAmountView)
    requires
        valid_posting_amount(pa),
    ensures
        sp_posting_amount(posting_amount_text(pa), 0) == Some(
            (pa, posting_amount_text(pa).len() as int),
        ),
{
    let t = posting_amount_text(pa);
    lemma_at_whole(t);
    lemma_posting_amount_at(t, 0, pa, None);
}

proof fn lemma_digit_char_of_value(c: char)
    requires
        is_digit(c),
    ensures
        digit_char(digit_value(c)) == c,
        digit_value(c) < 10,
{
}

/// Digits, padded to their own length, give back the same digits.
proof fn lemma_padded_of_value(u: Seq<char>)
    requires
        u.len() >= 1,
        all_digits(u),
    ensures
        padded_digits(digits_value(u), u.len()) == u,
    decreases u.len(),
{
    let n = (u.len() - 1) as nat;
    let c = u.last();
    let up = u.drop_last();
    lemma_digit_char_of_value(c);
    let d = digit_value(c);
    if n == 0 {
        assert(up =~= seq![]);
        assert(digits_value(up) == 0);
        assert(digits_value(u) == d);
        assert(u =~= seq![c]);
    } else {
        assert forall|q: int| 0 <= q < up.len() implies is_digit(#[trigger] up[q]) by {
            assert(up[q] == u[q]);
        }
        lemma_padded_of_value(up);
        let vp = digits_value(up);
        let v = digits_value(u);
        assert(v == vp * 10 + d);
        lemma_digits_value_bound(up);
        lemma_digits_of_len_general(vp, n);
        if vp == 0 {
            assert(v == d);
            assert(digits_of(0) == seq!['0']);
            assert(up =~= zeros(n)) by {
                if n > 1 {
                    assert(padded_digits(0, n) =~= zeros((n - 1) as nat) + seq!['0']);
                    assert(zeros((n - 1) as nat) + seq!['0'] =~= zeros(n));
                } else {
                    assert(padded_digits(0, n) == seq!['0']);
                }
            }
            assert(digits_of(v) == seq![c]);
            assert(u =~= zeros(n) + seq![c]);
        } else {
            assert(v / 10 == vp && v % 10 == d) by (nonlinear_arith)
                requires
                    v == vp * 10 + d,
                    d < 10,
            ;
            assert(digits_of(v) == digits_of(vp).push(c));
            let l = digits_of(vp).len();
            if l >= n {
                assert(up == digits_of(vp));
                assert(u =~= up.push(c));
            } else {
                let z = zeros((n - l) as nat);
                assert(up == z + digits_of(vp));
                assert(padded_digits(v, n + 1) =~= z + digits_of(vp).push(c));
                assert(u =~= (z + digits_of(vp)).push(c));
            }
        }
    }
}

proof fn lemma_digits_of_len_general(n: nat, k: nat)
    requires
        n < pow10(k),
    ensures
        k >= 1 ==> digits_of(n).len() <= k,
{
    if k >= 1 {
        lemma_digits_of_len(n, k);
    }
}

/// Decimal text as the marshaller writes it: a `-` only before a number that
/// is not zero, and no `0` before another digit at the start.
pub open spec fn canonical_number(t: Seq<char>, d: Decimal) -> bool {
    let k: int = if t.len() > 0 && t[0] == '-' {
        1
    } else {
        0
    };
    &&& t.len() > 0 && t[0] != '+'
    &&& t[0] == '-' ==> d.mantissa != 0
    &&& !(k + 1 < t.len() && t[k] == '0' && is_digit(t[k + 1]))
}

/// Text of a number in canonical form, read and written out again, is the
/// same text: the scale is kept as typed.
pub proof fn lemma_decimal_text_round_trip(t: Seq<char>)
    requires
        sp_decimal(t, 0) is Some,
        sp_decimal(t, 0)->Some_0.1 == t.len(),
        canonical_number(t, sp_decimal(t, 0)->Some_0.0),
    ensures
        decimal_text(sp_decimal(t, 0)->Some_0.0) == t,
{
    let d = sp_decimal(t, 0)->Some_0.0;
    let k: int = if t[0] == '-' {
        1
    } else {
        0
    };
    let e1 = digits_end(t, k);
    crate::grammar::lemma_digits_end(t, k);
    let has_frac = e1 < t.len() && t[e1] == '.' && digits_end(t, e1 + 1) > e1 + 1;
    let ip = t.subrange(k, e1);
    let fp = if has_frac {
        t.subrange(e1 + 1, digits_end(t, e1 + 1))
    } else {
        seq![]
    };
    if has_frac {
        crate::grammar::lemma_digits_end(t, e1 + 1);
    }
    let u = ip + fp;
    assert forall|q: int| 0 <= q < u.len() implies is_digit(#[trigger] u[q]) by {
        if q < ip.len() {
            assert(u[q] == ip[q]);
        } else {
            assert(u[q] == fp[q - ip.len()]);
        }
    }
    let v = digits_value(u);
    lemma_padded_of_value(u);
    lemma_digits_value_bound(u);
    lemma_pow10_mono(u.len(), 28);
    lemma_pow10_28();
    assert(magnitude(d.mantissa as int) == v);
    let w = (fp.len() + 1) as nat;
    assert(d.scale == fp.len());
    if ip.len() >= 2 {
        assert(ip[0] == t[k] && ip[1] == t[k + 1]);
        assert(u[0] != '0');
        if digits_of(v).len() < u.len() {
            assert(padded_digits(v, u.len()) == zeros((u.len() - digits_of(v).len()) as nat)
                + digits_of(v));
            assert(u[0] == '0');
        }
        assert(padded_digits(v, w) == u);
    } else {
        assert(u.len() == w);
    }
    let body = padded_digits(v, w);
    if has_frac {
        assert(body.take(body.len() - fp.len()) =~= ip);
        assert(body.skip(body.len() - fp.len()) =~= fp);
        assert(t.subrange(k, t.len() as int) =~= ip + seq!['.'] + fp);
    } else {
        assert(t.subrange(k, t.len() as int) =~= ip);
    }
    assert(unsigned_decimal_text(d) == t.subrange(k, t.len() as int));
    if k == 1 {
        assert(t =~= seq!['-'] + t.subrange(1, t.len() as int));
    } else {
        assert(t =~= t.subrange(0, t.len() as int));
    }
}

} // verus!
