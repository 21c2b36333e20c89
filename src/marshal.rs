//! Canonical text for every production of the grammar. Each writer appends
//! to a string exactly the text its spec function gives.
use vstd::prelude::*;
use crate::account::{Account, AccountView, component_views};
use crate::amount::{
    Amount, AmountView, AmountWithTolerance, AmountWithToleranceView, PostingAmount,
    PostingAmountView,
};
use crate::commodity::{
    Commodity, canonical_order, commodity_views, insert_sorted, lemma_canonical_order,
    strictly_ascending,
};
use crate::date::Date;
use crate::decimal::{Decimal, decimal_text, magnitude, padded_digit_chars, padded_digits, push_range, write_decimal};
use crate::directive::{
    Directive, DirectiveBalance, DirectiveBalanceView, DirectiveOpen, DirectiveOpenView,
    DirectiveTransaction, DirectiveTransactionView, DirectiveVariant, DirectiveVariantView,
    DirectiveView, Flag, Posting, PostingView, TransactionDescription,
    TransactionDescriptionView, flag_char, posting_views,
};
use crate::grammar::{account_type_name, account_type_str};
use crate::text::{chars_of, push_char};

verus! {

/// Appends a string.
pub fn append_str(out: &mut String, s: &str)
    ensures
        final(out)@ == old(out)@ + s@,
{
    let cs = chars_of(s);
    push_range(out, &cs, 0, cs.len());
    assert(cs@.subrange(0, cs@.len() as int) =~= s@);
}

// ---- account ----

/// `:` before each component.
pub open spec fn components_text(cs: Seq<Seq<char>>) -> Seq<char>
    decreases cs.len(),
{
    if cs.len() == 0 {
        seq![]
    } else {
        seq![':'] + cs[0] + components_text(cs.drop_first())
    }
}

/// An account: its type's keyword, then `:` and each component.
pub open spec fn account_text(a: AccountView) -> Seq<char> {
    account_type_name(a.account_type) + components_text(a.components)
}

proof fn lemma_components_text_push(cs: Seq<Seq<char>>, c: Seq<char>)
    ensures
        components_text(cs.push(c)) == components_text(cs) + seq![':'] + c,
    decreases cs.len(),
{
    if cs.len() == 0 {
        assert(cs.push(c).drop_first() =~= seq![]);
        assert(cs.push(c)[0] == c);
        assert(components_text(cs.push(c).drop_first()) == Seq::<char>::empty());
        assert(components_text(cs) == Seq::<char>::empty());
        assert(seq![':'] + c + Seq::<char>::empty() =~= components_text(cs) + seq![':'] + c);
    } else {
        assert(cs.push(c).drop_first() =~= cs.drop_first().push(c));
        lemma_components_text_push(cs.drop_first(), c);
        assert(components_text(cs.push(c)) =~= components_text(cs) + seq![':'] + c);
    }
}

pub fn write_account(a: &Account, out: &mut String)
    ensures
        final(out)@ == old(out)@ + account_text(a@),
{
    append_str(out, account_type_str(a.account_type()));
    let cs = a.components();
    let ghost views = component_views(cs@);
    let ghost start = out@;
    let mut i: usize = 0;
    while i < cs.len()
        invariant
            0 <= i <= cs.len(),
            views == component_views(cs@),
            views == a@.components,
            out@ == start + components_text(views.take(i as int)),
        decreases cs.len() - i,
    {
        push_char(out, ':');
        append_str(out, cs[i].as_str());
        proof {
            assert(views.take(i + 1) =~= views.take(i as int).push(views[i as int]));
            lemma_components_text_push(views.take(i as int), views[i as int]);
        }
        i += 1;
    }
    proof {
        assert(views.take(i as int) =~= views);
    }
}

// ---- commodities and amounts ----

/// Texts joined by `,`.
pub open spec fn join_commas(cs: Seq<Seq<char>>) -> Seq<char>
    decreases cs.len(),
{
    if cs.len() == 0 {
        seq![]
    } else if cs.len() == 1 {
        cs[0]
    } else {
        cs[0] + seq![','] + join_commas(cs.drop_first())
    }
}

proof fn lemma_join_push(cs: Seq<Seq<char>>, c: Seq<char>)
    requires
        cs.len() >= 1,
    ensures
        join_commas(cs.push(c)) == join_commas(cs) + seq![','] + c,
    decreases cs.len(),
{
    if cs.len() == 1 {
        assert(cs.push(c).drop_first() =~= seq![c]);
        assert(join_commas(seq![c]) == c);
        assert(cs.push(c)[0] == cs[0]);
        assert(join_commas(cs) == cs[0]);
    } else {
        assert(cs.push(c).drop_first() =~= cs.drop_first().push(c));
        lemma_join_push(cs.drop_first(), c);
        assert(join_commas(cs.push(c)) =~= join_commas(cs) + seq![','] + c);
    }
}

/// Writes the commodities in ascending order, each once, joined by `,`.
pub fn write_commodity_list(cs: &[Commodity], out: &mut String)
    ensures
        final(out)@ == old(out)@ + join_commas(canonical_order(commodity_views(cs@))),
        strictly_ascending(canonical_order(commodity_views(cs@))),
        canonical_order(commodity_views(cs@)).to_set() == commodity_views(cs@).to_set(),
{
    let ghost all = commodity_views(cs@);
    let mut sorted: Vec<Commodity> = Vec::new();
    let mut i: usize = 0;
    proof {
        assert(commodity_views(sorted@).to_set() =~= all.take(0).to_set());
    }
    while i < cs.len()
        invariant
            0 <= i <= cs.len(),
            all == commodity_views(cs@),
            strictly_ascending(commodity_views(sorted@)),
            commodity_views(sorted@).to_set() == all.take(i as int).to_set(),
        decreases cs.len() - i,
    {
        let c = cs[i].clone();
        insert_sorted(&mut sorted, c);
        proof {
            let prev = all.take(i as int);
            assert(all.take(i + 1) == prev.push(c@));
            assert forall|x: Seq<char>| prev.push(c@).to_set().contains(x) <==> prev.to_set().insert(
                c@,
            ).contains(x) by {
                if prev.push(c@).to_set().contains(x) {
                    let k = choose|k: int| 0 <= k < prev.len() + 1 && prev.push(c@)[k] == x;
                    if k < prev.len() {
                        assert(prev[k] == x);
                    }
                }
                if prev.to_set().contains(x) {
                    let k = choose|k: int| 0 <= k < prev.len() && prev[k] == x;
                    assert(prev.push(c@)[k] == x);
                }
                if x == c@ {
                    assert(prev.push(c@)[prev.len() as int] == x);
                }
            }
            assert(all.take(i + 1).to_set() =~= prev.to_set().insert(c@));
        }
        i += 1;
    }
    proof {
        assert(all.take(i as int) =~= all);
        lemma_canonical_order(all, commodity_views(sorted@));
    }
    let ghost views = commodity_views(sorted@);
    let ghost start = out@;
    let mut k: usize = 0;
    while k < sorted.len()
        invariant
            0 <= k <= sorted.len(),
            views == commodity_views(sorted@),
            out@ == start + join_commas(views.take(k as int)),
        decreases sorted.len() - k,
    {
        if k > 0 {
            push_char(out, ',');
        }
        append_str(out, sorted[k].as_str());
        proof {
            assert(views.take(k + 1) =~= views.take(k as int).push(views[k as int]));
            if k > 0 {
                lemma_join_push(views.take(k as int), views[k as int]);
            } else {
                assert(join_commas(views.take(1)) == views[0]);
                assert(views.take(0) =~= seq![]);
            }
        }
        k += 1;
    }
    proof {
        assert(views.take(k as int) =~= views);
    }
}

/// An amount: its number, a space, its commodity.
pub open spec fn amount_text(a: AmountView) -> Seq<char> {
    decimal_text(a.number) + seq![' '] + a.commodity
}

pub fn write_amount(a: &Amount, out: &mut String)
    ensures
        final(out)@ == old(out)@ + amount_text(a@),
{
    write_decimal(a.number(), out);
    push_char(out, ' ');
    append_str(out, a.commodity().as_str());
    assert(final(out)@ =~= old(out)@ + amount_text(a@));
}

/// An amount with a tolerance: the number, ` ~ ` and the tolerance if there
/// is one, a space, the commodity.
pub open spec fn amount_with_tolerance_text(a: AmountWithToleranceView) -> Seq<char> {
    decimal_text(a.amount.number) + (match a.tolerance {
        Some(t) => seq![' ', '~', ' '] + decimal_text(t),
        None => seq![],
    }) + seq![' '] + a.amount.commodity
}

pub fn write_amount_with_tolerance(a: &AmountWithTolerance, out: &mut String)
    ensures
        final(out)@ == old(out)@ + amount_with_tolerance_text(a@),
{
    write_decimal(a.number(), out);
    let ghost mid = out@;
    match a.tolerance() {
        Some(t) => {
            push_char(out, ' ');
            push_char(out, '~');
            push_char(out, ' ');
            write_decimal(t, out);
        },
        None => {},
    }
    push_char(out, ' ');
    append_str(out, a.commodity().as_str());
    assert(final(out)@ =~= old(out)@ + amount_with_tolerance_text(a@));
}

/// A posting's amount: the amount, then ` {cost}` and ` @ price` when there
/// are such.
pub open spec fn posting_amount_text(p: PostingAmountView) -> Seq<char> {
    amount_text(p.amount) + cost_part(p.cost) + price_part(p.price)
}

/// ` {cost}`, if there is a cost.
pub open spec fn cost_part(c: Option<AmountView>) -> Seq<char> {
    match c {
        Some(c) => seq![' ', '{'] + amount_text(c) + seq!['}'],
        None => seq![],
    }
}

/// ` @ price`, if there is a price.
pub open spec fn price_part(q: Option<AmountView>) -> Seq<char> {
    match q {
        Some(q) => seq![' ', '@', ' '] + amount_text(q),
        None => seq![],
    }
}

pub fn write_posting_amount(p: &PostingAmount, out: &mut String)
    ensures
        final(out)@ == old(out)@ + posting_amount_text(p@),
{
    write_amount(p.amount(), out);
    let ghost o1 = out@;
    match p.cost() {
        Some(c) => {
            push_char(out, ' ');
            push_char(out, '{');
            write_amount(c, out);
            push_char(out, '}');
        },
        None => {},
    }
    assert(out@ =~= o1 + cost_part(p@.cost));
    let ghost o2 = out@;
    match p.price() {
        Some(q) => {
            push_char(out, ' ');
            push_char(out, '@');
            push_char(out, ' ');
            write_amount(q, out);
        },
        None => {},
    }
    assert(out@ =~= o2 + price_part(p@.price));
    assert(final(out)@ =~= old(out)@ + posting_amount_text(p@));
}

// ---- quoted strings, descriptions, postings, transactions ----

/// One character as written between quotes: `"` and `\` get a `\` before.
pub open spec fn escaped_char(c: char) -> Seq<char> {
    if c == '"' || c == '\\' {
        seq!['\\', c]
    } else {
        seq![c]
    }
}

/// A text with each `"` and `\` escaped by a `\`.
pub open spec fn escaped(t: Seq<char>) -> Seq<char>
    decreases t.len(),
{
    if t.len() == 0 {
        seq![]
    } else {
        escaped_char(t[0]) + escaped(t.drop_first())
    }
}

proof fn lemma_escaped_push(t: Seq<char>, c: char)
    ensures
        escaped(t.push(c)) == escaped(t) + escaped_char(c),
    decreases t.len(),
{
    if t.len() == 0 {
        assert(t.push(c).drop_first() =~= seq![]);
        assert(t.push(c)[0] == c);
        assert(escaped(t.push(c).drop_first()) == Seq::<char>::empty());
        assert(escaped(t) == Seq::<char>::empty());
        assert(escaped(t.push(c)) =~= escaped(t) + escaped_char(c));
    } else {
        assert(t.push(c).drop_first() =~= t.drop_first().push(c));
        lemma_escaped_push(t.drop_first(), c);
        assert(t.push(c)[0] == t[0]);
        assert(escaped(t.push(c)) =~= escaped(t) + escaped_char(c));
    }
}

/// A text between quotes, escaped.
pub open spec fn quoted_text(t: Seq<char>) -> Seq<char> {
    seq!['"'] + escaped(t) + seq!['"']
}

pub fn write_quoted(t: &str, out: &mut String)
    ensures
        final(out)@ == old(out)@ + quoted_text(t@),
{
    let cs = chars_of(t);
    push_char(out, '"');
    let ghost start = out@;
    let mut i: usize = 0;
    while i < cs.len()
        invariant
            0 <= i <= cs.len(),
            out@ == start + escaped(cs@.take(i as int)),
        decreases cs.len() - i,
    {
        let c = cs[i];
        if c == '"' || c == '\\' {
            push_char(out, '\\');
        }
        push_char(out, c);
        proof {
            assert(cs@.take(i + 1) =~= cs@.take(i as int).push(c));
            lemma_escaped_push(cs@.take(i as int), c);
            assert(out@ =~= start + escaped(cs@.take(i + 1)));
        }
        i += 1;
    }
    push_char(out, '"');
    assert(cs@.take(i as int) =~= t@);
    assert(final(out)@ =~= old(out)@ + quoted_text(t@));
}

/// A description: `"payee" "narration"`, or `"narration"`.
pub open spec fn description_text(d: TransactionDescriptionView) -> Seq<char> {
    match d.payee {
        Some(p) => quoted_text(p) + seq![' '] + quoted_text(d.narration),
        None => quoted_text(d.narration),
    }
}

pub fn write_description(d: &TransactionDescription, out: &mut String)
    ensures
        final(out)@ == old(out)@ + description_text(d@),
{
    match d.payee() {
        Some(p) => {
            write_quoted(p, out);
            push_char(out, ' ');
            write_quoted(d.narration(), out);
        },
        None => {
            write_quoted(d.narration(), out);
        },
    }
    assert(final(out)@ =~= old(out)@ + description_text(d@));
}

/// A posting's flag and a space, if it has one.
pub open spec fn flag_part(f: Option<Flag>) -> Seq<char> {
    match f {
        Some(f) => seq![flag_char(f), ' '],
        None => seq![],
    }
}

/// Two spaces and a posting's amount, if it has one.
pub open spec fn posting_amount_part(a: Option<PostingAmountView>) -> Seq<char> {
    match a {
        Some(a) => seq![' ', ' '] + posting_amount_text(a),
        None => seq![],
    }
}

/// A posting line: two spaces, the flag and a space if there is one, the
/// account, then two spaces and the amount if there is one.
pub open spec fn posting_text(p: PostingView) -> Seq<char> {
    seq![' ', ' '] + flag_part(p.flag) + account_text(p.account) + posting_amount_part(p.amount)
}

#[verifier::rlimit(30)]
pub fn write_posting(p: &Posting, out: &mut String)
    ensures
        final(out)@ == old(out)@ + posting_text(p@),
{
    push_char(out, ' ');
    push_char(out, ' ');
    let ghost o1 = out@;
    match p.flag() {
        Some(f) => {
            push_char(out, f.as_char());
            push_char(out, ' ');
        },
        None => {},
    }
    assert(out@ =~= o1 + flag_part(p@.flag));
    let ghost o2 = out@;
    write_account(p.account(), out);
    let ghost o3 = out@;
    match p.amount() {
        Some(a) => {
            push_char(out, ' ');
            push_char(out, ' ');
            write_posting_amount(a, out);
        },
        None => {},
    }
    assert(out@ =~= o3 + posting_amount_part(p@.amount));
    assert(final(out)@ =~= old(out)@ + posting_text(p@));
}

/// Each posting line after a newline.
pub open spec fn postings_text(ps: Seq<PostingView>) -> Seq<char>
    decreases ps.len(),
{
    if ps.len() == 0 {
        seq![]
    } else {
        postings_text(ps.drop_last()) + seq!['\n'] + posting_text(ps.last())
    }
}

/// A transaction: its flag, a space and the description if there is one,
/// then its posting lines.
pub open spec fn transaction_text(t: DirectiveTransactionView) -> Seq<char> {
    seq![flag_char(t.flag)] + description_part(t.description) + postings_text(t.postings)
}

/// A space and the description, if there is one.
pub open spec fn description_part(d: Option<TransactionDescriptionView>) -> Seq<char> {
    match d {
        Some(d) => seq![' '] + description_text(d),
        None => seq![],
    }
}

pub fn write_transaction(t: &DirectiveTransaction, out: &mut String)
    ensures
        final(out)@ == old(out)@ + transaction_text(t@),
{
    push_char(out, t.flag().as_char());
    let ghost o1 = out@;
    match t.description() {
        Some(d) => {
            push_char(out, ' ');
            write_description(d, out);
        },
        None => {},
    }
    assert(out@ =~= o1 + description_part(t@.description));
    let ghost mid = out@;
    let ps = t.postings();
    let ghost views = posting_views(ps@);
    let mut i: usize = 0;
    while i < ps.len()
        invariant
            0 <= i <= ps.len(),
            views == posting_views(ps@),
            views == t@.postings,
            out@ == mid + postings_text(views.take(i as int)),
        decreases ps.len() - i,
    {
        push_char(out, '\n');
        write_posting(&ps[i], out);
        proof {
            let u = views.take(i + 1);
            assert(u.drop_last() =~= views.take(i as int));
            assert(out@ =~= mid + postings_text(u));
        }
        i += 1;
    }
    proof {
        assert(views.take(i as int) =~= views);
    }
    assert(final(out)@ =~= old(out)@ + transaction_text(t@));
}

// ---- directives ----

/// An open directive: `open `, the account, then a space and the
/// commodities in ascending order if there are any.
pub open spec fn open_text(o: DirectiveOpenView) -> Seq<char> {
    seq!['o', 'p', 'e', 'n', ' '] + account_text(o.account) + (if o.commodities.len() > 0 {
        seq![' '] + join_commas(canonical_order(o.commodities))
    } else {
        seq![]
    })
}

pub fn write_open(o: &DirectiveOpen, out: &mut String)
    ensures
        final(out)@ == old(out)@ + open_text(o@),
{
    push_char(out, 'o');
    push_char(out, 'p');
    push_char(out, 'e');
    push_char(out, 'n');
    push_char(out, ' ');
    write_account(o.account(), out);
    let cs = o.commodity_constraints();
    if cs.len() > 0 {
        push_char(out, ' ');
        write_commodity_list(cs, out);
    }
    assert(final(out)@ =~= old(out)@ + open_text(o@));
}

/// A balance directive: `balance `, the account, a space, the amount.
pub open spec fn balance_text(b: DirectiveBalanceView) -> Seq<char> {
    seq!['b', 'a', 'l', 'a', 'n', 'c', 'e', ' '] + account_text(b.account) + seq![' ']
        + amount_with_tolerance_text(b.amount)
}

pub fn write_balance(b: &DirectiveBalance, out: &mut String)
    ensures
        final(out)@ == old(out)@ + balance_text(b@),
{
    push_char(out, 'b');
    push_char(out, 'a');
    push_char(out, 'l');
    push_char(out, 'a');
    push_char(out, 'n');
    push_char(out, 'c');
    push_char(out, 'e');
    push_char(out, ' ');
    write_account(b.account(), out);
    push_char(out, ' ');
    write_amount_with_tolerance(b.amount_with_tolerance(), out);
    assert(final(out)@ =~= old(out)@ + balance_text(b@));
}

/// A date as `YYYY-MM-DD`, with a `-` in front of a negative year.
pub open spec fn date_text(d: Date) -> Seq<char> {
    (if d.year < 0 {
        seq!['-']
    } else {
        seq![]
    }) + padded_digits(magnitude(d.year as int), 4) + seq!['-'] + padded_digits(
        d.month as nat,
        2,
    ) + seq!['-'] + padded_digits(d.day as nat, 2)
}

pub fn write_date(d: &Date, out: &mut String)
    ensures
        final(out)@ == old(out)@ + date_text(*d),
{
    if d.year < 0 {
        push_char(out, '-');
    }
    let y: u128 = if d.year < 0 {
        (0 - (d.year as i64)) as u128
    } else {
        d.year as u128
    };
    let ys = padded_digit_chars(y, 3);
    push_range(out, &ys, 0, ys.len());
    push_char(out, '-');
    let ms = padded_digit_chars(d.month as u128, 1);
    push_range(out, &ms, 0, ms.len());
    push_char(out, '-');
    let ds = padded_digit_chars(d.day as u128, 1);
    push_range(out, &ds, 0, ds.len());
    assert(ys@.subrange(0, ys@.len() as int) =~= ys@);
    assert(ms@.subrange(0, ms@.len() as int) =~= ms@);
    assert(ds@.subrange(0, ds@.len() as int) =~= ds@);
    assert(final(out)@ =~= old(out)@ + date_text(*d));
}

/// A directive's content.
pub open spec fn content_text(c: DirectiveVariantView) -> Seq<char> {
    match c {
        DirectiveVariantView::Open(o) => open_text(o),
        DirectiveVariantView::Balance(b) => balance_text(b),
        DirectiveVariantView::Transaction(t) => transaction_text(t),
    }
}

/// A directive: its date, a space, its content.
pub open spec fn directive_text(d: DirectiveView) -> Seq<char> {
    date_text(d.date) + seq![' '] + content_text(d.content)
}

pub fn write_directive(d: &Directive, out: &mut String)
    ensures
        final(out)@ == old(out)@ + directive_text(d@),
{
    write_date(d.date(), out);
    push_char(out, ' ');
    match d.content() {
        DirectiveVariant::Open(o) => write_open(o, out),
        DirectiveVariant::Balance(b) => write_balance(b, out),
        DirectiveVariant::Transaction(t) => write_transaction(t, out),
    }
    assert(final(out)@ =~= old(out)@ + directive_text(d@));
}

// ---- whole values ----

/// The canonical text of an account.
pub fn marshal_account(a: &Account) -> (r: String)
    ensures
        r@ == account_text(a@),
{
    let mut out = String::new();
    write_account(a, &mut out);
    assert(out@ =~= account_text(a@));
    out
}

/// The canonical text of commodities, in ascending order and each once,.
pub fn marshal_commodity_list(cs: &[Commodity]) -> (r: String)
    ensures
        r@ == join_commas(canonical_order(commodity_views(cs@))),
        strictly_ascending(canonical_order(commodity_views(cs@))),
        canonical_order(commodity_views(cs@)).to_set() == commodity_views(cs@).to_set(),
{
    let mut out = String::new();
    write_commodity_list(cs, &mut out);
    assert(out@ =~= join_commas(canonical_order(commodity_views(cs@))));
    out
}

/// The canonical text of a number.
pub fn marshal_decimal(d: &Decimal) -> (r: String)
    ensures
        r@ == decimal_text(*d),
{
    let mut out = String::new();
    write_decimal(d, &mut out);
    assert(out@ =~= decimal_text(*d));
    out
}

/// The canonical text of a date.
pub fn marshal_date(d: &Date) -> (r: String)
    ensures
        r@ == date_text(*d),
{
    let mut out = String::new();
    write_date(d, &mut out);
    assert(out@ =~= date_text(*d));
    out
}

/// The canonical text of a string, quoted and escaped,.
pub fn marshal_quoted_string(t: &str) -> (r: String)
    ensures
        r@ == quoted_text(t@),
{
    let mut out = String::new();
    write_quoted(t, &mut out);
    assert(out@ =~= quoted_text(t@));
    out
}

/// The canonical text of an amount.
pub fn marshal_amount(a: &Amount) -> (r: String)
    ensures
        r@ == amount_text(a@),
{
    let mut out = String::new();
    write_amount(a, &mut out);
    assert(out@ =~= amount_text(a@));
    out
}

/// The canonical text of an amount with its tolerance.
pub fn marshal_amount_with_tolerance(a: &AmountWithTolerance) -> (r: String)
    ensures
        r@ == amount_with_tolerance_text(a@),
{
    let mut out = String::new();
    write_amount_with_tolerance(a, &mut out);
    assert(out@ =~= amount_with_tolerance_text(a@));
    out
}

/// The canonical text of a posting's amount.
pub fn marshal_posting_amount(p: &PostingAmount) -> (r: String)
    ensures
        r@ == posting_amount_text(p@),
{
    let mut out = String::new();
    write_posting_amount(p, &mut out);
    assert(out@ =~= posting_amount_text(p@));
    out
}

/// The canonical text of a posting line.
pub fn marshal_posting(p: &Posting) -> (r: String)
    ensures
        r@ == posting_text(p@),
{
    let mut out = String::new();
    write_posting(p, &mut out);
    assert(out@ =~= posting_text(p@));
    out
}

/// The canonical text of a description.
pub fn marshal_transaction_description(d: &TransactionDescription) -> (r: String)
    ensures
        r@ == description_text(d@),
{
    let mut out = String::new();
    write_description(d, &mut out);
    assert(out@ =~= description_text(d@));
    out
}

/// The canonical text of a transaction without its date.
pub fn marshal_transaction_directive(t: &DirectiveTransaction) -> (r: String)
    ensures
        r@ == transaction_text(t@),
{
    let mut out = String::new();
    write_transaction(t, &mut out);
    assert(out@ =~= transaction_text(t@));
    out
}

/// The canonical text of an open directive without its date.
pub fn marshal_open_directive(o: &DirectiveOpen) -> (r: String)
    ensures
        r@ == open_text(o@),
{
    let mut out = String::new();
    write_open(o, &mut out);
    assert(out@ =~= open_text(o@));
    out
}

/// The canonical text of a balance directive without its date.
pub fn marshal_balance_directive(b: &DirectiveBalance) -> (r: String)
    ensures
        r@ == balance_text(b@),
{
    let mut out = String::new();
    write_balance(b, &mut out);
    assert(out@ =~= balance_text(b@));
    out
}

/// The canonical text of a directive.
pub fn marshal_directive(d: &Directive) -> (r: String)
    ensures
        r@ == directive_text(d@),
{
    let mut out = String::new();
    write_directive(d, &mut out);
    assert(out@ =~= directive_text(d@));
    out
}

/// The text of an account component.
pub fn marshal_account_component(c: &crate::account::AccountComponent) -> (r: String)
    ensures
        r@ == c@,
{
    c.to_string()
}

/// The keyword of an account type.
pub fn marshal_account_type(t: crate::account::AccountType) -> (r: String)
    ensures
        r@ == account_type_name(t),
{
    account_type_str(t).to_owned()
}

/// The code of a commodity.
pub fn marshal_commodity(c: &Commodity) -> (r: String)
    ensures
        r@ == c@,
{
    c.to_string()
}

/// The character of a flag.
pub fn marshal_flag(f: Flag) -> (r: String)
    ensures
        r@ == seq![flag_char(f)],
{
    let mut out = String::new();
    push_char(&mut out, f.as_char());
    assert(out@ =~= seq![flag_char(f)]);
    out
}

} // verus!
