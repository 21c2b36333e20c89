//! What the grammar produces is a value the marshaller can write and read
//! back: reading, writing and reading again gives what the first reading gave.
use vstd::prelude::*;
use crate::account::{is_valid_component, valid_account};
use crate::commodity::{
    canonical_order, is_valid_commodity, lemma_text_less_total, lemma_text_less_transitive,
    strictly_ascending, text_less,
};
use crate::date::valid_date;
use crate::decimal::{pow10, valid_decimal};
use crate::directive::{flag_char, flag_of, valid_flag};
use crate::grammar::{
    lemma_digits_value_bound, lemma_pow10_28, lemma_pow10_mono, sp_account, sp_amount,
    sp_amount_with_tolerance, sp_balance, sp_commodity, sp_commodity_list, sp_commodity_rest,
    sp_components, sp_cost, sp_date, sp_decimal, sp_directive, sp_flag_ws, sp_open,
    sp_open_parts, sp_posting, sp_posting_amount, sp_postings, sp_price, sp_tolerance,
    sp_transaction, sp_transaction_flag, sp_unsigned_decimal,
};
use crate::laws::{
    lemma_directive_round_trip, valid_amount, valid_amount_with_tolerance, valid_directive,
    valid_posting, valid_posting_amount, valid_transaction,
};
use crate::marshal::directive_text;
use crate::text::is_white_space;

verus! {

proof fn lemma_read_components(s: Seq<char>, i: int)
    ensures
        sp_components(s, i) is Ok ==> forall|k: int|
            0 <= k < sp_components(s, i)->Ok_0.0.len() ==> is_valid_component(
                #[trigger] sp_components(s, i)->Ok_0.0[k],
            ),
    decreases s.len() - i,
{
    if 0 <= i < s.len() && s[i] == ':' {
        match crate::grammar::sp_component(s, i + 1) {
            Some((c, e)) => if i < e <= s.len() {
                lemma_read_components(s, e);
                if sp_components(s, i) is Ok {
                    let all = sp_components(s, i)->Ok_0.0;
                    let rest = sp_components(s, e)->Ok_0.0;
                    assert forall|k: int| 0 <= k < all.len() implies is_valid_component(
                        #[trigger] all[k],
                    ) by {
                        if k > 0 {
                            assert(all[k] == rest[k - 1]);
                        }
                    }
                }
            },
            None => {},
        }
    }
}

proof fn lemma_read_account(s: Seq<char>, i: int)
    requires
        sp_account(s, i) is Some,
    ensures
        valid_account(sp_account(s, i)->Some_0.0),
{
    let (t, e) = crate::grammar::sp_account_type(s, i)->Some_0;
    lemma_read_components(s, e);
}

proof fn lemma_read_unsigned(s: Seq<char>, i: int)
    requires
        sp_unsigned_decimal(s, i) is Some,
    ensures
        valid_decimal(sp_unsigned_decimal(s, i)->Some_0.0),
        sp_unsigned_decimal(s, i)->Some_0.0.mantissa >= 0,
{
    let e1 = crate::grammar::digits_end(s, i);
    let has_frac = e1 < s.len() && s[e1] == '.' && crate::grammar::digits_end(s, e1 + 1) > e1 + 1;
    let ip = s.subrange(i, e1);
    let fp = if has_frac {
        s.subrange(e1 + 1, crate::grammar::digits_end(s, e1 + 1))
    } else {
        seq![]
    };
    let t = ip + fp;
    lemma_digits_value_bound(t);
    lemma_pow10_mono(t.len(), 28);
    lemma_pow10_28();
}

proof fn lemma_read_decimal(s: Seq<char>, i: int)
    requires
        sp_decimal(s, i) is Some,
    ensures
        valid_decimal(sp_decimal(s, i)->Some_0.0),
{
    if 0 <= i < s.len() && (s[i] == '+' || s[i] == '-') {
        lemma_read_unsigned(s, i + 1);
    } else {
        lemma_read_unsigned(s, i);
    }
}

proof fn lemma_read_amount(s: Seq<char>, i: int)
    requires
        sp_amount(s, i) is Some,
    ensures
        valid_amount(sp_amount(s, i)->Some_0.0),
{
    lemma_read_decimal(s, i);
}

proof fn lemma_read_commodity_rest(s: Seq<char>, i: int)
    ensures
        forall|k: int| 0 <= k < sp_commodity_rest(s, i).0.len() ==> is_valid_commodity(
            #[trigger] sp_commodity_rest(s, i).0[k],
        ),
    decreases s.len() - i,
{
    let j = crate::grammar::ws_end(s, i);
    if 0 <= i && j < s.len() && s[j] == ',' {
        match sp_commodity(s, crate::grammar::ws_end(s, j + 1)) {
            Some((c, e)) => if i < e <= s.len() {
                lemma_read_commodity_rest(s, e);
                let rest = sp_commodity_rest(s, e).0;
                assert forall|k: int| 0 <= k < sp_commodity_rest(s, i).0.len() implies is_valid_commodity(
                    #[trigger] sp_commodity_rest(s, i).0[k],
                ) by {
                    if k > 0 {
                        assert(sp_commodity_rest(s, i).0[k] == rest[k - 1]);
                    }
                }
            },
            None => {},
        }
    }
}

/// Inserts a text into a strictly ascending list, unless it is there.
spec fn insert_text(t: Seq<Seq<char>>, x: Seq<char>) -> Seq<Seq<char>>
    decreases t.len(),
{
    if t.len() == 0 {
        seq![x]
    } else if t[0] == x {
        t
    } else if text_less(x, t[0]) {
        seq![x] + t
    } else {
        seq![t[0]] + insert_text(t.drop_first(), x)
    }
}

proof fn lemma_insert_text(t: Seq<Seq<char>>, x: Seq<char>)
    requires
        strictly_ascending(t),
    ensures
        strictly_ascending(insert_text(t, x)),
        insert_text(t, x).to_set() == t.to_set().insert(x),
        forall|y: Seq<char>| #[trigger] insert_text(t, x).contains(y) ==> y == x || t.contains(y),
    decreases t.len(),
{
    let r = insert_text(t, x);
    if t.len() == 0 {
        assert(r.to_set() =~= t.to_set().insert(x)) by {
            assert forall|y: Seq<char>| r.to_set().contains(y) <==> t.to_set().insert(x).contains(y) by {
                if r.to_set().contains(y) {
                    let k = choose|k: int| 0 <= k < r.len() && r[k] == y;
                }
                if y == x {
                    assert(r[0] == x);
                }
            }
        }
    } else if t[0] == x {
        assert(t.to_set().contains(x));
        assert(t.to_set().insert(x) =~= t.to_set());
    } else {
        lemma_text_less_total(x, t[0]);
        let tail = t.drop_first();
        assert forall|a: int, b: int| 0 <= a < b < tail.len() implies text_less(
            #[trigger] tail[a],
            #[trigger] tail[b],
        ) by {
            assert(tail[a] == t[a + 1] && tail[b] == t[b + 1]);
        }
        if text_less(x, t[0]) {
            assert forall|a: int, b: int| 0 <= a < b < r.len() implies text_less(
                #[trigger] r[a],
                #[trigger] r[b],
            ) by {
                if a == 0 {
                    if b > 1 {
                        lemma_text_less_transitive(x, t[0], t[b - 1]);
                    }
                } else {
                    assert(r[a] == t[a - 1] && r[b] == t[b - 1]);
                }
            }
        } else {
            lemma_insert_text(tail, x);
            let ri = insert_text(tail, x);
            assert forall|a: int, b: int| 0 <= a < b < r.len() implies text_less(
                #[trigger] r[a],
                #[trigger] r[b],
            ) by {
                if a == 0 {
                    assert(r[b] == ri[b - 1]);
                    assert(ri.contains(ri[b - 1]));
                    if ri[b - 1] == x {
                    } else {
                        let m = choose|m: int| 0 <= m < tail.len() && tail[m] == ri[b - 1];
                        assert(t[m + 1] == ri[b - 1]);
                    }
                } else {
                    assert(r[a] == ri[a - 1] && r[b] == ri[b - 1]);
                }
            }
        }
        assert forall|y: Seq<char>| r.to_set().contains(y) <==> t.to_set().insert(x).contains(y) by {
            if text_less(x, t[0]) {
                if r.to_set().contains(y) {
                    let k = choose|k: int| 0 <= k < r.len() && r[k] == y;
                    if k > 0 {
                        assert(t[k - 1] == y);
                    }
                }
                if t.to_set().contains(y) {
                    let k = choose|k: int| 0 <= k < t.len() && t[k] == y;
                    assert(r[k + 1] == y);
                }
                if y == x {
                    assert(r[0] == x);
                }
            } else {
                let ri = insert_text(tail, x);
                if r.to_set().contains(y) {
                    let k = choose|k: int| 0 <= k < r.len() && r[k] == y;
                    if k > 0 {
                        assert(ri[k - 1] == y);
                        assert(ri.to_set().contains(y));
                        if y != x {
                            assert(tail.to_set().contains(y));
                            let m = choose|m: int| 0 <= m < tail.len() && tail[m] == y;
                            assert(t[m + 1] == y);
                        }
                    } else {
                        assert(t[0] == y);
                    }
                }
                if t.to_set().contains(y) {
                    let k = choose|k: int| 0 <= k < t.len() && t[k] == y;
                    if k == 0 {
                        assert(r[0] == y);
                    } else {
                        assert(tail[k - 1] == y);
                        assert(tail.to_set().contains(y));
                        assert(ri.to_set().contains(y));
                        let m = choose|m: int| 0 <= m < ri.len() && ri[m] == y;
                        assert(r[m + 1] == y);
                    }
                }
                if y == x {
                    assert(ri.to_set().contains(x));
                    let m = choose|m: int| 0 <= m < ri.len() && ri[m] == x;
                    assert(r[m + 1] == x);
                }
            }
        }
        assert(r.to_set() =~= t.to_set().insert(x));
    }
    assert forall|y: Seq<char>| #[trigger] r.contains(y) implies y == x || t.contains(y) by {
        assert(r.to_set().contains(y));
    }
}

/// Every list of texts has an arrangement in strictly ascending order.
proof fn lemma_ascending_exists(list: Seq<Seq<char>>)
    ensures
        exists|t: Seq<Seq<char>>| strictly_ascending(t) && t.to_set() == list.to_set(),
    decreases list.len(),
{
    if list.len() == 0 {
        assert(strictly_ascending(Seq::<Seq<char>>::empty()));
        assert(Seq::<Seq<char>>::empty().to_set() =~= list.to_set());
    } else {
        lemma_ascending_exists(list.drop_last());
        let t = choose|t: Seq<Seq<char>>| strictly_ascending(t) && t.to_set() == list.drop_last().to_set();
        lemma_insert_text(t, list.last());
        assert(list =~= list.drop_last().push(list.last()));
        assert(list.to_set() =~= list.drop_last().to_set().insert(list.last())) by {
            assert forall|y: Seq<char>| list.to_set().contains(y) <==> list.drop_last().to_set().insert(
                list.last(),
            ).contains(y) by {
                if list.to_set().contains(y) {
                    let k = choose|k: int| 0 <= k < list.len() && list[k] == y;
                    if k < list.len() - 1 {
                        assert(list.drop_last()[k] == y);
                    }
                }
                if list.drop_last().to_set().contains(y) {
                    let k = choose|k: int| 0 <= k < list.drop_last().len() && list.drop_last()[k] == y;
                    assert(list[k] == y);
                }
            }
        }
        assert(strictly_ascending(insert_text(t, list.last())));
    }
}

/// The canonical order of valid commodities is strictly ascending and holds
/// valid commodities only.
proof fn lemma_canonical_valid(list: Seq<Seq<char>>)
    requires
        forall|k: int| 0 <= k < list.len() ==> is_valid_commodity(#[trigger] list[k]),
    ensures
        strictly_ascending(canonical_order(list)),
        forall|k: int| 0 <= k < canonical_order(list).len() ==> is_valid_commodity(
            #[trigger] canonical_order(list)[k],
        ),
{
    lemma_ascending_exists(list);
    let c = canonical_order(list);
    assert forall|k: int| 0 <= k < c.len() implies is_valid_commodity(#[trigger] c[k]) by {
        assert(c.to_set().contains(c[k]));
        assert(list.to_set().contains(c[k]));
        let m = choose|m: int| 0 <= m < list.len() && list[m] == c[k];
    }
}

proof fn lemma_read_awt(s: Seq<char>, i: int)
    requires
        sp_amount_with_tolerance(s, i) is Some,
    ensures
        valid_amount_with_tolerance(sp_amount_with_tolerance(s, i)->Some_0.0),
{
    lemma_read_decimal(s, i);
    let (d, e1) = sp_decimal(s, i)->Some_0;
    let e2 = crate::grammar::ws1(s, e1)->Some_0;
    if sp_tolerance(s, e2) is Some {
        let e3 = crate::grammar::ws1(s, e2 + 1)->Some_0;
        lemma_read_unsigned(s, e3);
    }
}

proof fn lemma_read_posting_amount(s: Seq<char>, i: int)
    requires
        sp_posting_amount(s, i) is Some,
    ensures
        valid_posting_amount(sp_posting_amount(s, i)->Some_0.0),
{
    lemma_read_amount(s, i);
    let (a, e1) = sp_amount(s, i)->Some_0;
    let e2 = match sp_cost(s, e1) {
        Some((c, e)) => {
            let f1 = crate::grammar::ws1(s, e1)->Some_0;
            lemma_read_amount(s, crate::grammar::ws_end(s, f1 + 1));
            e
        },
        None => e1,
    };
    if sp_price(s, e2) is Some {
        let f1 = crate::grammar::ws1(s, e2)->Some_0;
        let f2 = crate::grammar::ws1(s, f1 + 1)->Some_0;
        lemma_read_amount(s, f2);
    }
}

proof fn lemma_flag_of_valid(c: char)
    requires
        !is_white_space(c),
    ensures
        valid_flag(flag_of(c)),
        flag_char(flag_of(c)) == c,
{
}

proof fn lemma_read_posting(s: Seq<char>, i: int)
    requires
        sp_posting(s, i) is Some,
    ensures
        valid_posting(sp_posting(s, i)->Some_0.0),
{
    let e1 = crate::grammar::ws1(s, i)->Some_0;
    let e2 = match sp_flag_ws(s, e1) {
        Some((f, e)) => {
            lemma_flag_of_valid(s[e1]);
            e
        },
        None => e1,
    };
    lemma_read_account(s, e2);
    let (a, e3) = sp_account(s, e2)->Some_0;
    match crate::grammar::ws1(s, e3) {
        Some(e) => {
            if sp_posting_amount(s, e) is Some {
                lemma_read_posting_amount(s, e);
            }
        },
        None => {},
    }
}

proof fn lemma_read_postings(s: Seq<char>, i: int)
    ensures
        forall|k: int| 0 <= k < sp_postings(s, i).0.len() ==> valid_posting(
            #[trigger] sp_postings(s, i).0[k],
        ),
    decreases s.len() - i,
{
    if 0 <= i < s.len() && s[i] == '\n' {
        match sp_posting(s, i + 1) {
            Some((p, e)) => if i < e <= s.len() {
                let all = sp_postings(s, i).0;
                let rest = sp_postings(s, e).0;
                assert(all == seq![p] + rest);
                assert(all[0] == p);
                lemma_read_postings(s, e);
                lemma_read_posting(s, i + 1);
                assert forall|k: int| 0 <= k < all.len() implies valid_posting(#[trigger] all[k]) by {
                    if k > 0 {
                        assert(all[k] == rest[k - 1]);
                    }
                }
            },
            None => {},
        }
    }
}

proof fn lemma_read_transaction(s: Seq<char>, i: int)
    requires
        sp_transaction(s, i) is Some,
    ensures
        valid_transaction(sp_transaction(s, i)->Some_0.0),
{
    let (f, e1) = sp_transaction_flag(s, i)->Some_0;
    if !(0 <= i && i + 3 <= s.len() && s.subrange(i, i + 3) == seq!['t', 'x', 'n']) {
        lemma_flag_of_valid(s[i]);
    }
    let e2 = match crate::grammar::ws1(s, e1) {
        Some(e) => match crate::grammar::sp_description(s, e) {
            Some((d, g)) => g,
            None => e1,
        },
        None => e1,
    };
    lemma_read_postings(s, e2);
}

proof fn lemma_read_date(s: Seq<char>, i: int)
    requires
        sp_date(s, i) is Some,
    ensures
        valid_date(sp_date(s, i)->Some_0.0),
{
    let neg = 0 <= i < s.len() && s[i] == '-';
    let j = if neg {
        i + 1
    } else {
        i
    };
    lemma_digits_value_bound(s.subrange(j, j + 4));
    lemma_digits_value_bound(s.subrange(j + 5, j + 7));
    lemma_digits_value_bound(s.subrange(j + 8, j + 10));
    reveal_with_fuel(pow10, 5);
}

/// A directive that the grammar read is one the marshaller writes in a form
/// that reads back the same.
pub proof fn lemma_read_directive(s: Seq<char>, i: int)
    requires
        sp_directive(s, i) is Some,
    ensures
        valid_directive(sp_directive(s, i)->Some_0.0),
{
    lemma_read_date(s, i);
    let (d, e1) = sp_date(s, i)->Some_0;
    let e2 = crate::grammar::ws1(s, e1)->Some_0;
    match sp_open(s, e2) {
        Some((o, e)) => {
            let (a, cs, f) = sp_open_parts(s, e2)->Some_0;
            let e3 = crate::grammar::ws1(s, e2 + 4)->Some_0;
            lemma_read_account(s, e3);
            let (acc, e4) = sp_account(s, e3)->Some_0;
            match crate::grammar::ws1(s, e4) {
                Some(e5) => {
                    if sp_commodity_list(s, e5) is Some {
                        let (c0, e6) = sp_commodity(s, e5)->Some_0;
                        lemma_read_commodity_rest(s, e6);
                        let l = sp_commodity_list(s, e5)->Some_0.0;
                        let rest = sp_commodity_rest(s, e6).0;
                        assert forall|k: int| 0 <= k < l.len() implies is_valid_commodity(#[trigger] l[k]) by {
                            if k > 0 {
                                assert(l[k] == rest[k - 1]);
                            }
                        }
                    }
                },
                None => {},
            }
            lemma_canonical_valid(cs);
        },
        None => match sp_balance(s, e2) {
            Some((b, e)) => {
                let e3 = crate::grammar::ws1(s, e2 + 7)->Some_0;
                lemma_read_account(s, e3);
                let (acc, e4) = sp_account(s, e3)->Some_0;
                let e5 = crate::grammar::ws1(s, e4)->Some_0;
                lemma_read_awt(s, e5);
            },
            None => {
                lemma_read_transaction(s, e2);
            },
        },
    }
}

/// Reading a text, writing what was read and reading that again gives what
/// the first reading gave.
pub proof fn lemma_normal_form_stable(t: Seq<char>)
    requires
        sp_directive(t, 0) is Some,
        sp_directive(t, 0)->Some_0.1 == t.len(),
    ensures
        ({
            let d = sp_directive(t, 0)->Some_0.0;
            sp_directive(directive_text(d), 0) == Some((d, directive_text(d).len() as int))
        }),
{
    lemma_read_directive(t, 0);
    lemma_directive_round_trip(sp_directive(t, 0)->Some_0.0);
}

} // verus!
