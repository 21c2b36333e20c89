//! Commodity codes such as `USD` or `AAPL`, and their canonical order.
use vstd::prelude::*;
use crate::text::{char_is_numeric, char_is_uppercase, chars_of, is_numeric_char, is_uppercase_char};

verus! {

/// The longest commodity code, in bytes of UTF-8.
pub const MAX_COMMODITY_NAME_LENGTH: usize = 24;

/// Why a string is not a commodity code.
#[derive(Debug, Clone, Copy, PartialEq, Eq, PartialOrd, Ord, Hash, Structural)]
pub enum InvalidCommodityError {
    Empty,
    InvalidStart,
    InvalidCharacter,
    InvalidEnd,
    TooLong,
}

/// A character allowed at the end of a code: an uppercase letter or a number.
pub open spec fn commodity_end_ok(c: char) -> bool {
    is_uppercase_char(c) || is_numeric_char(c)
}

/// A character allowed inside a code: an uppercase letter, a number, or one of
/// `' . _ -`.
pub open spec fn commodity_char_ok(c: char) -> bool {
    is_uppercase_char(c) || is_numeric_char(c) || c == '\'' || c == '.' || c == '_' || c == '-'
}

/// The number of bytes that UTF-8 spends on one character.
pub open spec fn utf8_width(c: char) -> nat {
    if (c as u32) < 0x80 {
        1
    } else if (c as u32) < 0x800 {
        2
    } else if (c as u32) < 0x10000 {
        3
    } else {
        4
    }
}

/// The length of a text in bytes of UTF-8.
pub open spec fn utf8_len(s: Seq<char>) -> nat
    decreases s.len(),
{
    if s.len() == 0 {
        0
    } else {
        utf8_len(s.drop_last()) + utf8_width(s.last())
    }
}

/// The outcome of validating a code, checking emptiness, length, the first
/// character, the last character and then the interior, in that order.
pub open spec fn commodity_check(s: Seq<char>) -> Result<(), InvalidCommodityError> {
    if s.len() == 0 {
        Err(InvalidCommodityError::Empty)
    } else if utf8_len(s) > MAX_COMMODITY_NAME_LENGTH {
        Err(InvalidCommodityError::TooLong)
    } else if !is_uppercase_char(s[0]) {
        Err(InvalidCommodityError::InvalidStart)
    } else if s.len() > 1 && !commodity_end_ok(s[s.len() - 1]) {
        Err(InvalidCommodityError::InvalidEnd)
    } else if exists|i: int| 1 <= i < s.len() - 1 && !commodity_char_ok(#[trigger] s[i]) {
        Err(InvalidCommodityError::InvalidCharacter)
    } else {
        Ok(())
    }
}

pub open spec fn is_valid_commodity(s: Seq<char>) -> bool {
    commodity_check(s) is Ok
}

proof fn lemma_utf8_len_grows(s: Seq<char>, i: int)
    requires
        0 <= i <= s.len(),
    ensures
        utf8_len(s.take(i)) <= utf8_len(s),
    decreases s.len() - i,
{
    if i < s.len() {
        lemma_utf8_len_grows(s, i + 1);
        assert(s.take(i + 1).drop_last() =~= s.take(i));
    } else {
        assert(s.take(i) =~= s);
    }
}

/// Whether the UTF-8 length of `s` is above `limit`.
fn exceeds_utf8_len(s: &Vec<char>, limit: usize) -> (r: bool)
    requires
        limit < 0x1000,
    ensures
        r == (utf8_len(s@) > limit),
{
    let mut total: usize = 0;
    let mut i: usize = 0;
    while i < s.len()
        invariant
            0 <= i <= s.len(),
            limit < 0x1000,
            total == utf8_len(s@.take(i as int)),
            total <= limit,
        decreases s.len() - i,
    {
        let c = s[i];
        let w: usize = if (c as u32) < 0x80 {
            1
        } else if (c as u32) < 0x800 {
            2
        } else if (c as u32) < 0x10000 {
            3
        } else {
            4
        };
        proof {
            assert(s@.take(i + 1).drop_last() =~= s@.take(i as int));
        }
        total = total + w;
        i += 1;
        if total > limit {
            proof {
                lemma_utf8_len_grows(s@, i as int);
            }
            return true;
        }
    }
    proof {
        assert(s@.take(i as int) =~= s@);
    }
    false
}

/// Validates a code given as a string.
pub fn check_commodity(text: &str) -> (r: Result<(), InvalidCommodityError>)
    ensures
        r == commodity_check(text@),
{
    let s = chars_of(text);
    if s.len() == 0 {
        return Err(InvalidCommodityError::Empty);
    }
    if exceeds_utf8_len(&s, MAX_COMMODITY_NAME_LENGTH) {
        return Err(InvalidCommodityError::TooLong);
    }
    if !char_is_uppercase(s[0]) {
        return Err(InvalidCommodityError::InvalidStart);
    }
    let n = s.len();
    if n > 1 && !(char_is_uppercase(s[n - 1]) || char_is_numeric(s[n - 1])) {
        return Err(InvalidCommodityError::InvalidEnd);
    }
    let mut i: usize = 1;
    while i < n - 1
        invariant
            1 <= i,
            n == s.len(),
            s@ == text@,
            n > 0,
            !(utf8_len(s@) > MAX_COMMODITY_NAME_LENGTH),
            is_uppercase_char(s@[0]),
            n > 1 ==> commodity_end_ok(s@[n - 1]),
            i <= n || n == 1,
            forall|j: int| 1 <= j < i && j < n - 1 ==> commodity_char_ok(#[trigger] s@[j]),
        decreases n - i,
    {
        let c = s[i];
        if !(char_is_uppercase(c) || char_is_numeric(c) || c == '\'' || c == '.' || c == '_' || c
            == '-') {
            assert(!commodity_char_ok(s@[i as int]));
            return Err(InvalidCommodityError::InvalidCharacter);
        }
        i += 1;
    }
    Ok(())
}

/// A validated commodity code.
#[derive(Debug, PartialEq, Eq, PartialOrd, Ord, Hash)]
pub struct Commodity {
    commodity: String,
}

impl View for Commodity {
    type V = Seq<char>;

    closed spec fn view(&self) -> Seq<char> {
        self.commodity@
    }
}

impl Commodity {
    /// Validates `commodity` and wraps it.
    pub fn new(commodity: &str) -> (r: Result<Commodity, InvalidCommodityError>)
        ensures
            match commodity_check(commodity@) {
                Ok(_) => r is Ok && r->Ok_0@ == commodity@,
                Err(e) => r == Err::<Commodity, _>(e),
            },
    {
        match check_commodity(commodity) {
            Ok(()) => Ok(Commodity { commodity: commodity.to_owned() }),
            Err(e) => Err(e),
        }
    }

    pub fn as_str(&self) -> (r: &str)
        ensures
            r@ == self@,
    {
        self.commodity.as_str()
    }

    /// The code's text.
    pub fn to_string(&self) -> (r: String)
        ensures
            r@ == self@,
    {
        self.commodity.as_str().to_owned()
    }
}

impl Clone for Commodity {
    fn clone(&self) -> (r: Commodity)
        ensures
            r@ == self@,
    {
        Commodity { commodity: self.commodity.clone() }
    }
}

impl AsRef<str> for Commodity {
    fn as_ref(&self) -> &str {
        self.commodity.as_str()
    }
}

/// Lexicographic order on characters by code point, the order of the codes'
/// UTF-8 bytes.
pub open spec fn text_less(a: Seq<char>, b: Seq<char>) -> bool
    decreases a.len(),
{
    if a.len() == 0 {
        b.len() > 0
    } else if b.len() == 0 {
        false
    } else if a[0] as u32 != b[0] as u32 {
        (a[0] as u32) < (b[0] as u32)
    } else {
        text_less(a.drop_first(), b.drop_first())
    }
}

/// Any two texts are equal or ordered one way.
pub proof fn lemma_text_less_total(a: Seq<char>, b: Seq<char>)
    ensures
        a == b || text_less(a, b) || text_less(b, a),
        !(text_less(a, b) && text_less(b, a)),
        !text_less(a, a),
    decreases a.len(),
{
    if a.len() > 0 && b.len() > 0 {
        lemma_text_less_total(a.drop_first(), b.drop_first());
        lemma_text_less_total(a.drop_first(), a.drop_first());
        crate::text::lemma_char_code_injective(a[0], b[0]);
        if a[0] as u32 == b[0] as u32 {
            if a.drop_first() == b.drop_first() {
                assert(a =~= seq![a[0]] + a.drop_first());
                assert(b =~= seq![b[0]] + b.drop_first());
                assert(a == b);
            }
        }
    } else if a.len() == 0 && b.len() == 0 {
        assert(a =~= b);
    } else if a.len() > 0 {
        lemma_text_less_total(a.drop_first(), a.drop_first());
    }
}

/// The order on texts is transitive.
pub proof fn lemma_text_less_transitive(a: Seq<char>, b: Seq<char>, c: Seq<char>)
    requires
        text_less(a, b),
        text_less(b, c),
    ensures
        text_less(a, c),
    decreases a.len(),
{
    if a.len() > 0 && b.len() > 0 && c.len() > 0 && a[0] as u32 == b[0] as u32 && b[0] as u32
        == c[0] as u32 {
        lemma_text_less_transitive(a.drop_first(), b.drop_first(), c.drop_first());
    }
}

/// Compares two texts in the order above.
pub fn less_than(a: &str, b: &str) -> (r: bool)
    ensures
        r == text_less(a@, b@),
{
    let x = chars_of(a);
    let y = chars_of(b);
    let mut i: usize = 0;
    proof {
        assert(x@.skip(0) =~= x@);
        assert(y@.skip(0) =~= y@);
    }
    while i < x.len() && i < y.len() && x[i] as u32 == y[i] as u32
        invariant
            0 <= i <= x.len(),
            i <= y.len(),
            text_less(x@, y@) == text_less(x@.skip(i as int), y@.skip(i as int)),
        decreases x.len() - i,
    {
        proof {
            assert(x@.skip(i as int).drop_first() =~= x@.skip(i + 1));
            assert(y@.skip(i as int).drop_first() =~= y@.skip(i + 1));
        }
        i += 1;
    }
    if i < x.len() && i < y.len() {
        proof {
            assert(x@.skip(i as int)[0] == x@[i as int]);
            assert(y@.skip(i as int)[0] == y@[i as int]);
        }
        (x[i] as u32) < (y[i] as u32)
    } else {
        i < y.len()
    }
}

/// Texts in strictly ascending order.
pub open spec fn strictly_ascending(s: Seq<Seq<char>>) -> bool {
    forall|i: int, j: int| 0 <= i < j < s.len() ==> text_less(#[trigger] s[i], #[trigger] s[j])
}

pub open spec fn commodity_views(cs: Seq<Commodity>) -> Seq<Seq<char>> {
    cs.map_values(|c: Commodity| c@)
}

/// Inserts `c` into a strictly ascending list, unless it is there already.
pub fn insert_sorted(v: &mut Vec<Commodity>, c: Commodity)
    requires
        strictly_ascending(commodity_views(old(v)@)),
    ensures
        strictly_ascending(commodity_views(final(v)@)),
        commodity_views(final(v)@).to_set() == commodity_views(old(v)@).to_set().insert(c@),
{
    let ghost old_views = commodity_views(v@);
    let mut k: usize = 0;
    while k < v.len() && less_than(v[k].as_str(), c.as_str())
        invariant
            0 <= k <= v.len(),
            v@ == old(v)@,
            old_views == commodity_views(v@),
            forall|j: int| 0 <= j < k ==> text_less(#[trigger] old_views[j], c@),
        decreases v.len() - k,
    {
        k += 1;
    }
    if k < v.len() && !less_than(c.as_str(), v[k].as_str()) {
        proof {
            lemma_text_less_total(old_views[k as int], c@);
            assert(old_views[k as int] == c@);
            assert(old_views.to_set().insert(c@) =~= old_views.to_set());
        }
        return;
    }
    proof {
        if k < v.len() {
            lemma_text_less_total(old_views[k as int], c@);
        }
    }
    v.insert(k, c);
    proof {
        let nv = commodity_views(v@);
        assert(nv =~= old_views.take(k as int).push(c@) + old_views.skip(k as int));
        assert forall|i: int, j: int| 0 <= i < j < nv.len() implies text_less(
            #[trigger] nv[i],
            #[trigger] nv[j],
        ) by {
            if j < k {
            } else if j == k {
            } else if i == k {
                if j > k + 1 {
                    lemma_text_less_transitive(c@, old_views[k as int], old_views[j - 1]);
                }
            } else if i < k {
                if k < v.len() - 1 {
                    lemma_text_less_transitive(old_views[i], c@, old_views[k as int]);
                    if j - 1 > k {
                        lemma_text_less_transitive(old_views[i], old_views[k as int], old_views[j - 1]);
                    }
                }
            } else {
            }
        }
        assert forall|x: Seq<char>| nv.to_set().contains(x) <==> old_views.to_set().insert(
            c@,
        ).contains(x) by {
            if nv.to_set().contains(x) {
                let i = choose|i: int| 0 <= i < nv.len() && nv[i] == x;
                if i < k {
                    assert(old_views[i] == x);
                } else if i > k {
                    assert(old_views[i - 1] == x);
                }
            }
            if old_views.to_set().contains(x) {
                let i = choose|i: int| 0 <= i < old_views.len() && old_views[i] == x;
                if i < k {
                    assert(nv[i] == x);
                } else {
                    assert(nv[i + 1] == x);
                }
            }
            if x == c@ {
                assert(nv[k as int] == x);
            }
        }
        assert(nv.to_set() =~= old_views.to_set().insert(c@));
    }
}

/// The one strictly ascending arrangement of the texts of `list`.
pub open spec fn canonical_order(list: Seq<Seq<char>>) -> Seq<Seq<char>> {
    choose|t: Seq<Seq<char>>| strictly_ascending(t) && t.to_set() == list.to_set()
}

/// Two strictly ascending lists of the same texts are equal.
pub proof fn lemma_ascending_unique(a: Seq<Seq<char>>, b: Seq<Seq<char>>)
    requires
        strictly_ascending(a),
        strictly_ascending(b),
        a.to_set() == b.to_set(),
    ensures
        a == b,
    decreases a.len(),
{
    if a.len() == 0 {
        if b.len() > 0 {
            assert(b.to_set().contains(b[0]));
        }
        assert(a =~= b);
    } else {
        if b.len() == 0 {
            assert(a.to_set().contains(a[0]));
            assert(false);
        }
        assert(a.to_set().contains(a[0]));
        assert(b.to_set().contains(b[0]));
        let ia = choose|i: int| 0 <= i < b.len() && b[i] == a[0];
        let ib = choose|i: int| 0 <= i < a.len() && a[i] == b[0];
        if ia > 0 {
            if ib > 0 {
                lemma_text_less_transitive(b[0], a[0], b[0]);
                lemma_text_less_total(b[0], b[0]);
            } else {
                lemma_text_less_total(a[0], b[0]);
            }
        }
        assert(a[0] == b[0]);
        let a1 = a.drop_first();
        let b1 = b.drop_first();
        assert forall|x: Seq<char>| a1.to_set().contains(x) <==> b1.to_set().contains(x) by {
            if a1.to_set().contains(x) {
                let i = choose|i: int| 0 <= i < a1.len() && a1[i] == x;
                assert(a[i + 1] == x);
                assert(text_less(a[0], x));
                assert(a.to_set().contains(x));
                let j = choose|j: int| 0 <= j < b.len() && b[j] == x;
                if j == 0 {
                    lemma_text_less_total(x, x);
                }
                assert(b1[j - 1] == x);
            }
            if b1.to_set().contains(x) {
                let i = choose|i: int| 0 <= i < b1.len() && b1[i] == x;
                assert(b[i + 1] == x);
                assert(text_less(b[0], x));
                assert(b.to_set().contains(x));
                let j = choose|j: int| 0 <= j < a.len() && a[j] == x;
                if j == 0 {
                    lemma_text_less_total(x, x);
                }
                assert(a1[j - 1] == x);
            }
        }
        assert(a1.to_set() =~= b1.to_set());
        lemma_ascending_unique(a1, b1);
        assert(a =~= seq![a[0]] + a1);
        assert(b =~= seq![b[0]] + b1);
    }
}

/// A strictly ascending list with the texts of `list` is its canonical order.
pub proof fn lemma_canonical_order(list: Seq<Seq<char>>, t: Seq<Seq<char>>)
    requires
        strictly_ascending(t),
        t.to_set() == list.to_set(),
    ensures
        canonical_order(list) == t,
{
    let c = canonical_order(list);
    assert(strictly_ascending(c) && c.to_set() == list.to_set());
    lemma_ascending_unique(c, t);
}

/// The commodities in ascending order, each once.
pub fn sorted_unique(commodities: Vec<Commodity>) -> (r: Vec<Commodity>)
    ensures
        commodity_views(r@) == canonical_order(commodity_views(commodities@)),
        strictly_ascending(commodity_views(r@)),
        commodity_views(r@).to_set() == commodity_views(commodities@).to_set(),
{
    let mut sorted: Vec<Commodity> = Vec::new();
    let mut input = commodities;
    let ghost all = commodity_views(input@);
    let mut taken: usize = 0;
    let n = input.len();
    proof {
        assert(all.len() == n);
        assert(commodity_views(sorted@).to_set() =~= all.take(0).to_set());
        assert(all.skip(0) =~= all);
    }
    while input.len() > 0
        invariant
            strictly_ascending(commodity_views(sorted@)),
            taken + input.len() == all.len(),
            all.len() <= usize::MAX,
            commodity_views(input@) == all.skip(taken as int),
            commodity_views(sorted@).to_set() == all.take(taken as int).to_set(),
        decreases input.len(),
    {
        let ghost before = input@;
        let c = input.remove(0);
        proof {
            assert(c == before[0]);
            assert(commodity_views(before)[0] == c@);
            assert(all.skip(taken as int)[0] == all[taken as int]);
            assert(input@ == before.subrange(1, before.len() as int));
            assert(commodity_views(input@) =~= commodity_views(before).subrange(1, before.len() as int));
            assert(c@ == all[taken as int]);
            assert(commodity_views(input@) =~= all.skip(taken + 1));
            assert(all.take(taken + 1) =~= all.take(taken as int).push(c@));
        }
        insert_sorted(&mut sorted, c);
        taken += 1;
        proof {
            let prev = all.take(taken - 1);
            assert(all.take(taken as int) == prev.push(c@));
            assert forall|x: Seq<char>| prev.push(c@).to_set().contains(x) <==> prev.to_set().insert(
                c@,
            ).contains(x) by {
                if prev.push(c@).to_set().contains(x) {
                    let i = choose|i: int| 0 <= i < prev.len() + 1 && prev.push(c@)[i] == x;
                    if i < prev.len() {
                        assert(prev[i] == x);
                    }
                }
                if prev.to_set().contains(x) {
                    let i = choose|i: int| 0 <= i < prev.len() && prev[i] == x;
                    assert(prev.push(c@)[i] == x);
                }
                if x == c@ {
                    assert(prev.push(c@)[prev.len() as int] == x);
                }
            }
            assert(all.take(taken as int).to_set() =~= prev.to_set().insert(c@));
        }
    }
    proof {
        assert(all.take(taken as int) =~= all);
        lemma_canonical_order(all, commodity_views(sorted@));
    }
    sorted
}

} // verus!
