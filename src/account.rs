//! Accounts: a type keyword followed by a path of validated components.
use vstd::prelude::*;
use crate::text::{
    char_is_alphanumeric, char_is_numeric, char_is_uppercase, is_alphanumeric_char,
    is_numeric_char, is_uppercase_char,
};

verus! {

/// The five root account kinds of a ledger.
#[derive(Debug, Clone, Copy, PartialEq, Eq, PartialOrd, Ord, Hash, Structural)]
pub enum AccountType {
    Assets,
    Liabilities,
    Income,
    Expenses,
    Equity,
}

/// Why a string is not an account component.
#[derive(Debug, Clone, Copy, PartialEq, Eq, Hash, Structural)]
pub enum InvalidAccountComponentError {
    Empty,
    InvalidStart,
    InvalidCharacter,
}

/// A character that may open a component: an uppercase letter or a number.
pub open spec fn component_start_ok(c: char) -> bool {
    is_uppercase_char(c) || is_numeric_char(c)
}

/// A character that may follow the first one: a letter, a number or `-`.
pub open spec fn component_char_ok(c: char) -> bool {
    is_alphanumeric_char(c) || c == '-'
}

/// The outcome of validating a component, checking emptiness, then the first
/// character, then the rest.
pub open spec fn component_check(s: Seq<char>) -> Result<(), InvalidAccountComponentError> {
    if s.len() == 0 {
        Err(InvalidAccountComponentError::Empty)
    } else if !component_start_ok(s[0]) {
        Err(InvalidAccountComponentError::InvalidStart)
    } else if exists|i: int| 1 <= i < s.len() && !component_char_ok(#[trigger] s[i]) {
        Err(InvalidAccountComponentError::InvalidCharacter)
    } else {
        Ok(())
    }
}

pub open spec fn is_valid_component(s: Seq<char>) -> bool {
    component_check(s) is Ok
}

/// Validates a component given as characters.
pub fn check_component(s: &Vec<char>) -> (r: Result<(), InvalidAccountComponentError>)
    ensures
        r == component_check(s@),
{
    if s.len() == 0 {
        return Err(InvalidAccountComponentError::Empty);
    }
    if !(char_is_uppercase(s[0]) || char_is_numeric(s[0])) {
        return Err(InvalidAccountComponentError::InvalidStart);
    }
    let mut i: usize = 1;
    while i < s.len()
        invariant
            1 <= i <= s.len(),
            component_start_ok(s@[0]),
            forall|j: int| 1 <= j < i ==> component_char_ok(#[trigger] s@[j]),
        decreases s.len() - i,
    {
        if !(char_is_alphanumeric(s[i]) || s[i] == '-') {
            assert(!component_char_ok(s@[i as int]));
            return Err(InvalidAccountComponentError::InvalidCharacter);
        }
        i += 1;
    }
    Ok(())
}

/// One segment of an account path, such as `Checking`.
#[derive(Debug, Clone, PartialEq, Eq, PartialOrd, Ord, Hash)]
pub struct AccountComponent {
    component: String,
}

impl View for AccountComponent {
    type V = Seq<char>;

    closed spec fn view(&self) -> Seq<char> {
        self.component@
    }
}

impl AccountComponent {
    /// Validates `component` and wraps it.
    pub fn new(component: &str) -> (r: Result<AccountComponent, InvalidAccountComponentError>)
        ensures
            match component_check(component@) {
                Ok(_) => r is Ok && r->Ok_0@ == component@,
                Err(e) => r == Err::<AccountComponent, _>(e),
            },
    {
        let cs = crate::text::chars_of(component);
        match check_component(&cs) {
            Ok(()) => Ok(AccountComponent { component: component.to_owned() }),
            Err(e) => Err(e),
        }
    }

    /// Wraps characters already known to form a valid component.
    pub(crate) fn from_valid(component: String) -> (r: AccountComponent)
        requires
            is_valid_component(component@),
        ensures
            r@ == component@,
    {
        AccountComponent { component }
    }

    pub fn as_str(&self) -> (r: &str)
        ensures
            r@ == self@,
    {
        self.component.as_str()
    }

    /// The component's text.
    pub fn to_string(&self) -> (r: String)
        ensures
            r@ == self@,
    {
        self.component.as_str().to_owned()
    }
}

impl AsRef<str> for AccountComponent {
    fn as_ref(&self) -> &str {
        self.component.as_str()
    }
}

/// What an account is: its type and the text of each component, in order.
pub struct AccountView {
    pub account_type: AccountType,
    pub components: Seq<Seq<char>>,
}

/// An account: a type and an ordered path of components.
#[derive(Debug, Clone, PartialEq, Eq, Hash)]
pub struct Account {
    account_type: AccountType,
    components: Vec<AccountComponent>,
}

pub open spec fn component_views(cs: Seq<AccountComponent>) -> Seq<Seq<char>> {
    cs.map_values(|c: AccountComponent| c@)
}

impl View for Account {
    type V = AccountView;

    closed spec fn view(&self) -> AccountView {
        AccountView { account_type: self.account_type, components: component_views(self.components@) }
    }
}

/// Every component of an account view is valid.
pub open spec fn valid_account(a: AccountView) -> bool {
    forall|i: int| 0 <= i < a.components.len() ==> is_valid_component(#[trigger] a.components[i])
}

/// The first invalid component's error, if any.
pub open spec fn first_component_error(cs: Seq<Seq<char>>) -> Option<InvalidAccountComponentError>
    decreases cs.len(),
{
    if cs.len() == 0 {
        None
    } else {
        match component_check(cs[0]) {
            Err(e) => Some(e),
            Ok(_) => first_component_error(cs.drop_first()),
        }
    }
}

impl Account {
    /// Builds an account from already validated components.
    pub fn from_components(account_type: AccountType, components: Vec<AccountComponent>) -> (r:
        Account)
        ensures
            r@.account_type == account_type,
            r@.components == component_views(components@),
    {
        Account { account_type, components }
    }

    /// Validates each component in order and builds the account; fails with
    /// the first component's error.
    pub fn new(account_type: AccountType, components: &[&str]) -> (r: Result<
        Account,
        InvalidAccountComponentError,
    >)
        ensures
            match first_component_error(components@.map_values(|s: &str| s@)) {
                None => r is Ok && r->Ok_0@.account_type == account_type
                    && r->Ok_0@.components == components@.map_values(|s: &str| s@),
                Some(e) => r == Err::<Account, _>(e),
            },
    {
        let ghost views = components@.map_values(|s: &str| s@);
        let mut out: Vec<AccountComponent> = Vec::new();
        let mut i: usize = 0;
        proof {
            assert(views.skip(0) =~= views);
        }
        while i < components.len()
            invariant
                0 <= i <= components@.len(),
                views == components@.map_values(|s: &str| s@),
                component_views(out@) == views.take(i as int),
                first_component_error(views) == first_component_error(views.skip(i as int)),
            decreases components.len() - i,
        {
            proof {
                assert(views.skip(i as int).drop_first() =~= views.skip(i + 1));
                assert(views.skip(i as int)[0] == views[i as int]);
            }
            let s: &str = components[i];
            assert(s@ == views[i as int]);
            let ghost old_out = out@;
            match AccountComponent::new(s) {
                Ok(c) => {
                    assert(c@ == views[i as int]);
                    out.push(c);
                    assert(out@ == old_out.push(c));
                    assert(component_views(out@) =~= component_views(old_out).push(c@));
                    assert(views.take(i + 1) =~= views.take(i as int).push(views[i as int]));
                    proof {
                        assert(component_check(views[i as int]) is Ok);
                        assert(component_views(out@) =~= views.take(i + 1));
                    }
                },
                Err(e) => {
                    assert(first_component_error(views.skip(i as int)) == Some(e));
                    return Err(e);
                },
            }
            i += 1;
        }
        proof {
            assert(views.skip(i as int).len() == 0);
            assert(component_views(out@) =~= views);
        }
        Ok(Account { account_type, components: out })
    }

    pub fn account_type(&self) -> (r: AccountType)
        ensures
            r == self@.account_type,
    {
        self.account_type
    }

    pub fn components(&self) -> (r: &[AccountComponent])
        ensures
            component_views(r@) == self@.components,
    {
        self.components.as_slice()
    }
}

} // verus!
