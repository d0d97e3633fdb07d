//! The account store: a durable mapping from account name to account
//! record, with unique names, explicit counter advancement for HOTP
//! accounts, and deterministic (insertion-order) iteration.

use vstd::prelude::*;

use crate::error::OtpError;
use crate::otp::Algorithm;

verus! {

/// One stored account. The secret stays in its Base32 text form and is
/// decoded at generation time.
#[derive(Clone, Debug)]
pub struct Account {
    pub name: String,
    pub key: String,
    pub algorithm: Algorithm,
    pub totp: bool,
    pub counter: Option<u64>,
}

impl Account {
    /// The record invariant: a counter is present exactly on HOTP
    /// accounts, and the encoded secret is below the crypto backend's
    /// input bound.
    pub open spec fn wf(self) -> bool {
        &&& (self.counter is Some <==> !self.totp)
        &&& self.key@.len() < 0x1000000000000000
    }

    /// A fresh account: HOTP accounts start with counter zero, TOTP
    /// accounts carry none.
    pub fn new(name: String, key: String, algorithm: Algorithm, totp: bool) -> (r: Account)
        requires
            key@.len() < 0x1000000000000000,
        ensures
            r.name == name,
            r.key == key,
            r.algorithm == algorithm,
            r.totp == totp,
            r.counter == (if totp {
                Option::<u64>::None
            } else {
                Option::<u64>::Some(0)
            }),
            r.wf(),
    {
        let counter = if totp {
            None
        } else {
            Some(0u64)
        };
        Account { name, key, algorithm, totp, counter }
    }
}

/// Whether some account in `accs` carries `name`.
pub open spec fn has_name(accs: Seq<Account>, name: Seq<char>) -> bool {
    exists|i: int| 0 <= i < accs.len() && accs[i].name@ == name
}

/// The position of the account named `name` (meaningful when `has_name`
/// holds and names are unique).
pub open spec fn idx_of(accs: Seq<Account>, name: Seq<char>) -> int {
    choose|i: int| 0 <= i < accs.len() && accs[i].name@ == name
}

/// No two accounts share a name.
pub open spec fn unique_names(accs: Seq<Account>) -> bool {
    forall|i: int, j: int| 0 <= i < j < accs.len() ==> accs[i].name@ != accs[j].name@
}

/// Character-wise equality of two strings.
pub fn str_eq(a: &str, b: &str) -> (r: bool)
    ensures
        r == (a@ == b@),
{
    let na = a.unicode_len();
    let nb = b.unicode_len();
    if na != nb {
        return false;
    }
    let mut i: usize = 0;
    while i < na
        invariant
            na == a@.len(),
            na == b@.len(),
            i <= na,
            forall|j: int| 0 <= j < i ==> a@[j] == b@[j],
        decreases na - i,
    {
        if a.get_char(i) != b.get_char(i) {
            return false;
        }
        i += 1;
    }
    proof {
        assert(a@ =~= b@);
    }
    true
}

/// The in-memory store: account records in insertion order, names unique.
/// Loaded once per invocation, mutated in memory, written back whole.
#[derive(Clone, Debug)]
pub struct AccountStore {
    pub accounts: Vec<Account>,
}

impl AccountStore {
    /// The store invariant: names are unique and every record is
    /// well formed.
    pub open spec fn wf(self) -> bool {
        &&& unique_names(self.accounts@)
        &&& forall|i: int| 0 <= i < self.accounts@.len() ==> (#[trigger] self.accounts@[i]).wf()
    }

    /// An empty store.
    pub fn new() -> (r: AccountStore)
        ensures
            r.accounts@.len() == 0,
            r.wf(),
    {
        AccountStore { accounts: Vec::new() }
    }

    /// The position of `name` in the store, scanning from the front.
    fn find_index(&self, name: &str) -> (r: Option<usize>)
        ensures
            r is Some ==> {
                let i = r->0 as int;
                &&& 0 <= i < self.accounts@.len()
                &&& self.accounts@[i].name@ == name@
            },
            r is Some <==> has_name(self.accounts@, name@),
    {
        let n = self.accounts.len();
        let mut i: usize = 0;
        while i < n
            invariant
                n == self.accounts@.len(),
                i <= n,
                forall|j: int| 0 <= j < i ==> self.accounts@[j].name@ != name@,
            decreases n - i,
        {
            if str_eq(self.accounts[i].name.as_str(), name) {
                return Some(i);
            }
            i += 1;
        }
        None
    }

    /// Whether the store holds an account named `name`.
    pub fn has_account(&self, name: &str) -> (r: bool)
        ensures
            r == has_name(self.accounts@, name@),
    {
        self.find_index(name).is_some()
    }

    /// Insert a new account. Fails with `DuplicateAccount`, leaving the
    /// store unchanged, exactly when the name is already present;
    /// otherwise the account is appended.
    pub fn add_account(&mut self, account: Account) -> (r: Result<(), OtpError>)
        requires
            old(self).wf(),
            account.wf(),
        ensures
            final(self).wf(),
            r is Ok <==> !has_name(old(self).accounts@, account.name@),
            r is Ok ==> final(self).accounts@ == old(self).accounts@.push(account),
            r is Err ==> final(self).accounts@ == old(self).accounts@,
            r is Err ==> (r->Err_0 matches OtpError::DuplicateAccount { name } && name@ == account.name@),
    {
        if self.has_account(account.name.as_str()) {
            let name = clone_string(&account.name);
            return Err(OtpError::DuplicateAccount { name });
        }
        proof {
            let accs = self.accounts@.push(account);
            assert forall|i: int, j: int| 0 <= i < j < accs.len() implies accs[i].name@
                != accs[j].name@ by {
                if j == accs.len() - 1 {
                    assert(!has_name(old(self).accounts@, account.name@));
                    assert(accs[i].name@ != account.name@);
                }
            }
        }
        self.accounts.push(account);
        Ok(())
    }

    /// Remove the account named `name`. Fails with `AccountNotFound`,
    /// leaving the store unchanged, exactly when no account carries the
    /// name; otherwise that one account is removed and the order of the
    /// rest is kept.
    pub fn delete(&mut self, name: &str) -> (r: Result<(), OtpError>)
        requires
            old(self).wf(),
        ensures
            final(self).wf(),
            r is Ok <==> has_name(old(self).accounts@, name@),
            r is Ok ==> final(self).accounts@ == old(self).accounts@.remove(
                idx_of(old(self).accounts@, name@),
            ),
            r is Err ==> final(self).accounts@ == old(self).accounts@,
            r is Err ==> (r->Err_0 matches OtpError::AccountNotFound { name: n } && n@ == name@),
    {
        match self.find_index(name) {
            Some(i) => {
                proof {
                    let accs = self.accounts@;
                    let k = idx_of(accs, name@);
                    assert(0 <= k < accs.len() && accs[k].name@ == name@);
                    if k != i {
                        assert(accs[k].name@ == accs[i as int].name@);
                        assert(false);
                    }
                }
                self.accounts.remove(i);
                Ok(())
            },
            None => {
                let owned = str_to_string(name);
                Err(OtpError::AccountNotFound { name: owned })
            },
        }
    }

    /// Borrow the account named `name` mutably; fails with
    /// `AccountNotFound`, touching nothing, exactly when the name is
    /// absent. Whatever the caller writes through the borrow lands at
    /// that account's position, and nothing else moves.
    pub fn get_account_mut(&mut self, name: &str) -> (r: Result<&mut Account, OtpError>)
        requires
            old(self).wf(),
        ensures
            r is Ok <==> has_name(old(self).accounts@, name@),
            r matches Ok(a) ==> *a == old(self).accounts@[idx_of(old(self).accounts@, name@)]
                && final(self).accounts@ == old(self).accounts@.update(
                idx_of(old(self).accounts@, name@),
                *final(a),
            ),
            r is Err ==> final(self).accounts@ == old(self).accounts@ && (r->Err_0
                matches OtpError::AccountNotFound { name: n } && n@ == name@),
    {
        let idx = self.find_index(name);
        match idx {
            Some(i) => {
                proof {
                    let accs = self.accounts@;
                    let k = idx_of(accs, name@);
                    assert(0 <= k < accs.len() && accs[k].name@ == name@);
                    if k != i {
                        assert(accs[k].name@ == accs[i as int].name@);
                        assert(false);
                    }
                }
                Ok(&mut self.accounts[i])
            },
            None => {
                let owned = str_to_string(name);
                Err(OtpError::AccountNotFound { name: owned })
            },
        }
    }

    /// Borrow the whole account list mutably, in store order.
    pub fn mut_list(&mut self) -> (r: &mut Vec<Account>)
        ensures
            *r == old(self).accounts,
            final(self).accounts == *final(r),
    {
        &mut self.accounts
    }
}

/// A copy of `s` (`String::clone`, character for character).
pub fn clone_string(s: &String) -> (r: String)
    ensures
        r@ == s@,
{
    s.clone()
}

/// An owned copy of `s` (`str::to_owned`).
pub fn str_to_string(s: &str) -> (r: String)
    ensures
        r@ == s@,
{
    s.to_owned()
}

} // verus!
