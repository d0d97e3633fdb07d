//! Command-level operations: translate a user intent into store and
//! engine calls. Each operation leaves the store well formed and says
//! exactly how counters moved.

use vstd::prelude::*;

use crate::codec::b32_decode;
use crate::error::OtpError;
use crate::otp::hotp_chars;
use crate::otp::Algorithm;
use crate::otp::Otp;
use crate::store::clone_string;
use crate::store::has_name;
use crate::store::idx_of;
use crate::store::Account;
use crate::store::AccountStore;
use crate::text::is_digit_char;

verus! {

/// How one generation touches one account: `a` before, `f` after, `res`
/// what the caller is handed. An undecodable key reports `InvalidKey` and
/// moves nothing; a successful HOTP generation yields the code for the
/// stored counter and advances that counter by exactly one; a TOTP
/// generation yields a code for some counter and leaves the record alone.
pub open spec fn generation_outcome(
    a: Account,
    length: nat,
    res: Result<String, OtpError>,
    f: Account,
) -> bool {
    match b32_decode(a.key@) {
        None => {
            &&& res is Err
            &&& res->Err_0 is InvalidKey
            &&& f == a
        },
        Some(keyb) => {
            &&& res is Ok
            &&& res->Ok_0@.len() == length
            &&& (forall|k: int| 0 <= k < length ==> is_digit_char(#[trigger] res->Ok_0@[k]))
            &&& (!a.totp ==> res->Ok_0@ == hotp_chars(a.algorithm, keyb, a.counter->0, length)
                && f == (Account { counter: Some((a.counter->0 + 1) as u64), ..a }))
            &&& (a.totp ==> f == a && (exists|c: u64|
                c <= u64::MAX / 30 && res->Ok_0@ == hotp_chars(a.algorithm, keyb, c, length)))
        },
    }
}

/// Add an account built from the given fields: HOTP when `hotp` is set,
/// TOTP otherwise. Fails with `DuplicateAccount`, moving nothing, exactly
/// when the name is taken.
pub fn add_authenticator_account(
    store: &mut AccountStore,
    name: String,
    key: String,
    algorithm: Algorithm,
    hotp: bool,
) -> (r: Result<(), OtpError>)
    requires
        old(store).wf(),
        key@.len() < 0x1000000000000000,
    ensures
        final(store).wf(),
        r is Ok <==> !has_name(old(store).accounts@, name@),
        r is Ok ==> final(store).accounts@ == old(store).accounts@.push(
            (Account {
                name,
                key,
                algorithm,
                totp: !hotp,
                counter: if hotp {
                    Some(0u64)
                } else {
                    None
                },
            }),
        ),
        r is Err ==> final(store).accounts@ == old(store).accounts@,
        r is Err ==> (r->Err_0 matches OtpError::DuplicateAccount { name: n } && n@ == name@),
{
    let account = Account::new(name, key, algorithm, !hotp);
    store.add_account(account)
}

/// Remove the named account; fails with `AccountNotFound`, moving
/// nothing, exactly when it is absent.
pub fn delete_authenticator_account(store: &mut AccountStore, account_name: &str) -> (r: Result<
    (),
    OtpError,
>)
    requires
        old(store).wf(),
    ensures
        final(store).wf(),
        r is Ok <==> has_name(old(store).accounts@, account_name@),
        r is Ok ==> final(store).accounts@ == old(store).accounts@.remove(
            idx_of(old(store).accounts@, account_name@),
        ),
        r is Err ==> final(store).accounts@ == old(store).accounts@,
        r is Err ==> (r->Err_0 matches OtpError::AccountNotFound { name: n } && n@
            == account_name@),
{
    store.delete(account_name)
}

/// Generate a code for the named account. On success the code has exactly
/// `length` digits; an HOTP account's counter advances by one, a TOTP
/// account is left alone. Fails with `AccountNotFound` for a missing name
/// and `InvalidKey` for a secret that is not unpadded Base32; every
/// failure leaves the store untouched.
pub fn view_particular_authenticator_account(
    store: &mut AccountStore,
    account_name: &str,
    length: usize,
) -> (r: Result<String, OtpError>)
    requires
        old(store).wf(),
        1 <= length <= 9,
        has_name(old(store).accounts@, account_name@) ==> ({
            let a = old(store).accounts@[idx_of(old(store).accounts@, account_name@)];
            a.counter is Some ==> a.counter->0 < u64::MAX
        }),
    ensures
        final(store).wf(),
        final(store).accounts@.len() == old(store).accounts@.len(),
        !has_name(old(store).accounts@, account_name@) ==> (r->Err_0
            matches OtpError::AccountNotFound { name: n } && n@ == account_name@ && r is Err),
        has_name(old(store).accounts@, account_name@) ==> ({
            let i = idx_of(old(store).accounts@, account_name@);
            &&& generation_outcome(
                old(store).accounts@[i],
                length as nat,
                r,
                final(store).accounts@[i],
            )
            &&& final(store).accounts@ == old(store).accounts@.update(
                i,
                final(store).accounts@[i],
            )
        }),
        r is Err ==> final(store).accounts@ == old(store).accounts@,
{
    let ghost accs = store.accounts@;
    let ghost i = idx_of(accs, account_name@);
    let account = match store.get_account_mut(account_name) {
        Err(e) => {
            return Err(e);
        },
        Ok(a) => a,
    };
    let otp = Otp::new(
        account.key.as_str(),
        account.algorithm,
        account.totp,
        account.counter,
        length,
    );
    match otp {
        Err(e) => {
            proof {
                assert(accs.update(i, accs[i]) =~= accs);
            }
            Err(e)
        },
        Ok(o) => {
            let out = o.generate();
            if let Some(c) = account.counter {
                account.counter = Some(c + 1);
            } else {
                proof {
                    assert(accs.update(i, accs[i]) =~= accs);
                }
            }
            Ok(out)
        },
    }
}

/// Generate a code for every account, in store order. Each account's
/// outcome is its own: a bad secret reports `InvalidKey` for that entry
/// and stops nothing else; each successful HOTP generation advances that
/// account's counter by one; TOTP accounts are left alone.
pub fn list_all_authenticator(store: &mut AccountStore, length: usize) -> (r: Vec<
    (String, Result<String, OtpError>),
>)
    requires
        old(store).wf(),
        1 <= length <= 9,
        forall|i: int| 0 <= i < old(store).accounts@.len() ==> ((
        #[trigger] old(store).accounts@[i]).counter is Some ==> old(store).accounts@[i].counter->0
            < u64::MAX),
    ensures
        final(store).wf(),
        final(store).accounts@.len() == old(store).accounts@.len(),
        r@.len() == old(store).accounts@.len(),
        forall|i: int| 0 <= i < r@.len() ==> (#[trigger] r@[i]).0@ == old(store).accounts@[i].name@,
        forall|i: int| 0 <= i < r@.len() ==> generation_outcome(
            old(store).accounts@[i],
            length as nat,
            (#[trigger] r@[i]).1,
            final(store).accounts@[i],
        ),
{
    let ghost accs = store.accounts@;
    let n = store.accounts.len();
    let mut out: Vec<(String, Result<String, OtpError>)> = Vec::new();
    let mut i: usize = 0;
    while i < n
        invariant
            1 <= length <= 9,
            n == store.accounts@.len(),
            accs.len() == n,
            i <= n,
            out@.len() == i,
            crate::store::unique_names(accs),
            forall|j: int| 0 <= j < n ==> (#[trigger] store.accounts@[j]).name@ == accs[j].name@,
            forall|j: int| 0 <= j < n ==> (#[trigger] store.accounts@[j]).wf(),
            forall|j: int| i <= j < n ==> (#[trigger] store.accounts@[j]) == accs[j],
            forall|j: int| 0 <= j < i ==> (#[trigger] out@[j]).0@ == accs[j].name@,
            forall|j: int| 0 <= j < i ==> generation_outcome(
                accs[j],
                length as nat,
                (#[trigger] out@[j]).1,
                store.accounts@[j],
            ),
            forall|j: int| 0 <= j < accs.len() ==> ((#[trigger] accs[j]).counter is Some ==> accs[j].counter->0 < u64::MAX),
        decreases n - i,
    {
        proof {
            assert(store.accounts@[i as int] == accs[i as int]);
            assert(store.accounts@[i as int].wf());
        }
        let account = &mut store.accounts[i];
        let name = clone_string(&account.name);
        let otp = Otp::new(
            account.key.as_str(),
            account.algorithm,
            account.totp,
            account.counter,
            length,
        );
        let res: Result<String, OtpError> = match otp {
            Err(e) => Err(e),
            Ok(o) => {
                let out_code = o.generate();
                if let Some(c) = account.counter {
                    account.counter = Some(c + 1);
                }
                Ok(out_code)
            },
        };
        out.push((name, res));
        i += 1;
    }
    proof {
        assert forall|a: int, b: int| 0 <= a < b < store.accounts@.len() implies store.accounts@[a].name@ != store.accounts@[b].name@ by {
            assert(accs[a].name@ != accs[b].name@);
        }
    }
    out
}

} // verus!
