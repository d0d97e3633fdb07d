use gk_authenticator::command::add_authenticator_account;
use gk_authenticator::command::delete_authenticator_account;
use gk_authenticator::command::list_all_authenticator;
use gk_authenticator::command::view_particular_authenticator_account;
use gk_authenticator::store::Account;
use gk_authenticator::store::AccountStore;
use gk_authenticator::Algorithm;
use gk_authenticator::Otp;
use gk_authenticator::OtpError;

fn rfc_key() -> String {
    data_encoding::BASE32_NOPAD.encode(b"12345678901234567890")
}

#[test]
fn add_then_lookup() {
    let mut store = AccountStore::new();
    let account = Account::new("work".to_string(), rfc_key(), Algorithm::Sha1, true);
    store.add_account(account).unwrap();
    assert!(store.has_account("work"));
    assert!(!store.has_account("Work"));
}

#[test]
fn duplicate_add_fails_and_leaves_store_unchanged() {
    let mut store = AccountStore::new();
    let first = Account::new("a".to_string(), rfc_key(), Algorithm::Sha1, false);
    store.add_account(first).unwrap();
    let before = store.save();
    let again = Account::new("a".to_string(), "MFRGG".to_string(), Algorithm::Sha512, true);
    let r = store.add_account(again);
    assert!(matches!(r, Err(OtpError::DuplicateAccount { ref name }) if name == "a"));
    assert_eq!(store.save(), before);
}

#[test]
fn delete_removes_exactly_the_named_account() {
    let mut store = AccountStore::new();
    for name in ["one", "two", "three"] {
        let a = Account::new(name.to_string(), rfc_key(), Algorithm::Sha1, true);
        store.add_account(a).unwrap();
    }
    delete_authenticator_account(&mut store, "two").unwrap();
    assert!(store.has_account("one"));
    assert!(!store.has_account("two"));
    assert!(store.has_account("three"));
}

#[test]
fn delete_missing_fails() {
    let mut store = AccountStore::new();
    let r = store.delete("ghost");
    assert!(matches!(r, Err(OtpError::AccountNotFound { ref name }) if name == "ghost"));
}

#[test]
fn lookup_of_missing_name_fails() {
    let mut store = AccountStore::new();
    let a = Account::new("real".to_string(), rfc_key(), Algorithm::Sha1, true);
    store.add_account(a).unwrap();
    let r = store.get_account_mut("ghost");
    assert!(matches!(r, Err(OtpError::AccountNotFound { ref name }) if name == "ghost"));
}

#[test]
fn view_missing_account_fails() {
    let mut store = AccountStore::new();
    let r = view_particular_authenticator_account(&mut store, "ghost", 6);
    assert!(matches!(r, Err(OtpError::AccountNotFound { ref name }) if name == "ghost"));
}

#[test]
fn view_bad_key_reports_invalid_key_and_moves_nothing() {
    let mut store = AccountStore::new();
    add_authenticator_account(&mut store, "bad".to_string(), "0189".to_string(), Algorithm::Sha1,
        true)
        .unwrap();
    let before = store.save();
    let r = view_particular_authenticator_account(&mut store, "bad", 6);
    assert!(matches!(r, Err(OtpError::InvalidKey)));
    assert_eq!(store.save(), before);
}

#[test]
fn hotp_view_advances_counter_by_one() {
    let mut store = AccountStore::new();
    add_authenticator_account(&mut store, "h".to_string(), rfc_key(), Algorithm::Sha1, true)
        .unwrap();
    let code0 = view_particular_authenticator_account(&mut store, "h", 6).unwrap();
    let code1 = view_particular_authenticator_account(&mut store, "h", 6).unwrap();
    assert_eq!(code0, "755224");
    assert_eq!(code1, "287082");
    let account = store.get_account_mut("h").unwrap();
    assert_eq!(account.counter, Some(2));
}

#[test]
fn totp_view_leaves_counter_absent() {
    let mut store = AccountStore::new();
    add_authenticator_account(&mut store, "t".to_string(), rfc_key(), Algorithm::Sha1, false)
        .unwrap();
    let code = view_particular_authenticator_account(&mut store, "t", 6).unwrap();
    assert_eq!(code.len(), 6);
    let account = store.get_account_mut("t").unwrap();
    assert_eq!(account.counter, None);
}

#[test]
fn hotp_view_matches_engine_for_stored_counter() {
    let mut store = AccountStore::new();
    add_authenticator_account(&mut store, "h".to_string(), rfc_key(), Algorithm::Sha256, true)
        .unwrap();
    for _ in 0..3 {
        view_particular_authenticator_account(&mut store, "h", 7).unwrap();
    }
    let expected = Otp::new(&rfc_key(), Algorithm::Sha256, false, Some(3), 7)
        .unwrap()
        .generate();
    let got = view_particular_authenticator_account(&mut store, "h", 7).unwrap();
    assert_eq!(got, expected);
}

#[test]
fn list_reports_each_account_independently() {
    let mut store = AccountStore::new();
    add_authenticator_account(&mut store, "good".to_string(), rfc_key(), Algorithm::Sha1, true)
        .unwrap();
    add_authenticator_account(&mut store, "bad".to_string(), "0189".to_string(), Algorithm::Sha1,
        true)
        .unwrap();
    add_authenticator_account(&mut store, "tot".to_string(), rfc_key(), Algorithm::Sha384, false)
        .unwrap();
    let out = list_all_authenticator(&mut store, 6);
    assert_eq!(out.len(), 3);
    assert_eq!(out[0].0, "good");
    assert_eq!(out[0].1.as_ref().unwrap(), "755224");
    assert_eq!(out[1].0, "bad");
    assert!(matches!(out[1].1, Err(OtpError::InvalidKey)));
    assert_eq!(out[2].0, "tot");
    assert_eq!(out[2].1.as_ref().unwrap().len(), 6);
    // the bad account's failure did not stop the others, and only the good
    // HOTP account's counter moved
    assert_eq!(store.get_account_mut("good").unwrap().counter, Some(1));
    assert_eq!(store.get_account_mut("bad").unwrap().counter, Some(0));
    assert_eq!(store.get_account_mut("tot").unwrap().counter, None);
}

#[test]
fn mut_list_exposes_accounts_in_store_order() {
    let mut store = AccountStore::new();
    for name in ["b", "a", "c"] {
        let acct = Account::new(name.to_string(), rfc_key(), Algorithm::Sha1, true);
        store.add_account(acct).unwrap();
    }
    let names: Vec<String> = store.mut_list().iter().map(|a| a.name.clone()).collect();
    assert_eq!(names, vec!["b", "a", "c"]);
}
