use gk_authenticator::store::Account;
use gk_authenticator::store::AccountStore;
use gk_authenticator::Algorithm;
use gk_authenticator::OtpError;

fn rfc_key() -> String {
    data_encoding::BASE32_NOPAD.encode(b"12345678901234567890")
}

#[test]
fn empty_text_loads_as_empty_store() {
    let store = AccountStore::load("").unwrap();
    assert_eq!(store.accounts.len(), 0);
}

#[test]
fn whitespace_only_text_loads_as_empty_store() {
    let store = AccountStore::load(" \t\r\n  \n").unwrap();
    assert_eq!(store.accounts.len(), 0);
    // every character str::trim removes counts as blank, not just the
    // ASCII four
    let exotic = "\u{0C}\u{0B}\u{85}\u{A0}\u{2028}\u{3000} ";
    assert!(exotic.trim().is_empty());
    let store = AccountStore::load(exotic).unwrap();
    assert_eq!(store.accounts.len(), 0);
}

#[test]
fn save_emits_canonical_json() {
    let mut store = AccountStore::new();
    store
        .add_account(Account::new("al".to_string(), "MFRGG".to_string(), Algorithm::Sha1, false))
        .unwrap();
    assert_eq!(
        store.save(),
        "{\"al\":{\"name\":\"al\",\"key\":\"MFRGG\",\"algorithm\":\"Sha1\",\"totp\":false,\"counter\":0}}"
    );
}

#[test]
fn empty_store_saves_as_bare_object() {
    assert_eq!(AccountStore::new().save(), "{}");
    let reloaded = AccountStore::load("{}").unwrap();
    assert_eq!(reloaded.accounts.len(), 0);
}

#[test]
fn save_then_load_round_trips_every_field() {
    let mut store = AccountStore::new();
    store
        .add_account(Account::new("hotp one".to_string(), rfc_key(), Algorithm::Sha1, false))
        .unwrap();
    store
        .add_account(Account::new("totp\"quoted\"".to_string(), "MFRGG".to_string(),
            Algorithm::Sha256, true))
        .unwrap();
    store
        .add_account(Account::new("back\\slash".to_string(), rfc_key(), Algorithm::Sha512, false))
        .unwrap();
    store.get_account_mut("hotp one").unwrap().counter = Some(18446744073709551615);
    let text = store.save();
    let reloaded = AccountStore::load(&text).unwrap();
    assert_eq!(reloaded.accounts.len(), 3);
    for (orig, back) in store.accounts.iter().zip(reloaded.accounts.iter()) {
        assert_eq!(orig.name, back.name);
        assert_eq!(orig.key, back.key);
        assert_eq!(orig.algorithm, back.algorithm);
        assert_eq!(orig.totp, back.totp);
        assert_eq!(orig.counter, back.counter);
    }
    // and the reloaded store prints back to the very same text
    assert_eq!(reloaded.save(), text);
}

#[test]
fn corrupt_texts_are_rejected() {
    for bad in [
        "garbage",
        "{",
        "[]",
        "{\"a\":{}}",
        "{\"a\":{\"name\":\"b\",\"key\":\"K\",\"algorithm\":\"Sha1\",\"totp\":false,\"counter\":0}}",
        "{\"a\":{\"name\":\"a\",\"key\":\"K\",\"algorithm\":\"Md5\",\"totp\":false,\"counter\":0}}",
        "{\"a\":{\"name\":\"a\",\"key\":\"K\",\"algorithm\":\"Sha1\",\"totp\":true,\"counter\":0}}",
        "{\"a\":{\"name\":\"a\",\"key\":\"K\",\"algorithm\":\"Sha1\",\"totp\":false,\"counter\":null}}",
        "{\"a\":{\"name\":\"a\",\"key\":\"K\",\"algorithm\":\"Sha1\",\"totp\":false,\"counter\":007}}",
        "{\"a\":{\"name\":\"a\",\"key\":\"K\",\"algorithm\":\"Sha1\",\"totp\":false,\"counter\":0}} ",
        "{\"a\":{\"name\":\"a\",\"key\":\"K\",\"algorithm\":\"Sha1\",\"totp\":false,\"counter\":0},}",
    ] {
        let r = AccountStore::load(bad);
        assert!(matches!(r, Err(OtpError::CorruptStore)), "accepted: {bad}");
    }
}

#[test]
fn duplicate_names_in_text_are_rejected() {
    let rec = "{\"name\":\"a\",\"key\":\"K\",\"algorithm\":\"Sha1\",\"totp\":false,\"counter\":0}";
    let text = format!("{{\"a\":{rec},\"a\":{rec}}}");
    let r = AccountStore::load(&text);
    assert!(matches!(r, Err(OtpError::CorruptStore)));
}

#[test]
fn counter_value_survives_round_trip() {
    let mut store = AccountStore::new();
    store
        .add_account(Account::new("h".to_string(), rfc_key(), Algorithm::Sha384, false))
        .unwrap();
    store.get_account_mut("h").unwrap().counter = Some(123456789);
    let reloaded = AccountStore::load(&store.save()).unwrap();
    assert_eq!(reloaded.accounts[0].counter, Some(123456789));
}
