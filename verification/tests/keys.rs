use additional_accounts_request::accounts::IAccountMeta;
use additional_accounts_request::keys::{all_listed, is_listed, keys_equal};

fn key(b: u8) -> [u8; 32] {
    [b; 32]
}

#[test]
fn equal_keys_compare_equal() {
    assert!(keys_equal(&key(7), &key(7)));
    let mut other = key(7);
    other[31] = 8;
    assert!(!keys_equal(&key(7), &other));
}

#[test]
fn listed_key_is_found() {
    let keys = vec![key(1), key(2), key(3)];
    assert!(is_listed(&key(3), &keys));
    assert!(!is_listed(&key(4), &keys));
    assert!(!is_listed(&key(1), &[]));
}

#[test]
fn all_listed_needs_every_account() {
    let keys = vec![key(1), key(2)];
    let accounts = vec![
        IAccountMeta { pubkey: key(2), signer: false, writable: true },
        IAccountMeta { pubkey: key(1), signer: true, writable: false },
    ];
    assert!(all_listed(&accounts, &keys));
    let mut more = accounts.clone();
    more.push(IAccountMeta { pubkey: key(9), signer: false, writable: false });
    assert!(!all_listed(&more, &keys));
    assert!(all_listed(&[], &[]));
}
