use additional_accounts_request::return_data::{
    is_return_data_complete, parse_requested_accounts, requested_account_count, resolve_requested_accounts,
};
use anchor_lang::AnchorSerialize;

fn key(b: u8) -> [u8; 32] {
    let mut k = [0u8; 32];
    for (i, x) in k.iter_mut().enumerate() {
        *x = b ^ (i as u8);
    }
    k
}

// Borsh lays out a struct as its fields in order, so a (Vec<(key, signer,
// writable)>, has_more) tuple serializes as the accounts page does.
fn borsh_page(accounts: &[([u8; 32], bool, bool)], has_more: bool) -> Vec<u8> {
    (accounts.to_vec(), has_more).try_to_vec().unwrap()
}

#[test]
fn borsh_serialized_page_decodes_through_the_compact_layout() {
    let accounts = vec![(key(1), true, false), (key(2), false, true), (key(3), true, true)];
    for has_more in [false, true] {
        let data = borsh_page(&accounts, has_more);
        assert!(is_return_data_complete(&data));
        assert_eq!(requested_account_count(&data), 3);
        let metas = parse_requested_accounts(&data);
        let got: Vec<([u8; 32], bool, bool)> = metas.iter().map(|m| (m.pubkey, m.signer, m.writable)).collect();
        assert_eq!(got, accounts);
    }
}

#[test]
fn borsh_serialized_page_resolves_against_supplied_accounts() {
    let accounts = vec![(key(5), false, true), (key(5), true, false)];
    let data = borsh_page(&accounts, true);
    assert!(resolve_requested_accounts(&data, &[key(5)]).is_err());
    let res = resolve_requested_accounts(&data, &[key(4), key(5), key(5)]).unwrap();
    assert_eq!(res.sources, vec![1, 2]);
    assert!(!res.metas[0].signer && res.metas[0].writable);
    assert!(res.metas[1].signer && !res.metas[1].writable);
}
