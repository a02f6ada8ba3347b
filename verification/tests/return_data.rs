use additional_accounts_request::accounts::{IAccountMeta, InterfaceError};
use additional_accounts_request::matching::match_remaining_accounts;
use additional_accounts_request::return_data::{
    is_return_data_complete, parse_requested_accounts, requested_account_count, resolve_requested_accounts,
};

fn key(b: u8) -> [u8; 32] {
    let mut k = [0u8; 32];
    for (i, x) in k.iter_mut().enumerate() {
        *x = b.wrapping_add(i as u8);
    }
    k
}

fn record(k: [u8; 32], signer: u8, writable: u8) -> Vec<u8> {
    let mut r = k.to_vec();
    r.push(signer);
    r.push(writable);
    r
}

fn return_data(records: &[Vec<u8>]) -> Vec<u8> {
    let mut d = (records.len() as u32).to_le_bytes().to_vec();
    for r in records {
        d.extend_from_slice(r);
    }
    d
}

fn meta(k: [u8; 32]) -> IAccountMeta {
    IAccountMeta { pubkey: k, signer: false, writable: false }
}

#[test]
fn count_is_read_little_endian() {
    assert_eq!(requested_account_count(&[1, 2, 0, 0]), 513);
    assert_eq!(requested_account_count(&[0, 0, 0, 1, 99]), 16777216);
}

#[test]
fn completeness_needs_every_record() {
    assert!(!is_return_data_complete(&[]));
    assert!(!is_return_data_complete(&[0, 0, 0]));
    assert!(is_return_data_complete(&[0, 0, 0, 0]));
    let d = return_data(&[record(key(1), 1, 0), record(key(2), 0, 1)]);
    assert!(is_return_data_complete(&d));
    assert!(!is_return_data_complete(&d[..d.len() - 1]));
    assert!(!is_return_data_complete(&[255, 255, 255, 255, 0, 0]));
}

#[test]
fn records_decode_addresses_and_flags() {
    let d = return_data(&[record(key(1), 1, 0), record(key(40), 0, 1), record(key(80), 2, 1)]);
    let metas = parse_requested_accounts(&d);
    assert_eq!(metas.len(), 3);
    assert_eq!(metas[0].pubkey, key(1));
    assert!(metas[0].signer && !metas[0].writable);
    assert_eq!(metas[1].pubkey, key(40));
    assert!(!metas[1].signer && metas[1].writable);
    // only a one byte sets a flag
    assert_eq!(metas[2].pubkey, key(80));
    assert!(!metas[2].signer && metas[2].writable);
}

#[test]
fn trailing_bytes_are_ignored() {
    let mut d = return_data(&[record(key(3), 1, 1)]);
    d.push(1);
    let metas = parse_requested_accounts(&d);
    assert_eq!(metas.len(), 1);
    assert_eq!(metas[0].pubkey, key(3));
}

#[test]
fn matching_takes_the_first_unused_address() {
    let requested = vec![meta(key(2)), meta(key(1)), meta(key(2))];
    let remaining = vec![key(1), key(2), key(3), key(2)];
    assert_eq!(match_remaining_accounts(&requested, &remaining), vec![1, 0, 3]);
}

#[test]
fn matching_skips_requests_left_unserved() {
    let requested = vec![meta(key(2)), meta(key(2)), meta(key(5)), meta(key(1))];
    let remaining = vec![key(1), key(2)];
    assert_eq!(match_remaining_accounts(&requested, &remaining), vec![1, 0]);
}

#[test]
fn resolution_serves_every_request() {
    let d = return_data(&[record(key(2), 1, 1), record(key(1), 0, 0)]);
    let remaining = vec![key(9), key(1), key(2)];
    let res = resolve_requested_accounts(&d, &remaining).unwrap();
    assert_eq!(res.sources, vec![2, 1]);
    assert_eq!(res.metas.len(), 2);
    assert_eq!(res.metas[0].pubkey, key(2));
    assert!(res.metas[0].signer && res.metas[0].writable);
    assert_eq!(res.metas[1].pubkey, key(1));
}

#[test]
fn resolution_fails_when_an_account_is_missing() {
    let d = return_data(&[record(key(2), 1, 1), record(key(7), 0, 0)]);
    let remaining = vec![key(1), key(2)];
    assert!(matches!(resolve_requested_accounts(&d, &remaining), Err(InterfaceError::InvalidAccountData)));
}

#[test]
fn resolution_fails_when_a_repeated_account_is_supplied_once() {
    let d = return_data(&[record(key(2), 0, 0), record(key(2), 0, 0)]);
    assert!(matches!(
        resolve_requested_accounts(&d, &[key(2)]),
        Err(InterfaceError::InvalidAccountData)
    ));
    let res = resolve_requested_accounts(&d, &[key(2), key(2)]).unwrap();
    assert_eq!(res.sources, vec![0, 1]);
}

#[test]
fn resolution_of_no_request() {
    let d = return_data(&[]);
    let res = resolve_requested_accounts(&d, &[]).unwrap();
    assert!(res.metas.is_empty() && res.sources.is_empty());
}
