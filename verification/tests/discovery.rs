use additional_accounts_request::accounts::{AdditionalAccounts, IAccountMeta};
use additional_accounts_request::discovery::AccountDiscovery;

fn key(b: u8) -> [u8; 32] {
    [b; 32]
}

fn page(keys: &[u8], has_more: bool) -> AdditionalAccounts {
    AdditionalAccounts {
        accounts: keys.iter().map(|b| IAccountMeta { pubkey: key(*b), signer: false, writable: true }).collect(),
        has_more,
    }
}

#[test]
fn discovery_collects_pages_until_none_is_announced() {
    let mut d = AccountDiscovery::new(vec![key(1), key(2), key(3)]);
    assert_eq!(d.next_page(), Some(0));
    d.record_page(page(&[1, 2], true));
    assert_eq!(d.next_page(), Some(1));
    d.record_page(page(&[3], false));
    assert_eq!(d.next_page(), None);
    let result = d.finish();
    assert!(!result.has_more);
    let got: Vec<[u8; 32]> = result.accounts.iter().map(|m| m.pubkey).collect();
    assert_eq!(got, vec![key(1), key(2), key(3)]);
}

#[test]
fn discovery_stops_on_a_missing_account() {
    let mut d = AccountDiscovery::new(vec![key(1)]);
    d.record_page(page(&[1], true));
    assert_eq!(d.next_page(), Some(1));
    d.record_page(page(&[5], false));
    assert_eq!(d.next_page(), None);
    let result = d.finish();
    // the page that revealed the gap is kept, and more pages stay announced
    assert!(result.has_more);
    assert_eq!(result.accounts.len(), 2);
}

#[test]
fn discovery_of_an_empty_answer() {
    let mut d = AccountDiscovery::new(vec![]);
    d.record_page(page(&[], false));
    let result = d.finish();
    assert!(!result.has_more && result.accounts.is_empty());
}

#[test]
fn page_counter_overflow_is_detected() {
    let mut d = AccountDiscovery::new(vec![key(1)]);
    for p in 0..255u16 {
        assert_eq!(d.next_page(), Some(p as u8));
        assert!(!d.page_counter_overflows(&page(&[], true)));
        d.record_page(page(&[], true));
    }
    assert_eq!(d.next_page(), Some(255));
    assert!(d.page_counter_overflows(&page(&[1], true)));
    // a missing account stops discovery before the counter moves
    assert!(!d.page_counter_overflows(&page(&[2], true)));
    d.record_page(page(&[2], true));
    assert_eq!(d.next_page(), None);
}
