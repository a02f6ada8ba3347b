use additional_accounts_request::accounts::{
    AdditionalAccounts, AdditionalAccountsRequest, IAccountMeta, InterfaceError, INVALID_PAGE_CODE,
    MAX_ACCOUNTS,
};

fn meta(n: u16) -> IAccountMeta {
    let mut pubkey = [0u8; 32];
    pubkey[0] = (n & 0xff) as u8;
    pubkey[1] = (n >> 8) as u8;
    IAccountMeta { pubkey, signer: n % 2 == 0, writable: n % 3 == 0 }
}

fn list(len: u16) -> AdditionalAccounts {
    AdditionalAccounts { accounts: (0..len).map(meta).collect(), has_more: true }
}

fn ids(a: &AdditionalAccounts) -> Vec<u16> {
    a.accounts.iter().map(|m| m.pubkey[0] as u16 | ((m.pubkey[1] as u16) << 8)).collect()
}

#[test]
fn page_zero_keeps_a_short_list() {
    let mut a = list(10);
    assert_eq!(a.page_to(0), Ok(()));
    assert_eq!(ids(&a), (0..10).collect::<Vec<u16>>());
    assert!(a.has_more);
}

#[test]
fn page_zero_cuts_the_last_page_off_a_long_list() {
    let mut a = list(40);
    assert_eq!(a.page_to(0), Ok(()));
    assert_eq!(ids(&a), (0..11).collect::<Vec<u16>>());
}

#[test]
fn page_one_drops_the_first_page() {
    let mut a = list(40);
    assert_eq!(a.page_to(1), Ok(()));
    assert_eq!(ids(&a), (29..40).collect::<Vec<u16>>());
}

#[test]
fn page_exactly_at_the_end_leaves_nothing() {
    let mut a = list(58);
    assert_eq!(a.page_to(2), Ok(()));
    assert!(a.accounts.is_empty());
}

#[test]
fn page_past_the_end_is_refused_and_changes_nothing() {
    let mut a = list(40);
    assert_eq!(a.page_to(2), Err(InterfaceError::Custom(INVALID_PAGE_CODE)));
    assert_eq!(ids(&a), (0..40).collect::<Vec<u16>>());
    assert_eq!(INVALID_PAGE_CODE, 696969);
}

#[test]
fn page_start_is_compared_with_the_length_as_a_byte() {
    // 300 accounts count as 44: page one starts inside that.
    let mut a = list(300);
    assert_eq!(a.page_to(1), Ok(()));
    assert_eq!(ids(&a), (29..(300 - MAX_ACCOUNTS as u16)).collect::<Vec<u16>>());
    // 260 accounts count as 4: page one starts past it.
    let mut b = list(260);
    assert_eq!(b.page_to(1), Err(InterfaceError::Custom(696969)));
    assert_eq!(b.accounts.len(), 260);
}

#[test]
fn page_to_on_an_empty_list() {
    let mut a = list(0);
    assert_eq!(a.page_to(0), Ok(()));
    assert!(a.accounts.is_empty());
    assert_eq!(a.page_to(1), Err(InterfaceError::Custom(696969)));
}

#[test]
fn request_holds_a_page_of_accounts() {
    let r = AdditionalAccountsRequest { accounts: list(3), page: 4 };
    assert_eq!(r.page, 4);
    assert_eq!(ids(&r.accounts), vec![0, 1, 2]);
}
