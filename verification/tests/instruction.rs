use additional_accounts_request::instruction::{
    interface_instruction_data, preflight_instruction_data, preflight_instruction_data_unpaged, sighash,
};

const PREFLIGHT_SELECTOR: [u8; 8] = [210, 69, 59, 150, 123, 99, 102, 52];
const INTERFACE_SELECTOR: [u8; 8] = [227, 173, 105, 217, 85, 190, 193, 196];

#[test]
fn sighash_is_the_head_of_the_sha256_digest() {
    assert_eq!(sighash(b"global:preflight_transfer_linked_list"), PREFLIGHT_SELECTOR.to_vec());
    assert_eq!(sighash(b"global:"), vec![193, 76, 24, 19, 16, 206, 80, 69]);
}

#[test]
fn paged_preflight_data_layout() {
    let data = preflight_instruction_data("transfer_linked_list", &[9, 8, 7], 3);
    let mut expected = PREFLIGHT_SELECTOR.to_vec();
    expected.extend_from_slice(&[9, 8, 7, 3]);
    assert_eq!(data, expected);
}

#[test]
fn unpaged_preflight_data_layout() {
    let data = preflight_instruction_data_unpaged("transfer_linked_list", &[1, 2]);
    let mut expected = PREFLIGHT_SELECTOR.to_vec();
    expected.extend_from_slice(&[1, 2]);
    assert_eq!(data, expected);
}

#[test]
fn interface_data_layout() {
    let data = interface_instruction_data("transfer_linked_list", &[]);
    assert_eq!(data, INTERFACE_SELECTOR.to_vec());
}

#[test]
fn empty_name_selects_the_bare_prefix() {
    let data = preflight_instruction_data_unpaged("", &[]);
    assert_eq!(data, vec![161, 44, 159, 146, 153, 225, 200, 65]);
}

#[test]
fn paged_data_extends_unpaged_data() {
    let mut unpaged = preflight_instruction_data_unpaged("x", &[5, 6]);
    unpaged.push(200);
    assert_eq!(preflight_instruction_data("x", &[5, 6], 200), unpaged);
}
