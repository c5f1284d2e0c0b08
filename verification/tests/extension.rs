use erc1155_ledger::extension::{Erc1155Extension, ExtensionReadErr};

#[test]
fn status_zero_is_success() {
    assert_eq!(ExtensionReadErr::from_status_code(0), Ok(()));
}

#[test]
fn status_one_is_the_beacon_failure() {
    assert_eq!(
        ExtensionReadErr::from_status_code(1),
        Err(ExtensionReadErr::FailGetRandomSource)
    );
}

#[test]
fn default_works() {
    let ext = Erc1155Extension::default();
    assert_eq!(ext.get_random(), [0u8; 32]);
}

#[test]
fn new_starts_from_zero() {
    let ext = Erc1155Extension::new();
    assert_eq!(ext.get_random(), [0u8; 32]);
}

#[test]
fn update_random_stores_value_and_reports_event() {
    let mut ext = Erc1155Extension::new();
    let mut beacon = [0u8; 32];
    beacon[0] = 7;
    beacon[31] = 9;
    let ev = ext.update_random(beacon);
    assert_eq!(ext.get_random(), beacon);
    assert_eq!(ev.new, beacon);
}
