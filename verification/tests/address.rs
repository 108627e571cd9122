use multisig_processor::address::{standardize_address, strip_marker};

#[test]
fn short_addresses_are_padded() {
    assert_eq!(
        standardize_address("0x1"),
        "0x0000000000000000000000000000000000000000000000000000000000000001"
    );
    assert_eq!(
        standardize_address("a1"),
        "0x00000000000000000000000000000000000000000000000000000000000000a1"
    );
    assert_eq!(
        standardize_address(""),
        "0x0000000000000000000000000000000000000000000000000000000000000000"
    );
    assert_eq!(
        standardize_address("0x"),
        "0x0000000000000000000000000000000000000000000000000000000000000000"
    );
}

#[test]
fn full_addresses_are_kept() {
    let full = "0xf9254492a5bb97685bb1789834668f3f8f391336b11c063b74ac6f83c37f6ecf";
    assert_eq!(standardize_address(full), full);
    assert_eq!(standardize_address(&full[2..]), full);
}

#[test]
fn standardizing_twice_changes_nothing() {
    let once = standardize_address("0xA1");
    assert_eq!(standardize_address(&once), once);
    assert_eq!(once.len(), 66);
}

#[test]
fn longer_text_is_not_cut() {
    let long = "1".repeat(70);
    assert_eq!(standardize_address(&long), format!("0x{}", long));
}

#[test]
fn marker_is_stripped_once() {
    assert_eq!(strip_marker("0xab"), "ab");
    assert_eq!(strip_marker("ab"), "ab");
    assert_eq!(strip_marker("0x0xab"), "0xab");
    assert_eq!(strip_marker("0"), "0");
    assert_eq!(strip_marker("0X12"), "0X12");
}
