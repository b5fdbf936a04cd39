use tsmux::crc::crc32;

#[test]
fn checksum_of_nothing_is_the_preset() {
    assert_eq!(crc32(&vec![]), 0xFFFF_FFFF);
}

#[test]
fn checksum_of_the_check_string() {
    assert_eq!(crc32(&b"123456789".to_vec()), 0x0376_E6E7);
}

#[test]
fn checksum_of_an_association_table() {
    let body = vec![0u8, 176, 13, 0, 0, 195, 0, 0, 0, 1, 225, 224];
    assert_eq!(crc32(&body), 0xE85F_74EC);
}

#[test]
fn checksum_of_a_section_with_its_checksum_is_zero() {
    let section = vec![0u8, 176, 13, 0, 0, 195, 0, 0, 0, 1, 225, 224, 232, 95, 116, 236];
    assert_eq!(crc32(&section), 0);
}
