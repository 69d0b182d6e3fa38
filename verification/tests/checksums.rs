use lib::checksums::{crc16_modbus, crc16_xmodem, crc32, internet_checksum};

const CHECK_INPUT: &[u8] = b"123456789";

#[test]
fn crc32_matches_the_published_check_value() {
    assert_eq!(crc32(CHECK_INPUT), 0xCBF4_3926);
}

#[test]
fn crc16_xmodem_matches_the_published_check_value() {
    assert_eq!(crc16_xmodem(CHECK_INPUT), 0x31C3);
}

#[test]
fn crc16_modbus_matches_the_published_check_value() {
    assert_eq!(crc16_modbus(CHECK_INPUT), 0x4B37);
}

#[test]
fn crc32_of_empty_input_is_zero() {
    assert_eq!(crc32(&[]), 0);
}

#[test]
fn flipping_one_bit_changes_the_crc() {
    let original = crc32(b"hello world");
    let corrupted = crc32(b"hemlo world");
    assert_ne!(original, corrupted);
}

#[test]
fn xmodem_and_modbus_disagree_on_the_same_input() {
    assert_ne!(crc16_xmodem(CHECK_INPUT), crc16_modbus(CHECK_INPUT));
}

#[test]
fn internet_checksum_of_a_word_is_its_ones_complement() {
    assert_eq!(internet_checksum(&[0x00, 0x01]), !0x0001u16);
}

#[test]
fn internet_checksum_verifies_a_packet_including_its_own_checksum_field() {
    let payload = [0x45u8, 0x00, 0x00, 0x3c, 0x1c, 0x46, 0x40, 0x00, 0x40, 0x06];
    let checksum = internet_checksum(&payload);
    let mut with_checksum = payload.to_vec();
    with_checksum.extend_from_slice(&checksum.to_be_bytes());
    assert_eq!(internet_checksum(&with_checksum), 0x0000);
}

#[test]
fn internet_checksum_handles_an_odd_length_input() {
    assert_eq!(internet_checksum(&[0x00, 0x01, 0x02]), !0x0201u16);
}

#[test]
fn crc16_variants_of_empty_input_are_their_initial_registers() {
    assert_eq!(crc16_xmodem(&[]), 0x0000);
    assert_eq!(crc16_modbus(&[]), 0xFFFF);
}

#[test]
fn changing_any_single_byte_changes_every_crc() {
    let data = b"frame payload";
    for i in 0..data.len() {
        for b in [0u8, 1, 0x7f, 0x80, 0xff] {
            if b == data[i] {
                continue;
            }
            let mut changed = data.to_vec();
            changed[i] = b;
            assert_ne!(crc32(&changed), crc32(data));
            assert_ne!(crc16_xmodem(&changed), crc16_xmodem(data));
            assert_ne!(crc16_modbus(&changed), crc16_modbus(data));
        }
    }
}

#[test]
fn internet_checksum_of_empty_input_is_all_ones() {
    assert_eq!(internet_checksum(&[]), 0xFFFF);
}

#[test]
fn internet_checksum_folds_the_carry_back_in() {
    // 0xFFFF + 0x0001 = 0x10000, folded to 0x0001, complemented.
    assert_eq!(internet_checksum(&[0xFF, 0xFF, 0x00, 0x01]), !0x0001u16);
}

#[test]
fn internet_checksum_sums_any_length_without_overflow() {
    assert_eq!(internet_checksum(&[0xFFu8; 131075]), 0x00FF);
    let mut framed = vec![0xFFu8; 131074];
    let c = internet_checksum(&framed);
    framed.extend_from_slice(&c.to_be_bytes());
    assert_eq!(internet_checksum(&framed), 0);
}

#[test]
fn crc16_residues_are_zero_with_the_crc_appended_in_wire_order() {
    let mut x = CHECK_INPUT.to_vec();
    x.extend_from_slice(&crc16_xmodem(CHECK_INPUT).to_be_bytes());
    assert_eq!(crc16_xmodem(&x), 0);
    let mut m = CHECK_INPUT.to_vec();
    m.extend_from_slice(&crc16_modbus(CHECK_INPUT).to_le_bytes());
    assert_eq!(crc16_modbus(&m), 0);
}
