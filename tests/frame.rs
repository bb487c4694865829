use toucca::frame::{checksum, encode_frame, prepare, Pack};

fn xor(bytes: &[u8]) -> u8 {
    bytes.iter().fold(0u8, |a, b| a ^ b)
}

#[test]
fn checksum_of_empty_is_zero() {
    assert_eq!(checksum(&[]), 0);
}

#[test]
fn checksum_is_xor_of_all_bytes() {
    assert_eq!(checksum(&[1, 2, 3]), 0);
    assert_eq!(checksum(&[0x81, 0x10, 0x01]), 0x90);
    let prefix: Vec<u8> = (0..35u8).map(|i| i.wrapping_mul(37)).collect();
    assert_eq!(checksum(&prefix), xor(&prefix));
}

#[test]
fn checksum_changes_when_one_byte_is_corrupted() {
    let prefix: Vec<u8> = (0..35u8).map(|i| i.wrapping_mul(11).wrapping_add(3)).collect();
    let good = checksum(&prefix);
    for i in 0..prefix.len() {
        for bit in 0..8 {
            let mut bad = prefix.clone();
            bad[i] ^= 1 << bit;
            assert_ne!(checksum(&bad), good);
        }
    }
}

#[test]
fn set_turns_one_bit_on_and_off() {
    let mut pack: Pack = [0; 36];
    toucca::frame::set(&mut pack, 13, true);
    assert_eq!(pack[1], 0b0010_0000);
    toucca::frame::set(&mut pack, 14, true);
    assert_eq!(pack[1], 0b0110_0000);
    toucca::frame::set(&mut pack, 13, false);
    assert_eq!(pack[1], 0b0100_0000);
    toucca::frame::set(&mut pack, 287, true);
    assert_eq!(pack[35], 0x80);
    assert!(pack.iter().enumerate().all(|(i, b)| i == 1 || i == 35 || *b == 0));
}

#[test]
fn prepare_writes_marker_counter_and_checksum() {
    let mut pack: Pack = [0; 36];
    pack[5] = 0x0F;
    pack[34] = 41;
    pack[35] = 0xAA;
    let out = prepare(pack);
    assert_eq!(out[0], 129);
    assert_eq!(out[5], 0x0F);
    assert_eq!(out[34], 42);
    assert_eq!(out[35], 129 ^ 0x0F ^ 42);
    assert_eq!(out[35], xor(&out[..35]));
}

#[test]
fn prepare_wraps_counter_after_127() {
    let mut pack: Pack = [0; 36];
    pack[34] = 127;
    let out = prepare(pack);
    assert_eq!(out[34], 0);
    assert_eq!(out[35], 129);
    pack[34] = 126;
    assert_eq!(prepare(pack)[34], 127);
}

#[test]
fn encode_frame_packs_cell_i_at_bit_i_of_byte_one_on() {
    let mut local = vec![false; 120];
    local[0] = true;
    local[5] = true;
    local[119] = true;
    let frame = encode_frame(&local, 0);
    assert_eq!(frame[0], 129);
    assert_eq!(frame[1], 0b0010_0001);
    assert_eq!(frame[15], 0b1000_0000);
    assert_eq!(frame[34], 1);
    assert_eq!(frame[35], 129 ^ 0b0010_0001 ^ 0b1000_0000 ^ 1);
    for i in 2..15 {
        assert_eq!(frame[i], 0);
    }
    for i in 16..34 {
        assert_eq!(frame[i], 0);
    }
}

#[test]
fn encode_frame_all_cells_fill_fifteen_bytes() {
    let local = vec![true; 120];
    let frame = encode_frame(&local, 9);
    for i in 1..16 {
        assert_eq!(frame[i], 0xFF);
    }
    assert_eq!(frame[16], 0);
    assert_eq!(frame[34], 10);
    assert_eq!(frame[35], xor(&frame[..35]));
}
