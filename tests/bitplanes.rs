use samus::bitplanes::{decode_tiles, Bitplanes, Tile};

#[test]
fn snes_mode_4_4bpp() {
    let encoded: &[u8] = &[
        0b00101110, // Bitplane 0
        0b00100000, // Bitplane 1
        0b11101001, // Bitplane 0
        0b10010101, // Bitplane 1
        0b11111101, // ...
        0b10101011,
        0b01000111,
        0b00010101,
        0b00110000,
        0b01011100,
        0b10011111,
        0b00011101,
        0b10010110,
        0b01011010,
        0b00010101,
        0b00101110,

        0b01000000, // Bitplane 2
        0b00001111, // Bitplane 3
        0b00010001, // Bitplane 2
        0b11111011, // Bitplane 3
        0b01000001, // ...
        0b10011100,
        0b10000100,
        0b11110110,
        0b10110000,
        0b00011000,
        0b00100111,
        0b00001001,
        0b11101000,
        0b00101010,
        0b00010001,
        0b10000011,
    ];

    let expected = [
        0b0000, 0b0100, 0b0011, 0b0000, 0b1001, 0b1001, 0b1001, 0b1000,
        0b1011, 0b1001, 0b1001, 0b1110, 0b1001, 0b0010, 0b1000, 0b1111,
        0b1011, 0b0101, 0b0011, 0b1001, 0b1011, 0b1001, 0b0010, 0b0111,
        0b1100, 0b1001, 0b1000, 0b1010, 0b0000, 0b1111, 0b1001, 0b0011,
        0b0100, 0b0010, 0b0101, 0b1111, 0b1010, 0b0010, 0b0000, 0b0000,
        0b0001, 0b0000, 0b0100, 0b0011, 0b1011, 0b0111, 0b0101, 0b1111,
        0b0101, 0b0110, 0b1100, 0b0011, 0b1110, 0b0001, 0b1011, 0b0000,
        0b1000, 0b0000, 0b0010, 0b0101, 0b0010, 0b0011, 0b1010, 0b1101,
    ];

    let mut decoded = Bitplanes::new(encoded);

    let some_decoded_tile = decoded.next();
    assert!(some_decoded_tile.is_some());
    assert_eq!(&expected[..], &some_decoded_tile.unwrap().0[..]);
    assert!(decoded.next().is_none());
}

#[test]
fn decode_tiles_yields_one_tile_per_32_bytes() {
    let bytes = vec![0xFFu8; 96];
    let tiles = decode_tiles(&bytes);
    assert_eq!(tiles.len(), 3);
    for t in &tiles {
        assert!(t.0.iter().all(|p| *p == 15));
    }
    assert_eq!(decode_tiles(&[]).len(), 0);
}

#[test]
fn decoding_is_deterministic() {
    let bytes: Vec<u8> = (0..64u32).map(|i| (i * 37 % 251) as u8).collect();
    assert_eq!(decode_tiles(&bytes), decode_tiles(&bytes));
}

#[test]
fn plane_bits_weigh_one_two_four_eight() {
    let mut bytes = vec![0u8; 32];
    bytes[0] = 0x80; // plane 0, row 0, column 0
    bytes[3] = 0x40; // plane 1, row 1, column 1
    bytes[20] = 0x01; // plane 2, row 2, column 7
    bytes[23] = 0x02; // plane 3, row 3, column 6
    let t = decode_tiles(&bytes)[0];
    assert_eq!(t.get(0), 1);
    assert_eq!(t.get(9), 2);
    assert_eq!(t.get(23), 4);
    assert_eq!(t.get(30), 8);
    assert_eq!(t.0.iter().filter(|p| **p != 0).count(), 4);
}

#[test]
fn bitplanes_counts_down() {
    let bytes = vec![0u8; 64];
    let mut b = Bitplanes::new(&bytes);
    assert_eq!(b.remaining(), 2);
    assert_eq!(b.next(), Some(Tile::blank()));
    assert_eq!(b.remaining(), 1);
    assert!(b.next().is_some());
    assert_eq!(b.remaining(), 0);
    assert!(b.next().is_none());
}

#[test]
fn tile_rows_by_chunks() {
    let mut px = [0u8; 64];
    for (i, p) in px.iter_mut().enumerate() {
        *p = i as u8;
    }
    let t = Tile(px);
    let rows = t.chunks(8);
    assert_eq!(rows.len(), 8);
    assert_eq!(rows[1], (8..16).collect::<Vec<u8>>());
    let odd = t.chunks(10);
    assert_eq!(odd.len(), 7);
    assert_eq!(odd[6], vec![60, 61, 62, 63]);
    assert_eq!(t.chunks(100).len(), 1);
}
