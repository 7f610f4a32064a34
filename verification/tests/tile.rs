use gcn_fonts::tile::{decode_tiled, encode_tiled};

#[test]
fn one_block_is_unchanged() {
    let atlas: Vec<u8> = (0..32).collect();
    assert_eq!(encode_tiled(&atlas, 8, 4), atlas);
}

#[test]
fn two_blocks_side_by_side() {
    let atlas: Vec<u8> = (0..64).collect();
    let tiles = encode_tiled(&atlas, 16, 4);
    let mut expected: Vec<u8> = Vec::new();
    for block in 0..2u8 {
        for row in 0..4u8 {
            for column in 0..8u8 {
                expected.push(row * 16 + block * 8 + column);
            }
        }
    }
    assert_eq!(tiles, expected);
    assert_eq!(tiles[8], 16);
    assert_eq!(tiles[32], 8);
}

#[test]
fn decode_inverts_encode() {
    let atlas: Vec<u8> = (0..(24 * 8)).map(|i| (i * 7 % 251) as u8).collect();
    let tiles = encode_tiled(&atlas, 24, 8);
    assert_eq!(tiles.len(), atlas.len());
    assert_eq!(decode_tiled(&tiles, 24, 8), atlas);
    assert_eq!(encode_tiled(&decode_tiled(&atlas, 24, 8), 24, 8), atlas);
}
