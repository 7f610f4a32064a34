//! Tile-order encoding of the atlas: the row-major bitmap is cut into blocks
//! of 8 by 4 pixels, the blocks are stored one after another (block rows top
//! to bottom, blocks left to right within a block row), and each block holds
//! its four rows of eight bytes in row-major order.

use crate::geometry::{lemma_position, lemma_row_major, lemma_split};
use vstd::prelude::*;

verus! {

/// Width of one block of the tiled layout, in pixels.
pub const BLOCK_WIDTH: usize = 8;

/// Height of one block of the tiled layout, in pixels.
pub const BLOCK_HEIGHT: usize = 4;

/// Number of bytes in one block.
pub const BLOCK_BYTES: usize = 32;

/// Whether an atlas of these dimensions can be cut into whole blocks.
pub open spec fn tile_aligned(width: int, height: int) -> bool {
    &&& 0 <= width
    &&& 0 <= height
    &&& width % 8 == 0
    &&& height % 4 == 0
}

/// Offset in the tiled buffer of the pixel in column `x` and row `y` of an
/// atlas that is `width` pixels wide.
pub open spec fn tiled_offset(x: int, y: int, width: int) -> int {
    ((y / 4) * (width / 8) + x / 8) * 32 + (y % 4) * 8 + x % 8
}

/// Row-major offset of the pixel that the tiled buffer holds at offset `i`,
/// for an atlas that is `width` pixels wide.
pub open spec fn linear_offset(i: int, width: int) -> int {
    let block = i / 32;
    let inner = i % 32;
    let y = (block / (width / 8)) * 4 + inner / 8;
    let x = (block % (width / 8)) * 8 + inner % 8;
    y * width + x
}

/// The tiled form of a row-major bitmap.
pub open spec fn tiled(pixels: Seq<u8>, width: int) -> Seq<u8> {
    Seq::new(pixels.len(), |i: int| pixels[linear_offset(i, width)])
}

/// The row-major form of a tiled buffer.
pub open spec fn untiled(bytes: Seq<u8>, width: int) -> Seq<u8> {
    Seq::new(bytes.len(), |p: int| bytes[tiled_offset(p % width, p / width, width)])
}

/// Reorders a row-major bitmap into the tiled layout.
///
/// The atlas must be cut into whole blocks: its width is a multiple of 8
/// and its height a multiple of 4.
pub fn encode_tiled(atlas: &[u8], width: u32, height: u32) -> (tiles: Vec<u8>)
    requires
        tile_aligned(width as int, height as int),
        atlas@.len() == width * height,
    ensures
        tiles@ == tiled(atlas@, width as int),
{
    let width: usize = width as usize;
    let blocks: usize = width / BLOCK_WIDTH;
    let rows: usize = height as usize / BLOCK_HEIGHT;
    let total: usize = atlas.len();
    let mut tiles: Vec<u8> = Vec::with_capacity(total);
    let mut row: usize = 0;
    while row < rows
        invariant
            width == blocks * 8,
            height == rows * 4,
            atlas@.len() == width * height,
            atlas@.len() <= usize::MAX,
            row <= rows,
            tiles@.len() == row * blocks * 32,
            forall|i: int| 0 <= i < tiles@.len() ==> tiles@[i] == atlas@[linear_offset(i, width as int)],
        decreases rows - row,
    {
        let mut column: usize = 0;
        while column < blocks
            invariant
                width == blocks * 8,
                height == rows * 4,
                atlas@.len() == width * height,
                atlas@.len() <= usize::MAX,
            atlas@.len() <= usize::MAX,
                row < rows,
                column <= blocks,
                tiles@.len() == (row * blocks + column) * 32,
                forall|i: int|
                    0 <= i < tiles@.len() ==> tiles@[i] == atlas@[linear_offset(i, width as int)],
            decreases blocks - column,
        {
            let mut y: usize = 0;
            while y < BLOCK_HEIGHT
                invariant
                    width == blocks * 8,
                    height == rows * 4,
                    atlas@.len() == width * height,
                    atlas@.len() <= usize::MAX,
                atlas@.len() <= usize::MAX,
            atlas@.len() <= usize::MAX,
                    row < rows,
                    column < blocks,
                    y <= 4,
                    tiles@.len() == (row * blocks + column) * 32 + y * 8,
                    forall|i: int|
                        0 <= i < tiles@.len() ==> tiles@[i] == atlas@[linear_offset(
                            i,
                            width as int,
                        )],
                decreases 4 - y,
            {
                proof {
                    lemma_row_major(
                        column * 8,
                        row * 4 + y,
                        width as int,
                        height as int,
                    );
                    lemma_row_major(
                        column * 8 + 7,
                        row * 4 + y,
                        width as int,
                        height as int,
                    );
                }
                let start: usize = (row * BLOCK_HEIGHT + y) * width + column * BLOCK_WIDTH;
                let mut x: usize = 0;
                while x < BLOCK_WIDTH
                    invariant
                        width == blocks * 8,
                        height == rows * 4,
                        atlas@.len() == width * height,
                        atlas@.len() <= usize::MAX,
                    atlas@.len() <= usize::MAX,
                atlas@.len() <= usize::MAX,
            atlas@.len() <= usize::MAX,
                        row < rows,
                        column < blocks,
                        y < 4,
                        x <= 8,
                        start == (row * 4 + y) * width + column * 8,
                        start + 8 <= atlas@.len(),
                        tiles@.len() == (row * blocks + column) * 32 + y * 8 + x,
                        forall|i: int|
                            0 <= i < tiles@.len() ==> tiles@[i] == atlas@[linear_offset(
                                i,
                                width as int,
                            )],
                    decreases 8 - x,
                {
                    proof {
                        lemma_block_position(
                            row as int,
                            column as int,
                            y as int,
                            x as int,
                            blocks as int,
                        );
                    }
                    tiles.push(atlas[start + x]);
                    x += 1;
                }
                y += 1;
            }
            column += 1;
        }
        proof {
            assert((row * blocks + blocks) * 32 == (row + 1) * blocks * 32) by (nonlinear_arith);
        }
        row += 1;
    }
    proof {
        assert(rows * blocks * 32 == (blocks * 8) * (rows * 4)) by (nonlinear_arith);
        assert(tiles@ =~= tiled(atlas@, width as int));
    }
    tiles
}

/// Reorders a tiled buffer back into a row-major bitmap.
///
/// The atlas must be cut into whole blocks, as for [`encode_tiled`].
pub fn decode_tiled(tiles: &[u8], width: u32, height: u32) -> (pixels: Vec<u8>)
    requires
        tile_aligned(width as int, height as int),
        tiles@.len() == width * height,
    ensures
        pixels@ == untiled(tiles@, width as int),
{
    let width: usize = width as usize;
    let height: usize = height as usize;
    let blocks: usize = width / BLOCK_WIDTH;
    let total: usize = tiles.len();
    let mut pixels: Vec<u8> = Vec::with_capacity(total);
    let mut y: usize = 0;
    while y < height
        invariant
            tile_aligned(width as int, height as int),
            blocks == width / 8,
            tiles@.len() == width * height,
            tiles@.len() <= usize::MAX,
            y <= height,
            pixels@.len() == y * width,
            forall|p: int|
                0 <= p < pixels@.len() ==> pixels@[p] == tiles@[tiled_offset(
                    p % (width as int),
                    p / (width as int),
                    width as int,
                )],
        decreases height - y,
    {
        let mut x: usize = 0;
        while x < width
            invariant
                tile_aligned(width as int, height as int),
                blocks == width / 8,
                tiles@.len() == width * height,
                tiles@.len() <= usize::MAX,
            tiles@.len() <= usize::MAX,
                y < height,
                x <= width,
                pixels@.len() == y * width + x,
                forall|p: int|
                    0 <= p < pixels@.len() ==> pixels@[p] == tiles@[tiled_offset(
                        p % (width as int),
                        p / (width as int),
                        width as int,
                    )],
            decreases width - x,
        {
            proof {
                lemma_tiled_offset(x as int, y as int, width as int, height as int);
                lemma_row_major(x as int, y as int, width as int, height as int);
                assert(0 <= (y / 4) * blocks + x / 8 && ((y / 4) * blocks + x / 8) * 32 <= tiled_offset(
                    x as int,
                    y as int,
                    width as int,
                )) by (nonlinear_arith)
                    requires
                        tiled_offset(x as int, y as int, width as int) == ((y / 4) * blocks + x / 8)
                            * 32 + (y % 4) * 8 + x % 8,
                        0 <= y / 4,
                        0 <= x / 8,
                        0 <= blocks,
                        0 <= y % 4,
                        0 <= x % 8,
                ;
                assert(0 <= (y / 4) * blocks <= (y / 4) * blocks + x / 8) by (nonlinear_arith)
                    requires
                        0 <= y / 4,
                        0 <= x / 8,
                        0 <= blocks,
                ;
            }
            let block: usize = (y / BLOCK_HEIGHT) * blocks + x / BLOCK_WIDTH;
            let offset: usize = block * BLOCK_BYTES + (y % BLOCK_HEIGHT) * BLOCK_WIDTH + x
                % BLOCK_WIDTH;
            pixels.push(tiles[offset]);
            x += 1;
        }
        proof {
            assert(y * width + width == (y + 1) * width) by (nonlinear_arith);
        }
        y += 1;
    }
    proof {
        assert(height * width == width * height) by (nonlinear_arith);
        assert(pixels@ =~= untiled(tiles@, width as int));
    }
    pixels
}

/// The byte at the given place of the given block is the pixel that the
/// block covers at that place.
proof fn lemma_block_position(row: int, column: int, y: int, x: int, blocks: int)
    requires
        0 <= row,
        0 <= column < blocks,
        0 <= y < 4,
        0 <= x < 8,
    ensures
        linear_offset((row * blocks + column) * 32 + y * 8 + x, blocks * 8) == (row * 4 + y) * (
        blocks * 8) + column * 8 + x,
        tiled_offset(column * 8 + x, row * 4 + y, blocks * 8) == (row * blocks + column) * 32 + y
            * 8 + x,
{
    let block = row * blocks + column;
    lemma_split(block, y * 8 + x, 32);
    lemma_split(row, column, blocks);
    lemma_split(blocks, 0, 8);
    assert((blocks * 8) / 8 == blocks);
}

/// Every offset of the tiled buffer maps to an offset of the bitmap, and
/// back to itself.
pub proof fn lemma_linear_offset(i: int, width: int, height: int)
    requires
        tile_aligned(width, height),
        0 <= i < width * height,
    ensures
        0 <= linear_offset(i, width) < width * height,
        tiled_offset(linear_offset(i, width) % width, linear_offset(i, width) / width, width) == i,
{
    let blocks = width / 8;
    assert(width == blocks * 8);
    assert(0 < width && 0 < height) by (nonlinear_arith)
        requires
            0 <= width,
            0 <= height,
            0 <= i < width * height,
    ;
    let block = i / 32;
    let inner = i % 32;
    let row = block / blocks;
    let column = block % blocks;
    let y = inner / 8;
    let x = inner % 8;
    assert(block == row * blocks + column && 0 <= column < blocks) by (nonlinear_arith)
        requires
            0 < blocks,
            row == block / blocks,
            column == block % blocks,
    ;
    assert(0 <= row) by (nonlinear_arith)
        requires
            0 < blocks,
            0 <= block,
            row == block / blocks,
    ;
    assert(row * 4 + y < height) by (nonlinear_arith)
        requires
            0 <= row,
            0 <= column < blocks,
            0 <= y < 4,
            0 <= x < 8,
            height % 4 == 0,
            0 <= height,
            (row * blocks + column) * 32 + y * 8 + x < (blocks * 8) * height,
    {
        if row * 4 + y >= height {
            assert(row * 4 >= height);
            assert(row * blocks * 32 >= (blocks * 8) * height);
        }
    }
    lemma_block_position(row, column, y, x, blocks);
    lemma_row_major(column * 8 + x, row * 4 + y, width, height);
}

/// Every position of the bitmap maps to an offset of the tiled buffer, and
/// back to itself.
pub proof fn lemma_tiled_offset(x: int, y: int, width: int, height: int)
    requires
        tile_aligned(width, height),
        0 <= x < width,
        0 <= y < height,
    ensures
        0 <= tiled_offset(x, y, width) < width * height,
        linear_offset(tiled_offset(x, y, width), width) == y * width + x,
{
    let blocks = width / 8;
    let rows = height / 4;
    assert(width == blocks * 8);
    assert(height == rows * 4);
    let row = y / 4;
    let column = x / 8;
    lemma_block_position(row, column, y % 4, x % 8, blocks);
    assert(tiled_offset(x, y, width) < width * height) by (nonlinear_arith)
        requires
            tiled_offset(x, y, width) == (row * blocks + column) * 32 + (y % 4) * 8 + x % 8,
            0 <= row < rows,
            0 <= column < blocks,
            0 <= y % 4 < 4,
            0 <= x % 8 < 8,
            width == blocks * 8,
            height == rows * 4,
    {
        assert(row * blocks + column <= (rows - 1) * blocks + blocks - 1);
    }
    assert(0 <= tiled_offset(x, y, width)) by (nonlinear_arith)
        requires
            tiled_offset(x, y, width) == (row * blocks + column) * 32 + (y % 4) * 8 + x % 8,
            0 <= row,
            0 <= column < blocks,
            0 <= y % 4 < 4,
            0 <= x % 8 < 8,
    ;
}

/// Decoding the tiled form of a bitmap gives the bitmap back.
pub proof fn lemma_untiled_tiled(pixels: Seq<u8>, width: int, height: int)
    requires
        tile_aligned(width, height),
        pixels.len() == width * height,
    ensures
        untiled(tiled(pixels, width), width) == pixels,
{
    let back = untiled(tiled(pixels, width), width);
    assert forall|p: int| 0 <= p < pixels.len() implies back[p] == pixels[p] by {
        lemma_position(p, width, height);
        lemma_tiled_offset(p % width, p / width, width, height);
    }
    assert(back =~= pixels);
}

/// Encoding the row-major form of a tiled buffer gives the buffer back.
pub proof fn lemma_tiled_untiled(bytes: Seq<u8>, width: int, height: int)
    requires
        tile_aligned(width, height),
        bytes.len() == width * height,
    ensures
        tiled(untiled(bytes, width), width) == bytes,
{
    let back = tiled(untiled(bytes, width), width);
    assert forall|i: int| 0 <= i < bytes.len() implies back[i] == bytes[i] by {
        lemma_linear_offset(i, width, height);
    }
    assert(back =~= bytes);
}

} // verus!
