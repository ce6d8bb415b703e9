//! Cutting a square picture into the sixteen tiles of the board.

use crate::board::{find_tile, grid_view, lemma_solved_panel, BOARD_SIZE, SOLVED_PANEL};
use crate::model::solved_cell;
use crate::picture::{
    crop_rgba, dimensions, is_float, picture_is_float, picture_region, picture_size,
};
use image::DynamicImage;
use vstd::prelude::*;

verus! {

/// Why a picture cannot be cut into tiles.
#[derive(Debug, Clone, Copy, PartialEq, Eq, Structural)]
pub enum SliceError {
    /// The picture is not square, or its side is not a multiple of four.
    BadShape,
    /// The picture holds its samples as floating-point numbers, which may
    /// be no numbers at all.
    FloatSamples,
    /// The bytes of one tile would not fit into a vector on this machine.
    TooLarge,
}

/// A square part of a picture: the column and row of its top left pixel,
/// and the length of its side, all in pixels.
#[derive(Debug, Clone, Copy, PartialEq, Eq, Structural)]
pub struct Region {
    pub x: u32,
    pub y: u32,
    pub side: u32,
}

/// The picture of one tile: the length of its side in pixels, and its
/// pixels row by row as RGBA bytes.
#[derive(Debug, PartialEq, Eq)]
pub struct Tile {
    pub side: u32,
    pub pixels: Vec<u8>,
}

/// The row and column at which the solved board holds `value`.
pub open spec fn home(value: int) -> (int, int) {
    if value == 0 {
        (3, 3)
    } else {
        ((value - 1) / 4, (value - 1) % 4)
    }
}

/// The part of a picture that the tile `value` shows, where each tile has
/// `side` pixels a side: the square of the 4x4 grid of squares that lies
/// where the solved board holds the tile.
pub open spec fn region_of(value: int, side: int) -> (int, int, int) {
    (home(value).1 * side, home(value).0 * side, side)
}

/// A region as integers.
pub open spec fn region_view(region: Region) -> (int, int, int) {
    (region.x as int, region.y as int, region.side as int)
}

/// A picture of this width and height can be cut: it is square, and its
/// side is a multiple of four.
pub open spec fn can_be_cut(width: int, height: int) -> bool {
    width == height && width % 4 == 0
}

/// `home` is where the solved board holds a value, and nowhere else does it
/// hold that value.
pub proof fn lemma_home(value: int)
    requires
        0 <= value < 16,
    ensures
        0 <= home(value).0 < 4,
        0 <= home(value).1 < 4,
        solved_cell(home(value).0, home(value).1) == value,
        forall|r: int, c: int|
            0 <= r < 4 && 0 <= c < 4 && solved_cell(r, c) == value ==> (r, c) == home(value),
{
}

/// The row and column at which the solved board holds `value`, or `None`
/// for a value that it does not hold.
pub fn home_position(value: i32) -> (position: Option<(usize, usize)>)
    ensures
        position is Some <==> 0 <= value < 16,
        position matches Some(p) ==> (p.0 as int, p.1 as int) == home(value as int),
{
    let position = find_tile(&SOLVED_PANEL, value);
    proof {
        lemma_solved_panel();
        let g = grid_view(SOLVED_PANEL);
        if 0 <= value < 16 {
            lemma_home(value as int);
            let h = home(value as int);
            assert(g[h.0][h.1] == value);
        }
        if let Some(p) = position {
            assert(g[p.0 as int][p.1 as int] == solved_cell(p.0 as int, p.1 as int));
            lemma_home(value as int);
        }
    }
    position
}

/// The length of the side of a tile of a picture of the given width and
/// height: a quarter of the side of the picture, where it can be cut.
pub fn tile_side(width: u32, height: u32) -> (side: Result<u32, SliceError>)
    ensures
        side is Ok <==> can_be_cut(width as int, height as int),
        side matches Ok(s) ==> s == width / 4,
        side matches Err(e) ==> e == SliceError::BadShape,
{
    if width != height || width % (BOARD_SIZE as u32) != 0 {
        Err(SliceError::BadShape)
    } else {
        Ok(width / (BOARD_SIZE as u32))
    }
}

/// The sixteen squares into which a picture of the given width and height
/// is cut, at index `value` the square that tile `value` shows. The square
/// at index 0 is the one that no tile shows: the corner that the solved
/// board leaves empty.
pub fn tile_regions(width: u32, height: u32) -> (regions: Result<Vec<Region>, SliceError>)
    ensures
        regions is Ok <==> can_be_cut(width as int, height as int),
        regions matches Err(e) ==> e == SliceError::BadShape,
        regions matches Ok(list) ==> list@.len() == 16 && forall|value: int|
            0 <= value < 16 ==> region_view(#[trigger] list@[value]) == region_of(
                value,
                width as int / 4,
            ),
{
    let side = match tile_side(width, height) {
        Ok(side) => side,
        Err(e) => { return Err(e); },
    };
    let mut regions: Vec<Region> = Vec::new();
    let mut value: usize = 0;
    while value < BOARD_SIZE * BOARD_SIZE
        invariant
            value <= 16,
            side == width / 4,
            regions@.len() == value,
            forall|v: int|
                0 <= v < value ==> region_view(#[trigger] regions@[v]) == region_of(v, side as int),
        decreases 16 - value,
    {
        let position = home_position(value as i32);
        let (row, column) = position.unwrap();
        assert(column * side <= 3 * side && row * side <= 3 * side) by (nonlinear_arith)
            requires
                column <= 3,
                row <= 3,
                side >= 0,
        ;
        let region = Region { x: column as u32 * side, y: row as u32 * side, side };
        regions.push(region);
        value += 1;
    }
    Ok(regions)
}

/// The pixels of a tile that shows nothing: `count` bytes, all zero, which
/// is transparent black throughout.
pub open spec fn blank_pixels(count: int) -> Seq<u8> {
    Seq::new(count as nat, |i: int| 0u8)
}

/// What the tile `value` of a picture shows, where each tile has `side`
/// pixels a side: its square of the picture, and nothing for the empty slot.
pub open spec fn tile_pixels(picture: DynamicImage, value: int, side: int) -> Seq<u8> {
    if value == 0 {
        blank_pixels(4 * side * side)
    } else {
        picture_region(picture, region_of(value, side).0, region_of(value, side).1, side, side)
    }
}

/// Cuts a picture into the sixteen tiles of the board, the picture of tile
/// `value` at index `value`. All tiles have the same size; the one at index
/// 0, which stands for the empty slot, is blank. A picture that is not
/// square, or whose side is not a multiple of four, is refused. Of those
/// that are left, one with floating-point samples is refused, and of the
/// rest, one whose tiles are too large for this machine.
pub fn slice_image(picture: &DynamicImage) -> (tiles: Result<Vec<Tile>, SliceError>)
    ensures
        ({
            let (width, height) = picture_size(*picture);
            let side = width as int / 4;
            match tiles {
                Err(SliceError::BadShape) => !can_be_cut(width as int, height as int),
                Err(SliceError::FloatSamples) => can_be_cut(width as int, height as int)
                    && picture_is_float(*picture),
                Err(SliceError::TooLarge) => can_be_cut(width as int, height as int)
                    && !picture_is_float(*picture) && 4 * side * side > isize::MAX,
                Ok(list) => {
                    &&& can_be_cut(width as int, height as int)
                    &&& !picture_is_float(*picture)
                    &&& 4 * side * side <= isize::MAX
                    &&& list@.len() == 16
                    &&& forall|value: int|
                        0 <= value < 16 ==> {
                            &&& (#[trigger] list@[value]).side == side
                            &&& list@[value].pixels@.len() == 4 * side * side
                            &&& list@[value].pixels@ == tile_pixels(*picture, value, side)
                        }
                },
            }
        }),
{
    let (width, height) = dimensions(picture);
    let regions = match tile_regions(width, height) {
        Ok(regions) => regions,
        Err(e) => { return Err(e); },
    };
    if is_float(picture) {
        return Err(SliceError::FloatSamples);
    }
    let side: u32 = width / (BOARD_SIZE as u32);
    assert(4 * side * side <= 0x3fff_ffff_ffff_ffff) by (nonlinear_arith)
        requires
            0 <= side <= 0x3fff_ffff,
    ;
    let bytes: u64 = 4 * (side as u64) * (side as u64);
    if bytes > isize::MAX as u64 {
        return Err(SliceError::TooLarge);
    }
    let mut tiles: Vec<Tile> = Vec::new();
    let mut value: usize = 0;
    while value < regions.len()
        invariant
            value <= 16,
            regions@.len() == 16,
            (width, height) == picture_size(*picture),
            !picture_is_float(*picture),
            can_be_cut(width as int, height as int),
            side == width / 4,
            4 * side * side <= isize::MAX,
            forall|v: int|
                0 <= v < 16 ==> region_view(#[trigger] regions@[v]) == region_of(v, side as int),
            tiles@.len() == value,
            bytes == 4 * side * side,
            forall|v: int|
                0 <= v < value ==> {
                    &&& (#[trigger] tiles@[v]).side == side
                    &&& tiles@[v].pixels@.len() == 4 * side * side
                    &&& tiles@[v].pixels@ == tile_pixels(*picture, v, side as int)
                },
        decreases 16 - value,
    {
        let region = regions[value];
        proof {
            let h = home(value as int);
            assert(region_view(regions@[value as int]) == region_of(value as int, side as int));
            assert(h.1 * side + side <= 4 * side && h.0 * side + side <= 4 * side)
                by (nonlinear_arith)
                requires
                    0 <= h.0 <= 3,
                    0 <= h.1 <= 3,
                    side >= 0,
            ;
        }
        let pixels = if value == 0 {
            let blank = vec![0u8; bytes as usize];
            assert(blank@ =~= blank_pixels(4 * side * side));
            blank
        } else {
            crop_rgba(picture, region.x, region.y, side, side)
        };
        tiles.push(Tile { side, pixels });
        value += 1;
    }
    Ok(tiles)
}

} // verus!
