//! The atlas: the table of rectangles that a texture region is cut into,
//! one per tile id.
use vstd::prelude::*;
use vstd::arithmetic::div_mod::lemma_div_multiples_vanish;
use crate::tile::Rect;

verus! {

/// Number of whole cells of `cell` pixels in `extent` pixels.
pub open spec fn cells_in(extent: int, cell: int) -> int {
    if extent <= 0 {
        0
    } else {
        extent / cell
    }
}

/// Number of rectangles an atlas clip is cut into.
pub open spec fn atlas_count(clip: Rect, tile_width: int, tile_height: int) -> int {
    cells_in(clip.height as int, tile_height) * cells_in(clip.width as int, tile_width)
}

/// Whether an atlas clip can be cut into cells of the given size: the ids
/// fit in a `u32` and every rectangle's corner fits in an `i64`.
pub open spec fn atlas_fits(clip: Rect, tile_width: int, tile_height: int) -> bool {
    &&& tile_width > 0
    &&& tile_height > 0
    &&& atlas_count(clip, tile_width, tile_height) <= u32::MAX
    &&& clip.x + (if clip.width > 0 { clip.width as int } else { 0 }) <= i64::MAX
    &&& clip.y + (if clip.height > 0 { clip.height as int } else { 0 }) <= i64::MAX
}

/// The atlas rectangle of id `id`: the atlas is read row by row, left to
/// right, each row `cells_in(clip.width, tile_width)` cells long.
pub open spec fn atlas_rect(clip: Rect, tile_width: int, tile_height: int, id: int) -> Rect {
    let cols = cells_in(clip.width as int, tile_width);
    Rect {
        x: (clip.x + (id % cols) * tile_width) as i64,
        y: (clip.y + (id / cols) * tile_height) as i64,
        width: tile_width as i64,
        height: tile_height as i64,
    }
}

/// The table of atlas rectangles, indexed by id.
pub open spec fn atlas_table(clip: Rect, tile_width: int, tile_height: int) -> Seq<Rect> {
    Seq::new(atlas_count(clip, tile_width, tile_height) as nat, |id: int| atlas_rect(clip, tile_width, tile_height, id))
}

/// An atlas clip of `rows` by `cols` whole cells gives `rows * cols`
/// rectangles; id 0 is the top left cell, id 1 the cell to its right, and
/// the id after a full row is the first cell of the next row.
pub proof fn lemma_atlas_table_shape(clip: Rect, tile_width: int, tile_height: int, rows: int, cols: int)
    requires
        tile_width > 0,
        tile_height > 0,
        rows > 0,
        cols > 0,
        clip.width == cols * tile_width,
        clip.height == rows * tile_height,
    ensures
        atlas_table(clip, tile_width, tile_height).len() == rows * cols,
        atlas_table(clip, tile_width, tile_height)[0] == (Rect {
            x: clip.x,
            y: clip.y,
            width: tile_width as i64,
            height: tile_height as i64,
        }),
        cols > 1 ==> atlas_table(clip, tile_width, tile_height)[1] == (Rect {
            x: (clip.x + tile_width) as i64,
            y: clip.y,
            width: tile_width as i64,
            height: tile_height as i64,
        }),
        rows > 1 ==> atlas_table(clip, tile_width, tile_height)[cols] == (Rect {
            x: clip.x,
            y: (clip.y + tile_height) as i64,
            width: tile_width as i64,
            height: tile_height as i64,
        }),
{
    lemma_div_multiples_vanish(cols, tile_width);
    lemma_div_multiples_vanish(rows, tile_height);
    assert(tile_width * cols == cols * tile_width) by (nonlinear_arith);
    assert(tile_height * rows == rows * tile_height) by (nonlinear_arith);
    vstd::arithmetic::div_mod::lemma_small_mod(0, cols as nat);
    vstd::arithmetic::div_mod::lemma_basic_div(0, cols);
    assert(cols * tile_width > 0) by (nonlinear_arith)
        requires
            cols > 0,
            tile_width > 0,
    ;
    assert(rows * tile_height > 0) by (nonlinear_arith)
        requires
            rows > 0,
            tile_height > 0,
    ;
    assert(cells_in(clip.width as int, tile_width) == cols);
    assert(cells_in(clip.height as int, tile_height) == rows);
    assert(rows * cols >= cols) by (nonlinear_arith)
        requires
            rows > 0,
            cols > 0,
    ;
    if cols > 1 {
        vstd::arithmetic::div_mod::lemma_small_mod(1, cols as nat);
        vstd::arithmetic::div_mod::lemma_basic_div(1, cols);
    }
    vstd::arithmetic::div_mod::lemma_mod_self_0(cols);
    vstd::arithmetic::div_mod::lemma_div_by_self(cols);
    if rows > 1 {
        assert(rows * cols > cols) by (nonlinear_arith)
            requires
                rows > 1,
                cols > 0,
        ;
    }
}

/// Cuts an atlas clip into cells: `clip.height / tile_height` rows of
/// `clip.width / tile_width` cells, numbered row by row from 0.
pub fn get_tile_rectangles(clip: Rect, tile_width: i64, tile_height: i64) -> (r: Vec<Rect>)
    requires
        atlas_fits(clip, tile_width as int, tile_height as int),
    ensures
        r@ == atlas_table(clip, tile_width as int, tile_height as int),
{
    let rows: i64 = if clip.height <= 0 {
        0
    } else {
        clip.height / tile_height
    };
    let cols: i64 = if clip.width <= 0 {
        0
    } else {
        clip.width / tile_width
    };
    proof {
        assert(0 <= rows && 0 <= cols);
        assert(rows * cols <= u32::MAX);
        assert(cols * tile_width <= (if clip.width > 0 { clip.width as int } else { 0 })) by (nonlinear_arith)
            requires
                cols == (if clip.width <= 0 { 0 } else { clip.width / tile_width }),
                tile_width > 0,
        ;
        assert(rows * tile_height <= (if clip.height > 0 { clip.height as int } else { 0 })) by (nonlinear_arith)
            requires
                rows == (if clip.height <= 0 { 0 } else { clip.height / tile_height }),
                tile_height > 0,
        ;
    }
    let count: u64 = (rows * cols) as u64;
    let mut table: Vec<Rect> = Vec::new();
    let mut id: u64 = 0;
    while id < count
        invariant
            0 <= id <= count,
            count == atlas_count(clip, tile_width as int, tile_height as int),
            count <= u32::MAX,
            cols == cells_in(clip.width as int, tile_width as int),
            rows == cells_in(clip.height as int, tile_height as int),
            count == rows * cols,
            cols * tile_width <= (if clip.width > 0 { clip.width as int } else { 0 }),
            rows * tile_height <= (if clip.height > 0 { clip.height as int } else { 0 }),
            atlas_fits(clip, tile_width as int, tile_height as int),
            table@.len() == id,
            forall|k: int| 0 <= k < id ==> table@[k] == atlas_rect(clip, tile_width as int, tile_height as int, k),
        decreases count - id,
    {
        let c: i64 = cols;
        let col: i64 = (id % (c as u64)) as i64;
        let row: i64 = (id / (c as u64)) as i64;
        proof {
            assert(c > 0) by (nonlinear_arith)
                requires
                    id < count,
                    count == rows * c,
                    0 <= rows,
                    0 <= c,
            ;
            assert(0 <= col < c);
            assert(0 <= row < rows) by (nonlinear_arith)
                requires
                    row == id as int / c as int,
                    id < rows * c,
                    c > 0,
                    0 <= id,
            ;
            assert(col * tile_width < c * tile_width) by (nonlinear_arith)
                requires
                    0 <= col < c,
                    tile_width > 0,
            ;
            assert(row * tile_height < rows * tile_height) by (nonlinear_arith)
                requires
                    0 <= row < rows,
                    tile_height > 0,
            ;
            assert(0 <= col * tile_width) by (nonlinear_arith)
                requires
                    0 <= col,
                    tile_width > 0,
            ;
            assert(0 <= row * tile_height) by (nonlinear_arith)
                requires
                    0 <= row,
                    tile_height > 0,
            ;
        }
        let rect = Rect {
            x: clip.x + col * tile_width,
            y: clip.y + row * tile_height,
            width: tile_width,
            height: tile_height,
        };
        table.push(rect);
        id = id + 1;
    }
    proof {
        assert(table@ =~= atlas_table(clip, tile_width as int, tile_height as int));
    }
    table
}

/// Whether the atlas clip can be cut into cells of the given size.
pub fn atlas_fits_check(clip: Rect, tile_width: i64, tile_height: i64) -> (r: bool)
    ensures
        r == atlas_fits(clip, tile_width as int, tile_height as int),
{
    if tile_width <= 0 || tile_height <= 0 {
        return false;
    }
    let rows: i128 = if clip.height <= 0 {
        0
    } else {
        (clip.height / tile_height) as i128
    };
    let cols: i128 = if clip.width <= 0 {
        0
    } else {
        (clip.width / tile_width) as i128
    };
    proof {
        assert(rows * cols <= 0x7fff_ffff_ffff_ffff * 0x7fff_ffff_ffff_ffff) by (nonlinear_arith)
            requires
                0 <= rows <= 0x7fff_ffff_ffff_ffff,
                0 <= cols <= 0x7fff_ffff_ffff_ffff,
        ;
    }
    let ex: i128 = clip.x as i128 + if clip.width > 0 {
        clip.width as i128
    } else {
        0
    };
    let ey: i128 = clip.y as i128 + if clip.height > 0 {
        clip.height as i128
    } else {
        0
    };
    rows * cols <= u32::MAX as i128 && ex <= i64::MAX as i128 && ey <= i64::MAX as i128
}

} // verus!
