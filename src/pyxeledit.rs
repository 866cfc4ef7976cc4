//! PyxelEdit maps: every tile carries its rotation as a number of quarter
//! turns and a horizontal flip flag.
use vstd::prelude::*;
use crate::error::{DecodeError, DocumentKind, Fault};
use crate::tile::{anchor_of, Orientation, Rotation};
use crate::tiled::fits_i64;

verus! {

/// One tile entry of a PyxelEdit layer. The entry with id -1 is an empty
/// cell. The last five fields are the entry's place and orientation once
/// decoded.
#[derive(Debug, Clone, Copy, PartialEq, Eq, Structural)]
pub struct Tile {
    pub id: i32,
    pub x: i64,
    pub y: i64,
    pub flip_x: bool,
    pub index: i64,
    pub rotation_id: i8,
    pub position_x: i64,
    pub position_y: i64,
    pub rotation: Rotation,
    pub scale_x: i8,
    pub scale_y: i8,
}

/// A layer of a PyxelEdit document.
#[derive(Debug)]
pub struct Layers {
    pub number: i64,
    pub tiles: Vec<Tile>,
    pub name: String,
}

/// A PyxelEdit document: its size in cells, its cell size in pixels and its
/// layers, the topmost first.
#[derive(Debug)]
pub struct PyxelTilemap {
    pub tileshigh: i64,
    pub tileswide: i64,
    pub tile_height: i64,
    pub tile_width: i64,
    pub layers: Vec<Layers>,
}

/// The rotation of a number of quarter turns; numbers other than 1, 2 and 3
/// turn nothing.
pub open spec fn spec_pyxel_rotation(rotation: i8) -> Rotation {
    if rotation == 1 {
        Rotation::Quarter
    } else if rotation == 2 {
        Rotation::Half
    } else if rotation == 3 {
        Rotation::ThreeQuarters
    } else {
        Rotation::Zero
    }
}

pub fn pyxel_rotation(rotation: i8) -> (r: Rotation)
    ensures
        r == spec_pyxel_rotation(rotation),
{
    if rotation == 1 {
        Rotation::Quarter
    } else if rotation == 2 {
        Rotation::Half
    } else if rotation == 3 {
        Rotation::ThreeQuarters
    } else {
        Rotation::Zero
    }
}

/// Orientation for a flip flag and a number of quarter turns: a flip
/// mirrors horizontally, and the origin moves so that the turned and
/// mirrored sprite covers its own cell.
pub open spec fn spec_pyxel_orientation(flip_x: bool, rotation: i8) -> Orientation {
    let (shift_x, shift_y) = if flip_x {
        if rotation == 0 {
            (true, false)
        } else if rotation == 1 {
            (true, true)
        } else if rotation == 2 {
            (false, true)
        } else {
            (false, false)
        }
    } else {
        if rotation == 1 {
            (true, false)
        } else if rotation == 2 {
            (true, true)
        } else if rotation == 3 {
            (false, true)
        } else {
            (false, false)
        }
    };
    Orientation {
        rotation: spec_pyxel_rotation(rotation),
        scale_x: if flip_x {
            -1i8
        } else {
            1i8
        },
        scale_y: 1,
        shift_x,
        shift_y,
    }
}

pub fn pyxel_orientation(flip_x: bool, rotation: i8) -> (o: Orientation)
    ensures
        o == spec_pyxel_orientation(flip_x, rotation),
{
    let mut shift_x = false;
    let mut shift_y = false;
    if flip_x {
        if rotation == 0 {
            shift_x = true;
        } else if rotation == 1 {
            shift_x = true;
            shift_y = true;
        } else if rotation == 2 {
            shift_y = true;
        }
    } else if rotation == 1 {
        shift_x = true;
    } else if rotation == 2 {
        shift_x = true;
        shift_y = true;
    } else if rotation == 3 {
        shift_y = true;
    }
    Orientation {
        rotation: pyxel_rotation(rotation),
        scale_x: if flip_x {
            -1
        } else {
            1
        },
        scale_y: 1,
        shift_x,
        shift_y,
    }
}

/// Whether a non-empty entry can be placed on a map `wide` by `high` cells
/// of `tile_width` by `tile_height` pixels: a non-negative id, zero to three
/// quarter turns, a cell inside the map, and an anchor that fits in an `i64`.
pub open spec fn pyxel_tile_ok(t: Tile, wide: int, high: int, tile_width: int, tile_height: int) -> bool {
    let o = spec_pyxel_orientation(t.flip_x, t.rotation_id);
    &&& t.id >= 0
    &&& 0 <= t.rotation_id <= 3
    &&& 0 <= t.x < wide
    &&& 0 <= t.y < high
    &&& fits_i64(anchor_of(t.x as int, tile_width, o.shift_x))
    &&& fits_i64(anchor_of(t.y as int, tile_height, o.shift_y))
}

/// Whether an entry is empty or can be placed.
pub open spec fn pyxel_entry_ok(t: Tile, wide: int, high: int, tile_width: int, tile_height: int) -> bool {
    t.id == -1 || pyxel_tile_ok(t, wide, high, tile_width, tile_height)
}

/// An entry with its place and orientation filled in.
pub open spec fn spec_placed(t: Tile, tile_width: int, tile_height: int) -> Tile {
    let o = spec_pyxel_orientation(t.flip_x, t.rotation_id);
    Tile {
        position_x: anchor_of(t.x as int, tile_width, o.shift_x) as i64,
        position_y: anchor_of(t.y as int, tile_height, o.shift_y) as i64,
        rotation: o.rotation,
        scale_x: o.scale_x,
        scale_y: o.scale_y,
        ..t
    }
}

/// A layer's entries without the empty ones, each placed.
pub open spec fn spec_placed_tiles(tiles: Seq<Tile>, tile_width: int, tile_height: int) -> Seq<Tile>
    decreases tiles.len(),
{
    if tiles.len() == 0 {
        seq![]
    } else {
        let prev = spec_placed_tiles(tiles.drop_last(), tile_width, tile_height);
        if tiles.last().id == -1 {
            prev
        } else {
            prev.push(spec_placed(tiles.last(), tile_width, tile_height))
        }
    }
}

/// Whether decoded entry `t` sits where the table puts it: turned and
/// mirrored as its flip flag and quarter turns say, its anchor the cell's
/// corner plus the table's shift.
pub open spec fn pyxel_placed(t: Tile, tile_width: int, tile_height: int) -> bool {
    let o = spec_pyxel_orientation(t.flip_x, t.rotation_id);
    &&& t.rotation == o.rotation
    &&& t.scale_x == o.scale_x
    &&& t.scale_y == o.scale_y
    &&& t.position_x == anchor_of(t.x as int, tile_width, o.shift_x)
    &&& t.position_y == anchor_of(t.y as int, tile_height, o.shift_y)
}

/// Every entry decoded from a PyxelEdit layer is anchored at its grid
/// coordinate times the cell size plus the shift that its flip flag and
/// quarter turns call for.
pub proof fn lemma_pyxel_positions(tiles: Seq<Tile>, wide: int, high: int, tile_width: int, tile_height: int)
    requires
        forall|i: int| 0 <= i < tiles.len() ==> pyxel_entry_ok(#[trigger] tiles[i], wide, high, tile_width, tile_height),
    ensures
        forall|j: int|
            0 <= j < spec_placed_tiles(tiles, tile_width, tile_height).len() ==> pyxel_placed(
                #[trigger] spec_placed_tiles(tiles, tile_width, tile_height)[j],
                tile_width,
                tile_height,
            ),
    decreases tiles.len(),
{
    if tiles.len() > 0 {
        let d = tiles.drop_last();
        assert forall|i: int| 0 <= i < d.len() implies pyxel_entry_ok(#[trigger] d[i], wide, high, tile_width, tile_height) by {
            assert(d[i] == tiles[i]);
        }
        lemma_pyxel_positions(d, wide, high, tile_width, tile_height);
        let prev = spec_placed_tiles(d, tile_width, tile_height);
        let all = spec_placed_tiles(tiles, tile_width, tile_height);
        assert forall|j: int| 0 <= j < all.len() implies pyxel_placed(#[trigger] all[j], tile_width, tile_height) by {
            if j < prev.len() {
                assert(all[j] == prev[j]);
            } else {
                assert(pyxel_entry_ok(tiles[tiles.len() - 1], wide, high, tile_width, tile_height));
            }
        }
    }
}

/// The fault of a document's header, if any.
pub open spec fn pyxel_header_fault(m: PyxelTilemap) -> Option<Fault> {
    if m.tile_width <= 0 || m.tile_height <= 0 {
        Some(Fault::TileSize)
    } else if m.tileswide < 0 || m.tileshigh < 0 {
        Some(Fault::GridSize)
    } else {
        None
    }
}

/// Whether every entry of layer `l` of `m` is empty or can be placed.
pub open spec fn pyxel_layer_ok(m: PyxelTilemap, l: Seq<Tile>) -> bool {
    forall|i: int|
        0 <= i < l.len() ==> pyxel_entry_ok(
            #[trigger] l[i],
            m.tileswide as int,
            m.tileshigh as int,
            m.tile_width as int,
            m.tile_height as int,
        )
}

/// Whether `f` names the first entry of `m` that cannot be placed.
pub open spec fn pyxel_fault_at(m: PyxelTilemap, f: Fault) -> bool {
    match f {
        Fault::Tile { layer, index } => {
            let k = layer as int;
            let i = index as int;
            &&& 0 <= k < m.layers@.len()
            &&& forall|j: int| 0 <= j < k ==> pyxel_layer_ok(m, (#[trigger] m.layers@[j]).tiles@)
            &&& 0 <= i < m.layers@[k].tiles@.len()
            &&& pyxel_layer_ok(m, m.layers@[k].tiles@.subrange(0, i))
            &&& !pyxel_entry_ok(
                m.layers@[k].tiles@[i],
                m.tileswide as int,
                m.tileshigh as int,
                m.tile_width as int,
                m.tile_height as int,
            )
        },
        _ => false,
    }
}

/// Drops a layer's empty entries and places the others; fails with the
/// position of the first entry that cannot be placed.
fn remodel_tiles(tiles: &Vec<Tile>, wide: i64, high: i64, tile_width: i64, tile_height: i64) -> (r: Result<Vec<Tile>, usize>)
    requires
        tile_width > 0,
        tile_height > 0,
    ensures
        r is Ok == (forall|i: int|
            0 <= i < tiles@.len() ==> pyxel_entry_ok(#[trigger] tiles@[i], wide as int, high as int, tile_width as int, tile_height as int)),
        r is Ok ==> r.unwrap()@ == spec_placed_tiles(tiles@, tile_width as int, tile_height as int),
        r is Err ==> {
            let i = r.unwrap_err() as int;
            &&& 0 <= i < tiles@.len()
            &&& !pyxel_entry_ok(tiles@[i], wide as int, high as int, tile_width as int, tile_height as int)
            &&& forall|j: int|
                0 <= j < i ==> pyxel_entry_ok(#[trigger] tiles@[j], wide as int, high as int, tile_width as int, tile_height as int)
        },
{
    let mut out: Vec<Tile> = Vec::new();
    let mut i: usize = 0;
    while i < tiles.len()
        invariant
            0 <= i <= tiles@.len(),
            tile_width > 0,
            tile_height > 0,
            out@ == spec_placed_tiles(tiles@.subrange(0, i as int), tile_width as int, tile_height as int),
            forall|j: int|
                0 <= j < i ==> pyxel_entry_ok(#[trigger] tiles@[j], wide as int, high as int, tile_width as int, tile_height as int),
        decreases tiles@.len() - i,
    {
        let t = tiles[i];
        proof {
            assert(tiles@.subrange(0, i + 1).drop_last() =~= tiles@.subrange(0, i as int));
            assert(tiles@.subrange(0, i + 1).last() == t);
        }
        if t.id != -1 {
            if t.id < 0 || t.rotation_id < 0 || t.rotation_id > 3 || t.x < 0 || t.x >= wide || t.y < 0 || t.y >= high {
                return Err(i);
            }
            let o = pyxel_orientation(t.flip_x, t.rotation_id);
            let x: i128 = t.x as i128;
            let y: i128 = t.y as i128;
            let tw: i128 = tile_width as i128;
            let th: i128 = tile_height as i128;
            proof {
                assert(x * tw < 0x4000_0000_0000_0000_0000_0000_0000_0000) by (nonlinear_arith)
                    requires
                        0 <= x <= 0x7fff_ffff_ffff_ffff,
                        0 < tw <= 0x7fff_ffff_ffff_ffff,
                ;
                assert(y * th < 0x4000_0000_0000_0000_0000_0000_0000_0000) by (nonlinear_arith)
                    requires
                        0 <= y <= 0x7fff_ffff_ffff_ffff,
                        0 < th <= 0x7fff_ffff_ffff_ffff,
                ;
                assert(0 <= x * tw) by (nonlinear_arith)
                    requires
                        0 <= x,
                        0 < tw,
                ;
                assert(0 <= y * th) by (nonlinear_arith)
                    requires
                        0 <= y,
                        0 < th,
                ;
            }
            let px: i128 = x * tw + if o.shift_x {
                tw
            } else {
                0
            };
            let py: i128 = y * th + if o.shift_y {
                th
            } else {
                0
            };
            if px > i64::MAX as i128 || py > i64::MAX as i128 {
                return Err(i);
            }
            let placed = Tile {
                position_x: px as i64,
                position_y: py as i64,
                rotation: o.rotation,
                scale_x: o.scale_x,
                scale_y: o.scale_y,
                ..t
            };
            out.push(placed);
        }
        i = i + 1;
    }
    proof {
        assert(tiles@.subrange(0, tiles@.len() as int) =~= tiles@);
    }
    Ok(out)
}

/// Decodes a PyxelEdit document in place: in every layer the empty entries
/// are dropped and the others get their place and orientation. On failure
/// the document is left as it was.
pub fn remodel(tilemap: &mut PyxelTilemap) -> (r: Result<(), DecodeError>)
    ensures
        r is Ok == (pyxel_header_fault(*old(tilemap)) is None && forall|k: int|
            0 <= k < old(tilemap).layers@.len() ==> pyxel_layer_ok(*old(tilemap), (#[trigger] old(tilemap).layers@[k]).tiles@)),
        r is Ok ==> {
            &&& final(tilemap).tileshigh == old(tilemap).tileshigh
            &&& final(tilemap).tileswide == old(tilemap).tileswide
            &&& final(tilemap).tile_width == old(tilemap).tile_width
            &&& final(tilemap).tile_height == old(tilemap).tile_height
            &&& final(tilemap).layers@.len() == old(tilemap).layers@.len()
            &&& forall|k: int| 0 <= k < final(tilemap).layers@.len() ==> {
                let before = old(tilemap).layers@[k];
                let after = #[trigger] final(tilemap).layers@[k];
                &&& after.number == before.number
                &&& after.name@ == before.name@
                &&& after.tiles@ == spec_placed_tiles(before.tiles@, old(tilemap).tile_width as int, old(tilemap).tile_height as int)
            }
        },
        r is Ok ==> forall|k: int, j: int|
            0 <= k < final(tilemap).layers@.len() && 0 <= j < final(tilemap).layers@[k].tiles@.len() ==> pyxel_placed(
                #[trigger] final(tilemap).layers@[k].tiles@[j],
                final(tilemap).tile_width as int,
                final(tilemap).tile_height as int,
            ),
        r is Err ==> *final(tilemap) == *old(tilemap),
        r is Err ==> r.unwrap_err().document == DocumentKind::PyxelEdit,
        r is Err && pyxel_header_fault(*old(tilemap)) is Some ==> r.unwrap_err().fault == pyxel_header_fault(*old(tilemap)).unwrap(),
        r is Err && pyxel_header_fault(*old(tilemap)) is None ==> pyxel_fault_at(*old(tilemap), r.unwrap_err().fault),
{
    if tilemap.tile_width <= 0 || tilemap.tile_height <= 0 {
        return Err(DecodeError::new(DocumentKind::PyxelEdit, Fault::TileSize));
    }
    if tilemap.tileswide < 0 || tilemap.tileshigh < 0 {
        return Err(DecodeError::new(DocumentKind::PyxelEdit, Fault::GridSize));
    }
    let mut layers: Vec<Layers> = Vec::new();
    let mut k: usize = 0;
    while k < tilemap.layers.len()
        invariant
            0 <= k <= tilemap.layers@.len(),
            pyxel_header_fault(*tilemap) is None,
            tilemap.tile_width > 0,
            tilemap.tile_height > 0,
            layers@.len() == k,
            forall|j: int| 0 <= j < k ==> pyxel_layer_ok(*tilemap, (#[trigger] tilemap.layers@[j]).tiles@),
            forall|j: int| 0 <= j < k ==> {
                let before = tilemap.layers@[j];
                let after = #[trigger] layers@[j];
                &&& after.number == before.number
                &&& after.name@ == before.name@
                &&& after.tiles@ == spec_placed_tiles(before.tiles@, tilemap.tile_width as int, tilemap.tile_height as int)
            },
        decreases tilemap.layers@.len() - k,
    {
        let l = &tilemap.layers[k];
        match remodel_tiles(&l.tiles, tilemap.tileswide, tilemap.tileshigh, tilemap.tile_width, tilemap.tile_height) {
            Ok(tiles) => {
                layers.push(Layers { number: l.number, tiles, name: l.name.clone() });
            },
            Err(i) => {
                let f = Fault::Tile { layer: k, index: i };
                proof {
                    let m = *tilemap;
                    assert(pyxel_layer_ok(m, m.layers@[k as int].tiles@.subrange(0, i as int))) by {
                        let s = m.layers@[k as int].tiles@.subrange(0, i as int);
                        assert forall|j: int| 0 <= j < s.len() implies pyxel_entry_ok(
                            #[trigger] s[j],
                            m.tileswide as int,
                            m.tileshigh as int,
                            m.tile_width as int,
                            m.tile_height as int,
                        ) by {
                            assert(s[j] == m.layers@[k as int].tiles@[j]);
                        }
                    }
                    assert(pyxel_fault_at(m, f));
                }
                return Err(DecodeError::new(DocumentKind::PyxelEdit, f));
            },
        }
        k = k + 1;
    }
    let ghost before = *tilemap;
    tilemap.layers = layers;
    proof {
        assert forall|k: int, j: int|
            0 <= k < tilemap.layers@.len() && 0 <= j < tilemap.layers@[k].tiles@.len() implies pyxel_placed(
                #[trigger] tilemap.layers@[k].tiles@[j],
                tilemap.tile_width as int,
                tilemap.tile_height as int,
            ) by {
            let src = before.layers@[k].tiles@;
            assert(pyxel_layer_ok(before, src));
            lemma_pyxel_positions(src, before.tileswide as int, before.tileshigh as int, before.tile_width as int, before.tile_height as int);
        }
    }
    Ok(())
}

} // verus!
