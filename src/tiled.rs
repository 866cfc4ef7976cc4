//! Tiled maps: every cell is a packed global id whose three high bits flip
//! the sprite horizontally, vertically and along its diagonal.
use vstd::prelude::*;
use vstd::utf8::encode_utf8;
use crate::error::{DecodeError, DocumentKind, Fault};
use crate::text::{contains, parse_cells, spec_contains, spec_parse_cells};
use crate::tile::{anchor_of, Orientation, Rotation, Tile};

verus! {

/// The three orientation bits of a packed global id.
pub const ALL_FLIP_FLAGS: u32 = 0xE000_0000;

/// The bits of a packed global id that are left for the tile index.
pub const GID_MASK: u32 = 0x1FFF_FFFF;

/// The orientation bits of `v`, shifted down to the even values 0 to 14.
pub open spec fn gid_flags(v: u32) -> u32 {
    (v & ALL_FLIP_FLAGS) >> 28u32
}

/// The tile index held by `v` once its orientation bits are cleared.
pub open spec fn gid_index(v: u32) -> u32 {
    v & GID_MASK
}

/// Orientation for each value of the orientation bits: 8 is a horizontal,
/// 4 a vertical and 2 a diagonal flip, and a sum of them combines them.
pub open spec fn spec_tiled_orientation(flags: u32) -> Orientation {
    if flags == 2 {
        Orientation { rotation: Rotation::Quarter, scale_x: 1, scale_y: -1i8, shift_x: false, shift_y: false }
    } else if flags == 4 {
        Orientation { rotation: Rotation::Zero, scale_x: 1, scale_y: -1i8, shift_x: false, shift_y: true }
    } else if flags == 6 {
        Orientation { rotation: Rotation::ThreeQuarters, scale_x: 1, scale_y: 1, shift_x: false, shift_y: true }
    } else if flags == 8 {
        Orientation { rotation: Rotation::Zero, scale_x: -1i8, scale_y: 1, shift_x: true, shift_y: false }
    } else if flags == 10 {
        Orientation { rotation: Rotation::Quarter, scale_x: 1, scale_y: 1, shift_x: true, shift_y: false }
    } else if flags == 12 {
        Orientation { rotation: Rotation::Half, scale_x: 1, scale_y: 1, shift_x: true, shift_y: true }
    } else if flags == 14 {
        Orientation { rotation: Rotation::Quarter, scale_x: -1i8, scale_y: 1, shift_x: true, shift_y: true }
    } else {
        Orientation { rotation: Rotation::Zero, scale_x: 1, scale_y: 1, shift_x: false, shift_y: false }
    }
}

pub fn tiled_orientation(flags: u32) -> (o: Orientation)
    ensures
        o == spec_tiled_orientation(flags),
{
    if flags == 2 {
        Orientation { rotation: Rotation::Quarter, scale_x: 1, scale_y: -1, shift_x: false, shift_y: false }
    } else if flags == 4 {
        Orientation { rotation: Rotation::Zero, scale_x: 1, scale_y: -1, shift_x: false, shift_y: true }
    } else if flags == 6 {
        Orientation { rotation: Rotation::ThreeQuarters, scale_x: 1, scale_y: 1, shift_x: false, shift_y: true }
    } else if flags == 8 {
        Orientation { rotation: Rotation::Zero, scale_x: -1, scale_y: 1, shift_x: true, shift_y: false }
    } else if flags == 10 {
        Orientation { rotation: Rotation::Quarter, scale_x: 1, scale_y: 1, shift_x: true, shift_y: false }
    } else if flags == 12 {
        Orientation { rotation: Rotation::Half, scale_x: 1, scale_y: 1, shift_x: true, shift_y: true }
    } else if flags == 14 {
        Orientation { rotation: Rotation::Quarter, scale_x: -1, scale_y: 1, shift_x: true, shift_y: true }
    } else {
        Orientation { rotation: Rotation::Zero, scale_x: 1, scale_y: 1, shift_x: false, shift_y: false }
    }
}

/// Splits a packed global id into the atlas id (its index less the
/// tileset's first global id) and its orientation bits; nothing when the
/// index lies below the first global id.
pub fn decode_gid(v: u32, firstgid: u32) -> (r: Option<(u32, u32)>)
    ensures
        r is Some == (gid_index(v) >= firstgid),
        r is Some ==> r.unwrap() == ((gid_index(v) - firstgid) as u32, gid_flags(v)),
{
    let index: u32 = v & GID_MASK;
    let flags: u32 = (v & ALL_FLIP_FLAGS) >> 28;
    if index >= firstgid {
        Some((index - firstgid, flags))
    } else {
        None
    }
}

/// The packed global id of atlas id `id` with orientation bits `flags`.
pub open spec fn spec_encode_gid(id: u32, flags: u32, firstgid: u32) -> u32 {
    ((id + firstgid) as u32) | (flags << 28u32)
}

pub fn encode_gid(id: u32, flags: u32, firstgid: u32) -> (r: u32)
    requires
        id + firstgid <= GID_MASK,
    ensures
        r == spec_encode_gid(id, flags, firstgid),
{
    (id + firstgid) | (flags << 28)
}

/// Decoding a packed global id and encoding the parts again gives the same
/// value back: the same orientation bits, and an atlas id that with the
/// first global id added is the cell's index.
pub proof fn lemma_gid_round_trip(v: u32, firstgid: u32)
    requires
        gid_index(v) >= firstgid,
    ensures
        ((gid_index(v) - firstgid) + firstgid) == gid_index(v),
        gid_flags(spec_encode_gid((gid_index(v) - firstgid) as u32, gid_flags(v), firstgid)) == gid_flags(
            v,
        ),
        spec_encode_gid((gid_index(v) - firstgid) as u32, gid_flags(v), firstgid) == v,
{
    let id = (gid_index(v) - firstgid) as u32;
    assert((id + firstgid) as u32 == v & 0x1FFF_FFFFu32);
    assert(((v & 0x1FFF_FFFFu32) | (((v & 0xE000_0000u32) >> 28u32) << 28u32)) == v) by (bit_vector);
}

/// Whether `v` fits in an `i64`.
pub open spec fn fits_i64(v: int) -> bool {
    i64::MIN <= v <= i64::MAX
}

/// The tile that cell `i` holding packed global id `v` becomes, on a layer
/// whose rows are `width` cells long.
pub open spec fn spec_tiled_tile(i: int, v: u32, width: int, tile_width: int, tile_height: int, firstgid: u32) -> Tile {
    let o = spec_tiled_orientation(gid_flags(v));
    let x = i % width;
    let y = i / width;
    Tile {
        id: (gid_index(v) - firstgid) as u32,
        x: x as i64,
        y: y as i64,
        position_x: anchor_of(x, tile_width, o.shift_x) as i64,
        position_y: anchor_of(y, tile_height, o.shift_y) as i64,
        rotation: o.rotation,
        scale_x: o.scale_x,
        scale_y: o.scale_y,
    }
}

/// Whether cell `i` holding `v` is empty or can be placed: its index is not
/// below the first global id and its pixel anchor fits in an `i64`.
pub open spec fn tiled_cell_ok(i: int, v: u32, width: int, tile_width: int, tile_height: int, firstgid: u32) -> bool {
    let o = spec_tiled_orientation(gid_flags(v));
    gid_index(v) == 0 || (gid_index(v) >= firstgid && fits_i64(anchor_of(i % width, tile_width, o.shift_x))
        && fits_i64(anchor_of(i / width, tile_height, o.shift_y)))
}

/// The tiles of a layer's cells, in cell order; a cell whose index is 0 is
/// empty and gives no tile.
pub open spec fn spec_tiled_tiles(cells: Seq<u32>, width: int, tile_width: int, tile_height: int, firstgid: u32) -> Seq<Tile>
    decreases cells.len(),
{
    if cells.len() == 0 {
        seq![]
    } else {
        let i = cells.len() - 1;
        let prev = spec_tiled_tiles(cells.drop_last(), width, tile_width, tile_height, firstgid);
        if gid_index(cells[i]) == 0 {
            prev
        } else {
            prev.push(spec_tiled_tile(i, cells[i], width, tile_width, tile_height, firstgid))
        }
    }
}

/// Whether `t` sits where the orientation bits `flags` put a tile of grid
/// cell `(t.x, t.y)`: turned and mirrored as the table says, its anchor the
/// cell's corner plus the table's shift.
pub open spec fn tiled_placed(t: Tile, flags: u32, tile_width: int, tile_height: int) -> bool {
    let o = spec_tiled_orientation(flags);
    &&& t.has_orientation(o)
    &&& t.position_x == anchor_of(t.x as int, tile_width, o.shift_x)
    &&& t.position_y == anchor_of(t.y as int, tile_height, o.shift_y)
}

/// Whether `t` is the tile of cell `t.y * width + t.x` of `cells`: that
/// cell is not empty, its index is the tile's id plus the first global id,
/// encoding the id with the cell's orientation bits gives the cell back, and
/// the tile sits where those bits put it.
pub open spec fn tile_from_cell(t: Tile, cells: Seq<u32>, width: int, tile_width: int, tile_height: int, firstgid: u32) -> bool {
    let i = t.y * width + t.x;
    &&& 0 <= t.x < width
    &&& 0 <= t.y
    &&& 0 <= i < cells.len()
    &&& gid_index(cells[i]) != 0
    &&& t.id + firstgid == gid_index(cells[i])
    &&& spec_encode_gid(t.id, gid_flags(cells[i]), firstgid) == cells[i]
    &&& tiled_placed(t, gid_flags(cells[i]), tile_width, tile_height)
}

/// Every tile decoded from a Tiled layer comes from the cell at its grid
/// coordinate: it keeps that cell's id less the first global id and that
/// cell's orientation bits, and is anchored at its grid coordinate times the
/// cell size plus the shift that the bits call for.
pub proof fn lemma_tiled_tiles_from_cells(cells: Seq<u32>, width: int, tile_width: int, tile_height: int, firstgid: u32)
    requires
        width > 0,
        tile_width > 0,
        tile_height > 0,
        cells_ok(cells, width, tile_width, tile_height, firstgid),
    ensures
        forall|k: int|
            0 <= k < spec_tiled_tiles(cells, width, tile_width, tile_height, firstgid).len() ==> tile_from_cell(
                #[trigger] spec_tiled_tiles(cells, width, tile_width, tile_height, firstgid)[k],
                cells,
                width,
                tile_width,
                tile_height,
                firstgid,
            ),
    decreases cells.len(),
{
    if cells.len() > 0 {
        let i = cells.len() - 1;
        let d = cells.drop_last();
        let prev = spec_tiled_tiles(d, width, tile_width, tile_height, firstgid);
        let all = spec_tiled_tiles(cells, width, tile_width, tile_height, firstgid);
        assert forall|i2: int| 0 <= i2 < d.len() implies tiled_cell_ok(
            i2,
            #[trigger] d[i2],
            width,
            tile_width,
            tile_height,
            firstgid,
        ) by {
            assert(d[i2] == cells[i2]);
        }
        lemma_tiled_tiles_from_cells(d, width, tile_width, tile_height, firstgid);
        assert forall|k: int| 0 <= k < all.len() implies tile_from_cell(
            #[trigger] all[k],
            cells,
            width,
            tile_width,
            tile_height,
            firstgid,
        ) by {
            if k < prev.len() {
                assert(all[k] == prev[k]);
                let t = prev[k];
                assert(tile_from_cell(t, d, width, tile_width, tile_height, firstgid));
                assert(d[t.y * width + t.x] == cells[t.y * width + t.x]);
            } else {
                let v = cells[i];
                assert(tiled_cell_ok(i, v, width, tile_width, tile_height, firstgid));
                let x = i % width;
                let y = i / width;
                vstd::arithmetic::div_mod::lemma_fundamental_div_mod(i, width);
                assert(y * width + x == i) by (nonlinear_arith)
                    requires
                        i == width * (i / width) + i % width,
                        x == i % width,
                        y == i / width,
                ;
                assert(0 <= x < width);
                assert(0 <= y);
                assert(x <= x * tile_width) by (nonlinear_arith)
                    requires
                        0 <= x,
                        1 <= tile_width,
                ;
                assert(y <= y * tile_height) by (nonlinear_arith)
                    requires
                        0 <= y,
                        1 <= tile_height,
                ;
                assert(all[k] == spec_tiled_tile(i, v, width, tile_width, tile_height, firstgid));
                lemma_gid_round_trip(v, firstgid);
                assert(tile_from_cell(all[k], cells, width, tile_width, tile_height, firstgid));
            }
        }
    } else {
        assert(spec_tiled_tiles(cells, width, tile_width, tile_height, firstgid).len() == 0);
    }
}

/// Turns a layer's cells into tiles. Fails with the position of the first
/// cell that cannot be placed.
pub fn creates_tiles(nums: &[u32], width: i64, tile_width: i64, tile_height: i64, firstgid: u32) -> (r: Result<Vec<Tile>, usize>)
    requires
        width > 0,
        tile_width > 0,
        tile_height > 0,
    ensures
        r is Ok == (forall|i: int|
            0 <= i < nums@.len() ==> tiled_cell_ok(i, #[trigger] nums@[i], width as int, tile_width as int, tile_height as int, firstgid)),
        r is Ok ==> r.unwrap()@ == spec_tiled_tiles(nums@, width as int, tile_width as int, tile_height as int, firstgid),
        r is Ok ==> forall|k: int|
            0 <= k < r.unwrap()@.len() ==> tile_from_cell(
                #[trigger] r.unwrap()@[k],
                nums@,
                width as int,
                tile_width as int,
                tile_height as int,
                firstgid,
            ),
        r is Err ==> {
            let i = r.unwrap_err() as int;
            &&& 0 <= i < nums@.len()
            &&& !tiled_cell_ok(i, nums@[i], width as int, tile_width as int, tile_height as int, firstgid)
            &&& forall|j: int|
                0 <= j < i ==> tiled_cell_ok(j, #[trigger] nums@[j], width as int, tile_width as int, tile_height as int, firstgid)
        },
{
    let mut tiles: Vec<Tile> = Vec::new();
    let mut i: usize = 0;
    while i < nums.len()
        invariant
            0 <= i <= nums@.len(),
            width > 0,
            tile_width > 0,
            tile_height > 0,
            tiles@ == spec_tiled_tiles(nums@.subrange(0, i as int), width as int, tile_width as int, tile_height as int, firstgid),
            forall|j: int|
                0 <= j < i ==> tiled_cell_ok(j, #[trigger] nums@[j], width as int, tile_width as int, tile_height as int, firstgid),
        decreases nums@.len() - i,
    {
        let v: u32 = nums[i];
        proof {
            assert(nums@.subrange(0, i + 1).drop_last() =~= nums@.subrange(0, i as int));
            assert(nums@.subrange(0, i + 1)[i as int] == v);
        }
        let index: u32 = v & GID_MASK;
        if index != 0 {
            if index < firstgid {
                return Err(i);
            }
            let flags: u32 = (v & ALL_FLIP_FLAGS) >> 28;
            let o = tiled_orientation(flags);
            let w: i128 = width as i128;
            let ii: i128 = i as i128;
            let x: i128 = ii % w;
            let y: i128 = ii / w;
            let tw: i128 = tile_width as i128;
            let th: i128 = tile_height as i128;
            proof {
                assert(0 <= x < w);
                assert(0 <= y <= ii);
                assert(x * tw < 0x4000_0000_0000_0000_0000_0000_0000_0000) by (nonlinear_arith)
                    requires
                        0 <= x < w,
                        w <= 0x7fff_ffff_ffff_ffff,
                        0 < tw <= 0x7fff_ffff_ffff_ffff,
                ;
                assert(y * th < 0x7fff_ffff_ffff_ffff_0000_0000_0000_0000) by (nonlinear_arith)
                    requires
                        0 <= y <= 0xffff_ffff_ffff_ffff,
                        0 < th <= 0x7fff_ffff_ffff_ffff,
                ;
                assert(0 <= x * tw) by (nonlinear_arith)
                    requires
                        0 <= x,
                        0 < tw,
                ;
                assert(0 <= y * th) by (nonlinear_arith)
                    requires
                        0 <= y,
                        0 < th,
                ;
            }
            let px: i128 = x * tw + if o.shift_x {
                tw
            } else {
                0
            };
            let py: i128 = y * th + if o.shift_y {
                th
            } else {
                0
            };
            if px > i64::MAX as i128 || py > i64::MAX as i128 {
                return Err(i);
            }
            proof {
                assert(y <= py) by (nonlinear_arith)
                    requires
                        0 <= y,
                        1 <= th,
                        py >= y * th,
                ;
            }
            let t = Tile {
                id: index - firstgid,
                x: x as i64,
                y: y as i64,
                position_x: px as i64,
                position_y: py as i64,
                rotation: o.rotation,
                scale_x: o.scale_x,
                scale_y: o.scale_y,
            };
            tiles.push(t);
        }
        i = i + 1;
    }
    proof {
        assert(nums@.subrange(0, nums@.len() as int) =~= nums@);
        lemma_tiled_tiles_from_cells(nums@, width as int, tile_width as int, tile_height as int, firstgid);
    }
    Ok(tiles)
}

/// A tileset reference of a Tiled document.
#[derive(Debug)]
pub struct Tileset {
    pub firstgid: u32,
    pub source: String,
}

/// The cell data of a layer of a Tiled XML document.
#[derive(Debug)]
pub struct Data {
    pub encoding: String,
    pub tile_data: String,
}

/// A layer of a Tiled XML document.
#[derive(Debug)]
pub struct TmxLayer {
    pub id: i32,
    pub name: String,
    pub width: i64,
    pub height: i64,
    pub data: Data,
    pub tiles: Vec<Tile>,
}

/// A Tiled document in its XML form.
#[derive(Debug)]
pub struct TmxTilemap {
    pub version: String,
    pub tiledversion: String,
    pub orientation: String,
    pub renderorder: String,
    pub width: i32,
    pub height: i32,
    pub tile_width: i64,
    pub tile_height: i64,
    pub tilesets: Vec<Tileset>,
    pub layers: Vec<TmxLayer>,
}

/// A layer of a Tiled JSON document; only those whose type names a tile
/// layer hold cells.
#[derive(Debug)]
pub struct JsonLayer {
    pub id: i32,
    pub name: String,
    pub layer_type: String,
    pub width: i64,
    pub height: i64,
    pub data: Vec<u32>,
}

/// A Tiled document in its JSON form.
#[derive(Debug)]
pub struct JsonTilemap {
    pub tiledversion: String,
    pub orientation: String,
    pub renderorder: String,
    pub width: i32,
    pub height: i32,
    pub tile_width: i64,
    pub tile_height: i64,
    pub tilesets: Vec<Tileset>,
    pub layers: Vec<JsonLayer>,
}

/// A decoded layer: its tiles in cell order.
#[derive(Debug)]
pub struct Layer {
    pub id: i32,
    pub name: String,
    pub width: i64,
    pub height: i64,
    pub tiles: Vec<Tile>,
}

/// A decoded Tiled map: its size in cells, its cell size in pixels and its
/// layers, first drawn first.
#[derive(Debug)]
pub struct TiledTilemap {
    pub document: DocumentKind,
    pub tilewidth: usize,
    pub tileheight: usize,
    pub tile_height: i64,
    pub tile_width: i64,
    pub layers: Vec<Layer>,
}

pub fn default_i64() -> (r: i64)
    ensures
        r == 0,
{
    0
}

pub fn default_u32() -> (r: u32)
    ensures
        r == 0,
{
    0
}

pub fn default_vec<T>() -> (r: Vec<T>)
    ensures
        r@.len() == 0,
{
    Vec::new()
}

pub fn default_string() -> (r: String)
    ensures
        r@.len() == 0,
{
    String::new()
}

pub fn default_data() -> (r: Vec<u32>)
    ensures
        r@.len() == 0,
{
    Vec::new()
}

/// Whether `data` is a Tiled document in XML form rather than JSON.
pub fn is_tmx(data: &str) -> (r: bool)
    ensures
        r == spec_contains(encode_utf8(data@), encode_utf8("<?xml"@)),
{
    contains(data, "<?xml")
}

/// The first fault of a Tiled document's header, if any: no tileset, a
/// cell size that is not positive, or a negative map size.
pub open spec fn header_fault(tilesets: nat, width: i32, height: i32, tile_width: i64, tile_height: i64) -> Option<Fault> {
    if tilesets == 0 {
        Some(Fault::MissingTileset)
    } else if tile_width <= 0 || tile_height <= 0 {
        Some(Fault::TileSize)
    } else if width < 0 || height < 0 {
        Some(Fault::GridSize)
    } else {
        None
    }
}

/// Whether cell `i` is the first that cannot be placed.
pub open spec fn first_bad_cell(cells: Seq<u32>, i: int, width: int, tile_width: int, tile_height: int, firstgid: u32) -> bool {
    &&& 0 <= i < cells.len()
    &&& !tiled_cell_ok(i, cells[i], width, tile_width, tile_height, firstgid)
    &&& forall|j: int| 0 <= j < i ==> tiled_cell_ok(j, #[trigger] cells[j], width, tile_width, tile_height, firstgid)
}

/// Whether every cell of a layer can be placed.
pub open spec fn cells_ok(cells: Seq<u32>, width: int, tile_width: int, tile_height: int, firstgid: u32) -> bool {
    forall|i: int| 0 <= i < cells.len() ==> tiled_cell_ok(i, #[trigger] cells[i], width, tile_width, tile_height, firstgid)
}

/// Whether a layer with cells `cells` (nothing: unreadable) and row width
/// `width` decodes.
pub open spec fn layer_ok(cells: Option<Seq<u32>>, width: i64, tile_width: int, tile_height: int, firstgid: u32) -> bool {
    cells is Some && width > 0 && cells_ok(cells.unwrap(), width as int, tile_width, tile_height, firstgid)
}

/// Whether `f` is the fault of layer number `k` with cells `cells` (nothing:
/// unreadable) and row width `width`: unreadable cells first, then the row
/// width, then the first cell that cannot be placed.
pub open spec fn layer_fault_is(
    f: Fault,
    k: int,
    cells: Option<Seq<u32>>,
    width: i64,
    tile_width: int,
    tile_height: int,
    firstgid: u32,
) -> bool {
    match cells {
        None => f == Fault::CellData { layer: k as usize },
        Some(c) => if width <= 0 {
            f == Fault::LayerWidth { layer: k as usize }
        } else {
            match f {
                Fault::Tile { layer, index } => layer == k && first_bad_cell(
                    c,
                    index as int,
                    width as int,
                    tile_width,
                    tile_height,
                    firstgid,
                ),
                _ => false,
            }
        },
    }
}

/// The cells of an XML layer, read from its text.
pub open spec fn tmx_cells(l: TmxLayer) -> Option<Seq<u32>> {
    spec_parse_cells(encode_utf8(l.data.tile_data@))
}

/// Whether `out` is layer `l` decoded.
pub open spec fn decoded_layer(out: Layer, id: i32, name: Seq<char>, width: i64, height: i64, cells: Seq<u32>, tile_width: int, tile_height: int, firstgid: u32) -> bool {
    &&& out.id == id
    &&& out.name@ == name
    &&& out.width == width
    &&& out.height == height
    &&& out.tiles@ == spec_tiled_tiles(cells, width as int, tile_width, tile_height, firstgid)
}

/// Decodes one layer's cells, or gives the layer's fault.
fn decode_layer(cells: &[u32], width: i64, tile_width: i64, tile_height: i64, firstgid: u32, k: usize) -> (r: Result<Vec<Tile>, Fault>)
    requires
        tile_width > 0,
        tile_height > 0,
    ensures
        r is Ok == layer_ok(Some(cells@), width, tile_width as int, tile_height as int, firstgid),
        r is Ok ==> r.unwrap()@ == spec_tiled_tiles(cells@, width as int, tile_width as int, tile_height as int, firstgid),
        r is Err ==> layer_fault_is(r.unwrap_err(), k as int, Some(cells@), width, tile_width as int, tile_height as int, firstgid),
{
    if width <= 0 {
        return Err(Fault::LayerWidth { layer: k });
    }
    match creates_tiles(cells, width, tile_width, tile_height, firstgid) {
        Ok(tiles) => Ok(tiles),
        Err(i) => Err(Fault::Tile { layer: k, index: i }),
    }
}

/// Whether `f` is the fault of layer `k` of `m`, all layers before it
/// decoding.
pub open spec fn tmx_fault_at(m: TmxTilemap, f: Fault, k: int) -> bool {
    &&& 0 <= k < m.layers@.len()
    &&& forall|j: int| 0 <= j < k ==> layer_ok(
        tmx_cells(#[trigger] m.layers@[j]),
        m.layers@[j].width,
        m.tile_width as int,
        m.tile_height as int,
        m.tilesets@[0].firstgid,
    )
    &&& layer_fault_is(
        f,
        k,
        tmx_cells(m.layers@[k]),
        m.layers@[k].width,
        m.tile_width as int,
        m.tile_height as int,
        m.tilesets@[0].firstgid,
    )
}

/// Decodes a Tiled document in XML form: each layer's cell text is read as
/// numbers and turned into tiles, layers kept in document order.
pub fn remodel_tmx(tilemap: &TmxTilemap) -> (r: Result<TiledTilemap, DecodeError>)
    ensures
        r is Ok == (header_fault(tilemap.tilesets@.len(), tilemap.width, tilemap.height, tilemap.tile_width, tilemap.tile_height) is None
            && forall|k: int| 0 <= k < tilemap.layers@.len() ==> layer_ok(
                tmx_cells(#[trigger] tilemap.layers@[k]),
                tilemap.layers@[k].width,
                tilemap.tile_width as int,
                tilemap.tile_height as int,
                tilemap.tilesets@[0].firstgid,
            )),
        r is Ok ==> {
            let m = r.unwrap();
            &&& m.document == DocumentKind::TiledXml
            &&& m.tilewidth == tilemap.width as usize
            &&& m.tileheight == tilemap.height as usize
            &&& m.tile_width == tilemap.tile_width
            &&& m.tile_height == tilemap.tile_height
            &&& m.layers@.len() == tilemap.layers@.len()
            &&& forall|k: int| 0 <= k < m.layers@.len() ==> {
                let l = #[trigger] tilemap.layers@[k];
                decoded_layer(m.layers@[k], l.id, l.name@, l.width, l.height, tmx_cells(l).unwrap(), tilemap.tile_width as int, tilemap.tile_height as int, tilemap.tilesets@[0].firstgid)
            }
        },
        r is Err ==> {
            let e = r.unwrap_err();
            let h = header_fault(tilemap.tilesets@.len(), tilemap.width, tilemap.height, tilemap.tile_width, tilemap.tile_height);
            &&& e.document == DocumentKind::TiledXml
            &&& h is Some ==> e.fault == h.unwrap()
            &&& h is None ==> exists|k: int| tmx_fault_at(*tilemap, e.fault, k)
        },
{
    if tilemap.tilesets.len() == 0 {
        return Err(DecodeError::new(DocumentKind::TiledXml, Fault::MissingTileset));
    }
    if tilemap.tile_width <= 0 || tilemap.tile_height <= 0 {
        return Err(DecodeError::new(DocumentKind::TiledXml, Fault::TileSize));
    }
    if tilemap.width < 0 || tilemap.height < 0 {
        return Err(DecodeError::new(DocumentKind::TiledXml, Fault::GridSize));
    }
    let tile_width = tilemap.tile_width;
    let tile_height = tilemap.tile_height;
    let firstgid = tilemap.tilesets[0].firstgid;
    let mut layers: Vec<Layer> = Vec::new();
    let mut k: usize = 0;
    while k < tilemap.layers.len()
        invariant
            0 <= k <= tilemap.layers@.len(),
            tilemap.tilesets@.len() > 0,
            header_fault(tilemap.tilesets@.len(), tilemap.width, tilemap.height, tilemap.tile_width, tilemap.tile_height) is None,
            firstgid == tilemap.tilesets@[0].firstgid,
            tile_width == tilemap.tile_width,
            tile_height == tilemap.tile_height,
            tile_width > 0,
            tile_height > 0,
            layers@.len() == k,
            forall|j: int| 0 <= j < k ==> layer_ok(
                tmx_cells(#[trigger] tilemap.layers@[j]),
                tilemap.layers@[j].width,
                tile_width as int,
                tile_height as int,
                firstgid,
            ),
            forall|j: int| 0 <= j < k ==> {
                let l = #[trigger] tilemap.layers@[j];
                decoded_layer(layers@[j], l.id, l.name@, l.width, l.height, tmx_cells(l).unwrap(), tile_width as int, tile_height as int, firstgid)
            },
        decreases tilemap.layers@.len() - k,
    {
        let l = &tilemap.layers[k];
        let nums = match parse_cells(l.data.tile_data.as_str()) {
            Some(nums) => nums,
            None => {
                proof {
                    assert(tmx_cells(tilemap.layers@[k as int]) is None);
                    assert(layer_fault_is(
                        Fault::CellData { layer: k },
                        k as int,
                        tmx_cells(tilemap.layers@[k as int]),
                        tilemap.layers@[k as int].width,
                        tile_width as int,
                        tile_height as int,
                        firstgid,
                    ));
                    assert(tmx_fault_at(*tilemap, Fault::CellData { layer: k }, k as int));
                }
                return Err(DecodeError::new(DocumentKind::TiledXml, Fault::CellData { layer: k }));
            },
        };
        let tiles = match decode_layer(nums.as_slice(), l.width, tile_width, tile_height, firstgid, k) {
            Ok(tiles) => tiles,
            Err(f) => {
                proof {
                    assert(tmx_cells(tilemap.layers@[k as int]) == Some(nums@));
                    assert(layer_fault_is(
                        f,
                        k as int,
                        tmx_cells(tilemap.layers@[k as int]),
                        tilemap.layers@[k as int].width,
                        tile_width as int,
                        tile_height as int,
                        firstgid,
                    ));
                    assert(tmx_fault_at(*tilemap, f, k as int));
                }
                return Err(DecodeError::new(DocumentKind::TiledXml, f));
            },
        };
        layers.push(Layer { id: l.id, name: l.name.clone(), width: l.width, height: l.height, tiles });
        k = k + 1;
    }
    Ok(
        TiledTilemap {
            document: DocumentKind::TiledXml,
            tileheight: tilemap.height as usize,
            tilewidth: tilemap.width as usize,
            tile_height,
            tile_width,
            layers,
        },
    )
}

/// Whether a JSON layer holds cells: its type names a tile layer.
pub open spec fn is_tile_layer(l: JsonLayer) -> bool {
    spec_contains(encode_utf8(l.layer_type@), encode_utf8("tilelayer"@))
}

/// The positions of the tile layers among `layers`, in order.
pub open spec fn tile_layer_indices(layers: Seq<JsonLayer>) -> Seq<int>
    decreases layers.len(),
{
    if layers.len() == 0 {
        seq![]
    } else {
        let prev = tile_layer_indices(layers.drop_last());
        if is_tile_layer(layers.last()) {
            prev.push(layers.len() - 1)
        } else {
            prev
        }
    }
}

/// Whether JSON layer `l` decodes, or holds no cells at all.
pub open spec fn json_layer_ok(m: JsonTilemap, l: JsonLayer) -> bool {
    is_tile_layer(l) ==> layer_ok(Some(l.data@), l.width, m.tile_width as int, m.tile_height as int, m.tilesets@[0].firstgid)
}

/// Whether `f` is the fault of layer `k` of `m`, all layers before it
/// decoding.
pub open spec fn json_fault_at(m: JsonTilemap, f: Fault, k: int) -> bool {
    &&& 0 <= k < m.layers@.len()
    &&& is_tile_layer(m.layers@[k])
    &&& forall|j: int| 0 <= j < k ==> json_layer_ok(m, #[trigger] m.layers@[j])
    &&& layer_fault_is(
        f,
        k,
        Some(m.layers@[k].data@),
        m.layers@[k].width,
        m.tile_width as int,
        m.tile_height as int,
        m.tilesets@[0].firstgid,
    )
}

/// Decodes a Tiled document in JSON form: the tile layers' cells are turned
/// into tiles, layers of other types left out, layers kept in document order.
pub fn remodel_json(tilemap: &JsonTilemap) -> (r: Result<TiledTilemap, DecodeError>)
    ensures
        r is Ok == (header_fault(tilemap.tilesets@.len(), tilemap.width, tilemap.height, tilemap.tile_width, tilemap.tile_height) is None
            && forall|k: int| 0 <= k < tilemap.layers@.len() ==> json_layer_ok(*tilemap, #[trigger] tilemap.layers@[k])),
        r is Ok ==> {
            let m = r.unwrap();
            let idx = tile_layer_indices(tilemap.layers@);
            &&& m.document == DocumentKind::TiledJson
            &&& m.tilewidth == tilemap.width as usize
            &&& m.tileheight == tilemap.height as usize
            &&& m.tile_width == tilemap.tile_width
            &&& m.tile_height == tilemap.tile_height
            &&& m.layers@.len() == idx.len()
            &&& forall|j: int| 0 <= j < m.layers@.len() ==> {
                let l = tilemap.layers@[#[trigger] idx[j]];
                decoded_layer(m.layers@[j], l.id, l.name@, l.width, l.height, l.data@, tilemap.tile_width as int, tilemap.tile_height as int, tilemap.tilesets@[0].firstgid)
            }
        },
        r is Err ==> {
            let e = r.unwrap_err();
            let h = header_fault(tilemap.tilesets@.len(), tilemap.width, tilemap.height, tilemap.tile_width, tilemap.tile_height);
            &&& e.document == DocumentKind::TiledJson
            &&& h is Some ==> e.fault == h.unwrap()
            &&& h is None ==> exists|k: int| json_fault_at(*tilemap, e.fault, k)
        },
{
    if tilemap.tilesets.len() == 0 {
        return Err(DecodeError::new(DocumentKind::TiledJson, Fault::MissingTileset));
    }
    if tilemap.tile_width <= 0 || tilemap.tile_height <= 0 {
        return Err(DecodeError::new(DocumentKind::TiledJson, Fault::TileSize));
    }
    if tilemap.width < 0 || tilemap.height < 0 {
        return Err(DecodeError::new(DocumentKind::TiledJson, Fault::GridSize));
    }
    let tile_width = tilemap.tile_width;
    let tile_height = tilemap.tile_height;
    let firstgid = tilemap.tilesets[0].firstgid;
    let mut layers: Vec<Layer> = Vec::new();
    let mut k: usize = 0;
    proof {
        assert(tilemap.layers@.subrange(0, 0) =~= Seq::<JsonLayer>::empty());
    }
    while k < tilemap.layers.len()
        invariant
            0 <= k <= tilemap.layers@.len(),
            tilemap.tilesets@.len() > 0,
            header_fault(tilemap.tilesets@.len(), tilemap.width, tilemap.height, tilemap.tile_width, tilemap.tile_height) is None,
            firstgid == tilemap.tilesets@[0].firstgid,
            tile_width == tilemap.tile_width,
            tile_height == tilemap.tile_height,
            tile_width > 0,
            tile_height > 0,
            forall|j: int| 0 <= j < k ==> json_layer_ok(*tilemap, #[trigger] tilemap.layers@[j]),
            ({
                let idx = tile_layer_indices(tilemap.layers@.subrange(0, k as int));
                &&& layers@.len() == idx.len()
                &&& forall|j: int| 0 <= j < idx.len() ==> 0 <= #[trigger] idx[j] < k
                &&& forall|j: int| 0 <= j < layers@.len() ==> {
                    let l = tilemap.layers@[#[trigger] idx[j]];
                    decoded_layer(layers@[j], l.id, l.name@, l.width, l.height, l.data@, tile_width as int, tile_height as int, firstgid)
                }
            }),
        decreases tilemap.layers@.len() - k,
    {
        let l = &tilemap.layers[k];
        let ghost pre = tilemap.layers@.subrange(0, k as int);
        let ghost next = tilemap.layers@.subrange(0, k + 1);
        proof {
            assert(next.drop_last() =~= pre);
            assert(next.last() == *l);
        }
        if contains(l.layer_type.as_str(), "tilelayer") {
            let tiles = match decode_layer(l.data.as_slice(), l.width, tile_width, tile_height, firstgid, k) {
                Ok(tiles) => tiles,
                Err(f) => {
                    proof {
                        assert(json_fault_at(*tilemap, f, k as int));
                    }
                    return Err(DecodeError::new(DocumentKind::TiledJson, f));
                },
            };
            layers.push(Layer { id: l.id, name: l.name.clone(), width: l.width, height: l.height, tiles });
            proof {
                let idx = tile_layer_indices(next);
                assert(idx == tile_layer_indices(pre).push(k as int));
                assert forall|j: int| 0 <= j < layers@.len() implies {
                    let l2 = tilemap.layers@[#[trigger] idx[j]];
                    decoded_layer(layers@[j], l2.id, l2.name@, l2.width, l2.height, l2.data@, tile_width as int, tile_height as int, firstgid)
                } by {
                    if j < layers@.len() - 1 {
                        assert(idx[j] == tile_layer_indices(pre)[j]);
                    }
                }
            }
        } else {
            proof {
                assert(tile_layer_indices(next) == tile_layer_indices(pre));
            }
        }
        k = k + 1;
    }
    proof {
        assert(tilemap.layers@.subrange(0, k as int) =~= tilemap.layers@);
    }
    Ok(
        TiledTilemap {
            document: DocumentKind::TiledJson,
            tileheight: tilemap.height as usize,
            tilewidth: tilemap.width as usize,
            tile_height,
            tile_width,
            layers,
        },
    )
}

} // verus!
