//! The tilemap: layered grids of tiles sharing one cell size, the table of
//! atlas rectangles, the viewport, and the queries and edits on them.
use vstd::prelude::*;
use vstd::arithmetic::div_mod::lemma_fundamental_div_mod;
use crate::atlas::{atlas_fits, atlas_fits_check, atlas_table, get_tile_rectangles};
use crate::draw::{draw_list, layer_commands, spec_is_inside_viewport, DrawCommand};
use crate::error::{DecodeError, DocumentKind, Fault};
use crate::grid::{cell_at, cell_index, cells_after_set, lemma_cell_index_bounds, VecGrid};
use crate::pyxeledit::{
    pyxel_fault_at, pyxel_header_fault, pyxel_layer_ok, pyxel_tile_ok, remodel, spec_placed, spec_placed_tiles,
    PyxelTilemap,
};
use crate::tile::{Color, Rect, Tile};
use crate::tiled::TiledTilemap;
use crate::pyxeledit;

verus! {

/// What a layer holds: its cells in row-major order, its size, its name,
/// whether it is drawn and its tint.
pub struct LayerView {
    pub cells: Seq<Option<Tile>>,
    pub width: nat,
    pub height: nat,
    pub name: Seq<char>,
    pub visibility: bool,
    pub color: Color,
}

impl LayerView {
    pub open spec fn wf(&self) -> bool {
        &&& self.cells.len() == self.width * self.height
        &&& self.width * self.height <= usize::MAX
        &&& self.width <= usize::MAX
        &&& self.height <= usize::MAX
    }

    /// The occupant of `(x, y)`, or nothing outside the layer.
    pub open spec fn get(&self, x: int, y: int) -> Option<Tile> {
        cell_at(self.cells, self.width as int, self.height as int, x, y)
    }
}

/// A layer freshly added: no name, drawn, untinted.
pub open spec fn fresh_layer(cells: Seq<Option<Tile>>, width: nat, height: nat) -> LayerView {
    LayerView { cells, width, height, name: Seq::empty(), visibility: true, color: Color::spec_white() }
}

/// One paint-ordered plane of tiles.
#[derive(Debug)]
pub struct Layer {
    tiles: VecGrid<Tile>,
    name: String,
    visibility: bool,
    color: Color,
}

impl View for Layer {
    type V = LayerView;

    closed spec fn view(&self) -> LayerView {
        LayerView {
            cells: self.tiles.cells(),
            width: self.tiles.spec_width(),
            height: self.tiles.spec_height(),
            name: self.name@,
            visibility: self.visibility,
            color: self.color,
        }
    }
}

/// What a tilemap holds.
pub struct TilemapView {
    pub width: nat,
    pub height: nat,
    pub viewport: Rect,
    pub tile_width: int,
    pub tile_height: int,
    pub layers: Seq<LayerView>,
    pub rects: Seq<Rect>,
    pub layer_to_draw: Option<usize>,
}

/// The viewport that culls nothing.
pub open spec fn zero_rect() -> Rect {
    Rect { x: 0, y: 0, width: 0, height: 0 }
}

/// The id of the tile at `(x, y)` of layer `layer`; nothing when there is no
/// such layer or the cell is empty.
pub open spec fn id_at(v: TilemapView, layer: int, x: int, y: int) -> Option<u32> {
    if 0 <= layer < v.layers.len() {
        match v.layers[layer].get(x, y) {
            Some(t) => Some(t.id),
            None => None,
        }
    } else {
        None
    }
}

/// The grid cell along one axis that contains pixel `p`, for cells `size`
/// pixels long.
pub open spec fn cell_of(p: int, size: int) -> int {
    p / size
}

/// The tilemap: a grid size, a cell size, layers drawn first to last, the
/// atlas rectangle table, a viewport and a layer selector.
#[derive(Debug)]
pub struct Tilemap {
    width: usize,
    height: usize,
    viewport: Rect,
    tile_height: i64,
    tile_width: i64,
    layers: Vec<Layer>,
    tile_rectangles: Vec<Rect>,
    layer_to_draw: Option<usize>,
}

impl View for Tilemap {
    type V = TilemapView;

    closed spec fn view(&self) -> TilemapView {
        TilemapView {
            width: self.width as nat,
            height: self.height as nat,
            viewport: self.viewport,
            tile_width: self.tile_width as int,
            tile_height: self.tile_height as int,
            layers: self.layers@.map_values(|l: Layer| l@),
            rects: self.tile_rectangles@,
            layer_to_draw: self.layer_to_draw,
        }
    }
}

impl Tilemap {
    /// Positive cell sizes, and well-formed layers that all have the map's
    /// width and height.
    pub open spec fn wf(&self) -> bool {
        &&& self@.tile_width > 0
        &&& self@.tile_height > 0
        &&& forall|k: int|
            0 <= k < self@.layers.len() ==> {
                &&& (#[trigger] self@.layers[k]).wf()
                &&& self@.layers[k].width == self@.width
                &&& self@.layers[k].height == self@.height
            }
    }

    proof fn lemma_layer_wf(&self, k: int)
        requires
            self.wf(),
            0 <= k < self.layers@.len(),
        ensures
            self.layers@[k].tiles.wf(),
            self@.layers[k] == self.layers@[k]@,
            self.layers@[k].tiles.spec_width() == self.width,
            self.layers@[k].tiles.spec_height() == self.height,
            self.tile_width > 0,
            self.tile_height > 0,
    {
        assert(self@.layers[k].wf());
    }

    /// An empty tilemap of `width` by `height` cells with one empty layer;
    /// the atlas clip is cut into cells of `tile_width` by `tile_height`.
    pub fn new(clip: Rect, tile_width: i64, tile_height: i64, width: usize, height: usize) -> (r: Tilemap)
        requires
            atlas_fits(clip, tile_width as int, tile_height as int),
            width * height <= usize::MAX,
        ensures
            r.wf(),
            r@.width == width,
            r@.height == height,
            r@.viewport == zero_rect(),
            r@.tile_width == tile_width,
            r@.tile_height == tile_height,
            r@.layers == seq![fresh_layer(Seq::new((width * height) as nat, |i: int| None::<Tile>), width as nat, height as nat)],
            r@.rects == atlas_table(clip, tile_width as int, tile_height as int),
            r@.layer_to_draw is None,
    {
        let tiles: VecGrid<Tile> = VecGrid::new(width, height);
        let layer = Layer { tiles, name: String::new(), visibility: true, color: Color::white() };
        let mut layers: Vec<Layer> = Vec::new();
        layers.push(layer);
        let r = Tilemap {
            width,
            height,
            viewport: Rect { x: 0, y: 0, width: 0, height: 0 },
            tile_height,
            tile_width,
            layers,
            tile_rectangles: get_tile_rectangles(clip, tile_width, tile_height),
            layer_to_draw: None,
        };
        proof {
            assert(layer@.cells =~= Seq::new((width * height) as nat, |i: int| None::<Tile>));
            assert(r@.layers =~= seq![fresh_layer(Seq::new((width * height) as nat, |i: int| None::<Tile>), width as nat, height as nat)]);
        }
        r
    }

    /// The number of layers.
    pub fn layer_count(&self) -> (r: usize)
        ensures
            r == self@.layers.len(),
    {
        self.layers.len()
    }

    /// The id of the tile at cell `(x, y)` of layer `layer_nr`, or nothing.
    pub fn get_id_at(&self, layer_nr: usize, x: usize, y: usize) -> (r: Option<u32>)
        requires
            self.wf(),
        ensures
            r == id_at(self@, layer_nr as int, x as int, y as int),
    {
        if layer_nr >= self.layers.len() {
            return None;
        }
        proof {
            self.lemma_layer_wf(layer_nr as int);
        }
        match self.layers[layer_nr].tiles.get(x, y) {
            None => None,
            Some(tile) => Some(tile.id),
        }
    }

    /// The id of the tile whose cell contains pixel `(px, py)` of layer
    /// `layer`, or nothing; pixels left of or above the map are in no cell.
    pub fn get_id_at_position(&self, layer: usize, px: i64, py: i64) -> (r: Option<u32>)
        requires
            self.wf(),
        ensures
            px < 0 || py < 0 ==> r is None,
            px >= 0 && py >= 0 ==> r == id_at(
                self@,
                layer as int,
                cell_of(px as int, self@.tile_width),
                cell_of(py as int, self@.tile_height),
            ),
    {
        if px < 0 || py < 0 {
            return None;
        }
        let x: i64 = px / self.tile_width;
        let y: i64 = py / self.tile_height;
        if layer >= self.layers.len() || x as u64 > usize::MAX as u64 || y as u64 > usize::MAX as u64 {
            proof {
                if layer < self.layers.len() {
                    self.lemma_layer_wf(layer as int);
                }
            }
            return None;
        }
        self.get_id_at(layer, x as usize, y as usize)
    }

    /// Makes layer `layer` drawn or hidden; no such layer changes nothing.
    pub fn visibility(&mut self, layer: usize, visibility: bool)
        requires
            old(self).wf(),
        ensures
            final(self).wf(),
            layer < old(self)@.layers.len() ==> final(self)@ == (TilemapView {
                layers: old(self)@.layers.update(layer as int, LayerView { visibility, ..old(self)@.layers[layer as int] }),
                ..old(self)@
            }),
            layer >= old(self)@.layers.len() ==> final(self)@ == old(self)@,
    {
        if layer < self.layers.len() {
            self.layers[layer].visibility = visibility;
            proof {
                assert(final(self)@.layers =~= old(self)@.layers.update(layer as int, LayerView { visibility, ..old(self)@.layers[layer as int] }));
            }
        }
    }

    /// Sets the viewport that drawing culls against; the zero rectangle
    /// culls nothing.
    pub fn viewport(&mut self, rectangle: Rect)
        ensures
            final(self)@ == (TilemapView { viewport: rectangle, ..old(self)@ }),
    {
        self.viewport = rectangle;
    }

    /// Chooses the layers that `color` tints: all of them, or one.
    pub fn set_layer_to_draw(&mut self, layer_to_draw: Option<usize>)
        ensures
            final(self)@ == (TilemapView { layer_to_draw, ..old(self)@ }),
    {
        self.layer_to_draw = layer_to_draw;
    }

    /// Tints every layer, or only the selected one when one is selected; a
    /// selected layer that does not exist changes nothing.
    pub fn color(&mut self, color: Color)
        requires
            old(self).wf(),
        ensures
            final(self).wf(),
            final(self)@ == (TilemapView {
                layers: Seq::new(
                    old(self)@.layers.len(),
                    |k: int|
                        if old(self)@.layer_to_draw is None || old(self)@.layer_to_draw == Some(k as usize) {
                            LayerView { color, ..old(self)@.layers[k] }
                        } else {
                            old(self)@.layers[k]
                        },
                ),
                ..old(self)@
            }),
    {
        let ghost start = self@;
        let n = self.layers.len();
        let mut k: usize = 0;
        while k < n
            invariant
                0 <= k <= n,
                n == start.layers.len(),
                self.layers@.len() == n,
                self@ == (TilemapView { layers: self@.layers, ..start }),
                forall|j: int| 0 <= j < n ==> #[trigger] self@.layers[j] == if j < k && (start.layer_to_draw is None
                    || start.layer_to_draw == Some(j as usize)) {
                    LayerView { color, ..start.layers[j] }
                } else {
                    start.layers[j]
                },
                start.tile_width > 0,
                start.tile_height > 0,
                forall|j: int| 0 <= j < n ==> (#[trigger] start.layers[j]).wf(),
            decreases n - k,
        {
            let selected = match self.layer_to_draw {
                None => true,
                Some(l) => l == k,
            };
            if selected {
                let ghost before = self@;
                self.layers[k].color = color;
                proof {
                    assert(self@.layers =~= before.layers.update(k as int, LayerView { color, ..before.layers[k as int] }));
                }
            }
            k = k + 1;
        }
        proof {
            assert(self@.layers =~= Seq::new(
                start.layers.len(),
                |j: int|
                    if start.layer_to_draw is None || start.layer_to_draw == Some(j as usize) {
                        LayerView { color, ..start.layers[j] }
                    } else {
                        start.layers[j]
                    },
            ));
            assert forall|j: int| 0 <= j < self@.layers.len() implies (#[trigger] self@.layers[j]).wf() by {
                assert(start.layers[j].wf());
            }
        }
    }

    /// The name of layer `layer`, or nothing.
    pub fn get_layer_name(&self, layer: usize) -> (r: Option<&str>)
        ensures
            r is Some == (layer < self@.layers.len()),
            r is Some ==> r.unwrap()@ == self@.layers[layer as int].name,
    {
        if layer < self.layers.len() {
            Some(self.layers[layer].name.as_str())
        } else {
            None
        }
    }

    /// The position of the first layer named `name`, or nothing.
    pub fn get_layer_id(&self, name: &str) -> (r: Option<usize>)
        ensures
            r is None ==> forall|k: int| 0 <= k < self@.layers.len() ==> (#[trigger] self@.layers[k]).name != name@,
            r is Some ==> {
                let k = r.unwrap() as int;
                &&& 0 <= k < self@.layers.len()
                &&& self@.layers[k].name == name@
                &&& forall|j: int| 0 <= j < k ==> (#[trigger] self@.layers[j]).name != name@
            },
    {
        let wanted: String = name.to_owned();
        let mut k: usize = 0;
        while k < self.layers.len()
            invariant
                0 <= k <= self.layers@.len(),
                wanted@ == name@,
                forall|j: int| 0 <= j < k ==> (#[trigger] self@.layers[j]).name != name@,
            decreases self.layers@.len() - k,
        {
            if self.layers[k].name == wanted {
                return Some(k);
            }
            k = k + 1;
        }
        None
    }

    /// The atlas rectangle of id `id`, or nothing when the atlas has no such
    /// cell.
    pub fn get_clip_from_id(&self, id: u32) -> (r: Option<Rect>)
        ensures
            r is Some == (id < self@.rects.len()),
            r is Some ==> r.unwrap() == self@.rects[id as int],
    {
        if (id as usize) < self.tile_rectangles.len() {
            Some(self.tile_rectangles[id as usize])
        } else {
            None
        }
    }

    /// The atlas rectangles of `ids`, in order; nothing when one of them has
    /// no rectangle.
    pub fn get_frames_from_ids(&self, ids: &[u32]) -> (r: Option<Vec<Rect>>)
        ensures
            r is Some == (forall|i: int| 0 <= i < ids@.len() ==> #[trigger] ids@[i] < self@.rects.len()),
            r is Some ==> r.unwrap()@ == ids@.map_values(|id: u32| self@.rects[id as int]),
    {
        let mut frames: Vec<Rect> = Vec::new();
        let mut i: usize = 0;
        while i < ids.len()
            invariant
                0 <= i <= ids@.len(),
                frames@.len() == i,
                forall|j: int| 0 <= j < i ==> #[trigger] ids@[j] < self@.rects.len(),
                forall|j: int| 0 <= j < i ==> frames@[j] == self@.rects[ids@[j] as int],
            decreases ids@.len() - i,
        {
            match self.get_clip_from_id(ids[i]) {
                Some(rect) => frames.push(rect),
                None => {
                    return None;
                },
            }
            i = i + 1;
        }
        proof {
            assert(frames@ =~= ids@.map_values(|id: u32| self@.rects[id as int]));
        }
        Some(frames)
    }

    /// Builds a dense layer from rows of ids: `list[x][y]` becomes a plain
    /// tile at cell `(x, y)`, so the list holds one row of `height` ids for
    /// each of the map's `width` columns. Layer `layer` gets the new cells;
    /// when there is no such layer a new one is added after the others.
    pub fn set_tiles_from_map(&mut self, layer: usize, list: &[Vec<u32>])
        requires
            old(self).wf(),
            map_fits(list@.map_values(|v: Vec<u32>| v@), old(self)@.tile_width, old(self)@.tile_height),
            list@.len() == old(self)@.width,
            list@[0]@.len() == old(self)@.height,
        ensures
            final(self).wf(),
            ({
                let rows = list@.map_values(|v: Vec<u32>| v@);
                let w = rows.len();
                let h = rows[0].len();
                let cells = map_cells(rows, old(self)@.tile_width, old(self)@.tile_height);
                &&& layer < old(self)@.layers.len() ==> final(self)@ == (TilemapView {
                    layers: old(self)@.layers.update(
                        layer as int,
                        LayerView { cells, width: w, height: h, ..old(self)@.layers[layer as int] },
                    ),
                    ..old(self)@
                })
                &&& layer >= old(self)@.layers.len() ==> final(self)@ == (TilemapView {
                    layers: old(self)@.layers.push(fresh_layer(cells, w, h)),
                    ..old(self)@
                })
            }),
    {
        let tiles = self.create_tiles_from_map(list);
        if layer < self.layers.len() {
            self.layers[layer].tiles = tiles;
            proof {
                assert(final(self)@.layers =~= old(self)@.layers.update(
                    layer as int,
                    LayerView {
                        cells: tiles.cells(),
                        width: tiles.spec_width(),
                        height: tiles.spec_height(),
                        ..old(self)@.layers[layer as int]
                    },
                ));
            }
        } else {
            self.add_layer(tiles);
        }
        proof {
            assert forall|k: int| 0 <= k < self@.layers.len() implies {
                &&& (#[trigger] self@.layers[k]).wf()
                &&& self@.layers[k].width == self@.width
                &&& self@.layers[k].height == self@.height
            } by {
                if k != layer && k < old(self)@.layers.len() {
                    assert(old(self)@.layers[k].wf());
                }
            }
        }
    }

    fn create_tiles_from_map(&self, list: &[Vec<u32>]) -> (r: VecGrid<Tile>)
        requires
            self.wf(),
            map_fits(list@.map_values(|v: Vec<u32>| v@), self@.tile_width, self@.tile_height),
        ensures
            r.wf(),
            r.spec_width() == list@.len(),
            r.spec_height() == list@[0]@.len(),
            r.cells() == map_cells(list@.map_values(|v: Vec<u32>| v@), self@.tile_width, self@.tile_height),
    {
        let ghost rows = list@.map_values(|v: Vec<u32>| v@);
        let w: usize = list.len();
        let h: usize = list[0].len();
        proof {
            assert(rows[0] == list@[0]@);
        }
        let mut tiles: VecGrid<Tile> = VecGrid::new(w, h);
        let n: usize = w * h;
        let mut i: usize = 0;
        while i < n
            invariant
                0 <= i <= n,
                n == w * h,
                w == rows.len(),
                h == rows[0].len(),
                rows == list@.map_values(|v: Vec<u32>| v@),
                map_fits(rows, self@.tile_width, self@.tile_height),
                self.tile_width == self@.tile_width,
                self.tile_height == self@.tile_height,
                self.wf(),
                tiles.wf(),
                tiles.spec_width() == w,
                tiles.spec_height() == h,
                forall|j: int| 0 <= j < i ==> tiles.cells()[j] == map_cells(rows, self@.tile_width, self@.tile_height)[j],
                forall|j: int| i <= j < n ==> tiles.cells()[j] is None,
            decreases n - i,
        {
            proof {
                assert(w > 0) by (nonlinear_arith)
                    requires
                        i < w * h,
                        0 <= i,
                ;
            }
            let x: usize = i % w;
            let y: usize = i / w;
            proof {
                lemma_fundamental_div_mod(i as int, w as int);
                assert(cell_index(w as int, x as int, y as int) == i) by (nonlinear_arith)
                    requires
                        i == w * (i as int / w as int) + i as int % w as int,
                        x == i as int % w as int,
                        y == i as int / w as int,
                ;
                assert(0 <= y < h) by (nonlinear_arith)
                    requires
                        y == i as int / w as int,
                        i < w * h,
                        w > 0,
                ;
                assert(w <= w * self.tile_width) by (nonlinear_arith)
                    requires
                        w > 0,
                        self.tile_width > 0,
                ;
                assert(h <= h * self.tile_height) by (nonlinear_arith)
                    requires
                        h > 0,
                        self.tile_height > 0,
                ;
                assert(0 <= x * self.tile_width) by (nonlinear_arith)
                    requires
                        0 <= x,
                        self.tile_width > 0,
                ;
                assert(0 <= y * self.tile_height) by (nonlinear_arith)
                    requires
                        0 <= y,
                        self.tile_height > 0,
                ;
                assert(x * self.tile_width < w * self.tile_width) by (nonlinear_arith)
                    requires
                        x < w,
                        self.tile_width > 0,
                ;
                assert(y * self.tile_height < h * self.tile_height) by (nonlinear_arith)
                    requires
                        y < h,
                        self.tile_height > 0,
                ;
                assert(rows[x as int] == list@[x as int]@);
                assert(list@[x as int]@.len() == h);
            }
            let id: u32 = list[x][y];
            let t = Tile::plain(id, x as i64, y as i64, (x as i64) * self.tile_width, (y as i64) * self.tile_height);
            let _ = tiles.set(t, x, y);
            i = i + 1;
        }
        proof {
            assert(tiles.cells() =~= map_cells(rows, self@.tile_width, self@.tile_height));
        }
        tiles
    }

    fn add_layer(&mut self, tiles: VecGrid<Tile>)
        requires
            tiles.wf(),
        ensures
            final(self)@ == (TilemapView {
                layers: old(self)@.layers.push(fresh_layer(tiles.cells(), tiles.spec_width(), tiles.spec_height())),
                ..old(self)@
            }),
    {
        let layer = Layer { tiles, name: String::new(), visibility: true, color: Color::white() };
        self.layers.push(layer);
        proof {
            assert(layer@.name =~= Seq::<char>::empty());
            assert(final(self)@.layers =~= old(self)@.layers.push(fresh_layer(tiles.cells(), tiles.spec_width(), tiles.spec_height())));
        }
    }

    /// Puts id `new_id` on the cell of layer `layer` that contains pixel
    /// `(px, py)`: an existing tile keeps its place and orientation and only
    /// changes its id; an empty cell gets a plain tile.
    pub fn set_tileid_at(&mut self, layer: usize, new_id: u32, px: i64, py: i64) -> (r: Result<(), EditError>)
        requires
            old(self).wf(),
        ensures
            final(self).wf(),
            ({
                let v = old(self)@;
                let cx = cell_of(px as int, v.tile_width);
                let cy = cell_of(py as int, v.tile_height);
                &&& r == if layer >= v.layers.len() {
                    Err(EditError::LayerNotFound)
                } else if px < 0 || py < 0 || cx >= v.layers[layer as int].width || cy >= v.layers[layer as int].height {
                    Err(EditError::OutOfBounds)
                } else {
                    Ok(())
                }
                &&& r is Err ==> final(self)@ == v
                &&& r is Ok ==> {
                    let l = v.layers[layer as int];
                    let placed = match l.get(cx, cy) {
                        Some(t) => Tile { id: new_id, ..t },
                        None => Tile::spec_plain(new_id, cx as i64, cy as i64, (cx * v.tile_width) as i64, (cy * v.tile_height) as i64),
                    };
                    &&& final(self)@ == (TilemapView {
                        layers: v.layers.update(
                            layer as int,
                            LayerView { cells: l.cells.update(cell_index(l.width as int, cx, cy), Some(placed)), ..l },
                        ),
                        ..v
                    })
                    &&& final(self)@.layers[layer as int].get(cx, cy) == Some(placed)
                    &&& id_at(final(self)@, layer as int, cx, cy) == Some(new_id)
                }
            }),
    {
        if layer >= self.layers.len() {
            return Err(EditError::LayerNotFound);
        }
        if px < 0 || py < 0 {
            return Err(EditError::OutOfBounds);
        }
        proof {
            self.lemma_layer_wf(layer as int);
        }
        let cx: i64 = px / self.tile_width;
        let cy: i64 = py / self.tile_height;
        if cx as u64 >= self.layers[layer].tiles.width() as u64 || cy as u64 >= self.layers[layer].tiles.height() as u64 {
            return Err(EditError::OutOfBounds);
        }
        let x: usize = cx as usize;
        let y: usize = cy as usize;
        proof {
            assert(cx * self.tile_width <= px) by (nonlinear_arith)
                requires
                    cx == px as int / self.tile_width as int,
                    px >= 0,
                    self.tile_width > 0,
            ;
            assert(cy * self.tile_height <= py) by (nonlinear_arith)
                requires
                    cy == py as int / self.tile_height as int,
                    py >= 0,
                    self.tile_height > 0,
            ;
            assert(0 <= cx * self.tile_width) by (nonlinear_arith)
                requires
                    0 <= cx,
                    self.tile_width > 0,
            ;
            assert(0 <= cy * self.tile_height) by (nonlinear_arith)
                requires
                    0 <= cy,
                    self.tile_height > 0,
            ;
            lemma_cell_index_bounds(self.layers@[layer as int].tiles.spec_width() as int, self.layers@[layer as int].tiles.spec_height() as int, x as int, y as int);
        }
        let tw = self.tile_width;
        let th = self.tile_height;
        let ghost v = self@;
        let ghost l = v.layers[layer as int];
        let grid = &mut self.layers[layer].tiles;
        match grid.get_mut(x, y) {
            Some(tile) => {
                tile.id = new_id;
            },
            None => {
                let t = Tile::plain(new_id, cx, cy, cx * tw, cy * th);
                let _ = grid.set(t, x, y);
            },
        }
        proof {
            let placed = match l.get(cx as int, cy as int) {
                Some(t) => Tile { id: new_id, ..t },
                None => Tile::spec_plain(new_id, cx, cy, (cx * tw) as i64, (cy * th) as i64),
            };
            assert(self@.layers =~= v.layers.update(
                layer as int,
                LayerView { cells: l.cells.update(cell_index(l.width as int, cx as int, cy as int), Some(placed)), ..l },
            ));
            assert forall|k: int| 0 <= k < self@.layers.len() implies (#[trigger] self@.layers[k]).wf() by {
                assert(v.layers[k].wf());
            }
        }
        Ok(())
    }

    /// Gives every tile of layer `layer` whose id is `old_id` the id `new_id`,
    /// or removes it when `new_id` is nothing.
    pub fn replace_all_tileid(&mut self, layer: usize, old_id: u32, new_id: Option<u32>) -> (r: Result<(), EditError>)
        requires
            old(self).wf(),
        ensures
            final(self).wf(),
            r is Err == (layer >= old(self)@.layers.len()),
            r is Err ==> r == Err::<(), EditError>(EditError::LayerNotFound) && final(self)@ == old(self)@,
            r is Ok ==> final(self)@ == (TilemapView {
                layers: old(self)@.layers.update(
                    layer as int,
                    LayerView {
                        cells: replace_cells(old(self)@.layers[layer as int].cells, old_id, new_id),
                        ..old(self)@.layers[layer as int]
                    },
                ),
                ..old(self)@
            }),
    {
        if layer >= self.layers.len() {
            return Err(EditError::LayerNotFound);
        }
        proof {
            self.lemma_layer_wf(layer as int);
        }
        let ghost v = self@;
        let ghost l = v.layers[layer as int];
        let w: usize = self.layers[layer].tiles.width();
        let h: usize = self.layers[layer].tiles.height();
        let n: usize = w * h;
        let mut i: usize = 0;
        while i < n
            invariant
                0 <= i <= n,
                n == w * h,
                w == l.width,
                h == l.height,
                l.wf(),
                layer < v.layers.len(),
                l == v.layers[layer as int],
                self.layers@.len() == v.layers.len(),
                self.layers@[layer as int].tiles.wf(),
                self@ == (TilemapView { layers: self@.layers, ..v }),
                forall|k: int| 0 <= k < v.layers.len() && k != layer ==> #[trigger] self@.layers[k] == v.layers[k],
                self@.layers[layer as int] == (LayerView { cells: self@.layers[layer as int].cells, ..l }),
                self@.layers[layer as int].cells.len() == n,
                forall|j: int| 0 <= j < i ==> self@.layers[layer as int].cells[j] == replaced(l.cells[j], old_id, new_id),
                forall|j: int| i <= j < n ==> self@.layers[layer as int].cells[j] == l.cells[j],
            decreases n - i,
        {
            proof {
                assert(w > 0) by (nonlinear_arith)
                    requires
                        i < w * h,
                        0 <= i,
                ;
            }
            let x: usize = i % w;
            let y: usize = i / w;
            proof {
                lemma_fundamental_div_mod(i as int, w as int);
                assert(cell_index(w as int, x as int, y as int) == i) by (nonlinear_arith)
                    requires
                        i == w * (i as int / w as int) + i as int % w as int,
                        x == i as int % w as int,
                        y == i as int / w as int,
                ;
                assert(0 <= y < h) by (nonlinear_arith)
                    requires
                        y == i as int / w as int,
                        i < w * h,
                        w > 0,
                ;
            }
            let ghost before = self@;
            let grid = &mut self.layers[layer].tiles;
            let mut remove = false;
            match grid.get_mut(x, y) {
                Some(tile) => {
                    if tile.id == old_id {
                        match new_id {
                            Some(id) => {
                                tile.id = id;
                            },
                            None => {
                                remove = true;
                            },
                        }
                    }
                },
                None => {},
            }
            if remove {
                grid.delete(x, y);
            }
            proof {
                assert(self@.layers[layer as int].cells =~= before.layers[layer as int].cells.update(
                    i as int,
                    replaced(l.cells[i as int], old_id, new_id),
                ));
                assert forall|k: int| 0 <= k < v.layers.len() && k != layer implies #[trigger] self@.layers[k] == v.layers[k] by {
                    assert(self@.layers[k] == before.layers[k]);
                }
            }
            i = i + 1;
        }
        proof {
            assert(self@.layers[layer as int].cells =~= replace_cells(l.cells, old_id, new_id));
            assert(self@.layers =~= v.layers.update(
                layer as int,
                LayerView { cells: replace_cells(l.cells, old_id, new_id), ..l },
            ));
            assert forall|k: int| 0 <= k < self@.layers.len() implies (#[trigger] self@.layers[k]).wf() by {
                assert(v.layers[k].wf());
            }
        }
        Ok(())
    }

    /// The pixel anchor of the first tile of layer `layer` with id `id`, in
    /// row-major order; the zero point when there is no such layer or tile.
    pub fn get_position_from_id(&self, layer: usize, id: u32) -> (r: (i64, i64))
        requires
            self.wf(),
        ensures
            (layer >= self@.layers.len() || forall|i: int|
                0 <= i < self@.layers[layer as int].cells.len() ==> !has_id(#[trigger] self@.layers[layer as int].cells[i], id))
                ==> r == (0i64, 0i64),
            layer < self@.layers.len() && (exists|i: int|
                0 <= i < self@.layers[layer as int].cells.len() && has_id(#[trigger] self@.layers[layer as int].cells[i], id))
                ==> exists|i: int|
                first_with_id(self@.layers[layer as int].cells, id, i) && r == anchor_of_cell(self@.layers[layer as int].cells[i]),
    {
        if layer >= self.layers.len() {
            return (0, 0);
        }
        proof {
            self.lemma_layer_wf(layer as int);
        }
        let ghost l = self@.layers[layer as int];
        let tiles = self.layers[layer].tiles.get_data();
        let mut i: usize = 0;
        while i < tiles.len()
            invariant
                0 <= i <= tiles@.len(),
                tiles@ == l.cells,
                layer < self@.layers.len(),
                l == self@.layers[layer as int],
                forall|j: int| 0 <= j < i ==> !has_id(#[trigger] l.cells[j], id),
            decreases tiles@.len() - i,
        {
            match &tiles[i] {
                Some(t) => {
                    if t.id == id {
                        proof {
                            assert(has_id(self@.layers[layer as int].cells[i as int], id));
                            assert(first_with_id(self@.layers[layer as int].cells, id, i as int));
                        }
                        return (t.position_x, t.position_y);
                    }
                },
                None => {},
            }
            i = i + 1;
        }
        (0, 0)
    }

    /// Whether a tile anchored at draw position `(x, y)` is drawn: the
    /// viewport holds the point, its edges included.
    fn is_inside_viewport(&self, x: i128, y: i128) -> (r: bool)
        ensures
            r == spec_is_inside_viewport(self@.viewport, x as int, y as int),
    {
        let vp = self.viewport;
        !(x < vp.x as i128 || y < vp.y as i128 || x > vp.x as i128 + vp.width as i128 || y > vp.y as i128
            + vp.height as i128)
    }

    /// The draw commands of the tilemap moved by `(offset_x, offset_y)`:
    /// each visible layer in order, or only layer `layer_to_draw` when it is
    /// visible, and in each its tiles in row-major order. A tile is left out
    /// when its id has no atlas rectangle or, unless the viewport is the zero
    /// rectangle, when its draw position lies outside the viewport.
    pub fn draw(&self, offset_x: i64, offset_y: i64, layer_to_draw: Option<usize>) -> (r: Vec<DrawCommand>)
        requires
            self.wf(),
        ensures
            r@ == draw_list(self@, self@.layers.len() as int, offset_x as int, offset_y as int, layer_to_draw),
    {
        let mut out: Vec<DrawCommand> = Vec::new();
        let draw_all = self.viewport.is_zero();
        let mut k: usize = 0;
        while k < self.layers.len()
            invariant
                0 <= k <= self.layers@.len(),
                self.wf(),
                draw_all == self@.viewport.spec_is_zero(),
                out@ == draw_list(self@, k as int, offset_x as int, offset_y as int, layer_to_draw),
            decreases self.layers@.len() - k,
        {
            proof {
                self.lemma_layer_wf(k as int);
            }
            let ghost l = self@.layers[k as int];
            let selected = match layer_to_draw {
                None => true,
                Some(s) => s == k,
            };
            if self.layers[k].visibility && selected {
                let layer = &self.layers[k];
                let tiles = layer.tiles.get_data();
                let ghost base = out@;
                let mut i: usize = 0;
                while i < tiles.len()
                    invariant
                        0 <= i <= tiles@.len(),
                        tiles@ == l.cells,
                        layer@ == l,
                        draw_all == self@.viewport.spec_is_zero(),
                        out@ == base + layer_commands(l.cells.subrange(0, i as int), self@, offset_x as int, offset_y as int, l.color),
                    decreases tiles@.len() - i,
                {
                    proof {
                        assert(l.cells.subrange(0, i + 1).drop_last() =~= l.cells.subrange(0, i as int));
                        assert(l.cells.subrange(0, i + 1).last() == l.cells[i as int]);
                    }
                    match &tiles[i] {
                        Some(t) => {
                            let x: i128 = offset_x as i128 + t.position_x as i128;
                            let y: i128 = offset_y as i128 + t.position_y as i128;
                            if (t.id as usize) < self.tile_rectangles.len() && (draw_all || self.is_inside_viewport(x, y)) {
                                out.push(
                                    DrawCommand {
                                        x,
                                        y,
                                        clip: self.tile_rectangles[t.id as usize],
                                        rotation: t.rotation,
                                        scale_x: t.scale_x,
                                        scale_y: t.scale_y,
                                        color: layer.color,
                                    },
                                );
                            }
                        },
                        None => {},
                    }
                    proof {
                        assert(out@ =~= base + layer_commands(l.cells.subrange(0, i + 1), self@, offset_x as int, offset_y as int, l.color));
                    }
                    i = i + 1;
                }
                proof {
                    assert(l.cells.subrange(0, l.cells.len() as int) =~= l.cells);
                }
            }
            k = k + 1;
        }
        out
    }

    /// The draw commands of layer `layer` alone.
    pub fn draw_layer(&self, offset_x: i64, offset_y: i64, layer: usize) -> (r: Vec<DrawCommand>)
        requires
            self.wf(),
        ensures
            r@ == draw_list(self@, self@.layers.len() as int, offset_x as int, offset_y as int, Some(layer)),
    {
        self.draw(offset_x, offset_y, Some(layer))
    }

    /// A tilemap from a PyxelEdit document: the document is decoded, its
    /// layers taken in reverse order so that the bottom one is drawn first,
    /// and the atlas clip cut into cells of the document's cell size.
    pub fn from_pyxeledit(clip: Rect, pyxeltilemap: PyxelTilemap) -> (r: Result<Tilemap, DecodeError>)
        ensures
            ({
                let m = pyxeltilemap;
                let doc_ok = pyxel_header_fault(m) is None && forall|k: int|
                    0 <= k < m.layers@.len() ==> pyxel_layer_ok(m, (#[trigger] m.layers@[k]).tiles@);
                let grid_ok = m.tileswide * m.tileshigh <= usize::MAX && m.tileswide <= usize::MAX && m.tileshigh
                    <= usize::MAX;
                let atlas_ok = atlas_fits(clip, m.tile_width as int, m.tile_height as int);
                &&& r is Ok == (doc_ok && grid_ok && atlas_ok)
                &&& r is Err ==> r.unwrap_err().document == DocumentKind::PyxelEdit
                &&& r is Err && pyxel_header_fault(m) is Some ==> r.unwrap_err().fault == pyxel_header_fault(m).unwrap()
                &&& r is Err && pyxel_header_fault(m) is None && !doc_ok ==> pyxel_fault_at(m, r.unwrap_err().fault)
                &&& r is Err && doc_ok && !grid_ok ==> r.unwrap_err().fault == Fault::GridSize
                &&& r is Err && doc_ok && grid_ok ==> r.unwrap_err().fault == Fault::Atlas
                &&& r is Ok ==> {
                    let t = r.unwrap();
                    let n = m.layers@.len();
                    let w = m.tileswide as nat;
                    let h = m.tileshigh as nat;
                    &&& t.wf()
                    &&& t@.width == w
                    &&& t@.height == h
                    &&& t@.viewport == zero_rect()
                    &&& t@.tile_width == m.tile_width
                    &&& t@.tile_height == m.tile_height
                    &&& t@.rects == atlas_table(clip, m.tile_width as int, m.tile_height as int)
                    &&& t@.layer_to_draw is None
                    &&& t@.layers.len() == n
                    &&& forall|k: int| 0 <= k < n ==> {
                        let src = m.layers@[n - 1 - k];
                        #[trigger] t@.layers[k] == LayerView {
                            name: src.name@,
                            ..fresh_layer(
                                grid_of(
                                    canonical_tiles(spec_placed_tiles(src.tiles@, m.tile_width as int, m.tile_height as int)),
                                    w as int,
                                    h as int,
                                ),
                                w,
                                h,
                            )
                        }
                    }
                }
            }),
    {
        let mut doc = pyxeltilemap;
        match remodel(&mut doc) {
            Ok(()) => {},
            Err(e) => {
                return Err(e);
            },
        }
        let wide: u128 = doc.tileswide as u128;
        let high: u128 = doc.tileshigh as u128;
        proof {
            assert(wide * high <= 0x7fff_ffff_ffff_ffff * 0x7fff_ffff_ffff_ffff) by (nonlinear_arith)
                requires
                    0 <= wide <= 0x7fff_ffff_ffff_ffff,
                    0 <= high <= 0x7fff_ffff_ffff_ffff,
            ;
        }
        if wide * high > usize::MAX as u128 || wide > usize::MAX as u128 || high > usize::MAX as u128 {
            return Err(DecodeError::new(DocumentKind::PyxelEdit, Fault::GridSize));
        }
        if !atlas_fits_check(clip, doc.tile_width, doc.tile_height) {
            return Err(DecodeError::new(DocumentKind::PyxelEdit, Fault::Atlas));
        }
        let w: usize = doc.tileswide as usize;
        let h: usize = doc.tileshigh as usize;
        proof {
            let m = pyxeltilemap;
            assert forall|k: int| 0 <= k < doc.layers@.len() implies forall|i: int|
                0 <= i < (#[trigger] doc.layers@[k]).tiles@.len() ==> #[trigger] doc.layers@[k].tiles@[i].id != -1
                    && pyxel_tile_ok(doc.layers@[k].tiles@[i], w as int, h as int, doc.tile_width as int, doc.tile_height as int) by {
                let src = m.layers@[k].tiles@;
                assert(pyxel_layer_ok(m, src));
                lemma_placed_ok(src, w as int, h as int, doc.tile_width as int, doc.tile_height as int);
            }
        }
        let layers = transform_pyxellayer(&doc, w, h);
        let t = Tilemap {
            width: w,
            height: h,
            viewport: Rect { x: 0, y: 0, width: 0, height: 0 },
            tile_height: doc.tile_height,
            tile_width: doc.tile_width,
            layers,
            tile_rectangles: get_tile_rectangles(clip, doc.tile_width, doc.tile_height),
            layer_to_draw: None,
        };
        proof {
            let m = pyxeltilemap;
            let n = m.layers@.len();
            assert forall|k: int| 0 <= k < t@.layers.len() implies (#[trigger] t@.layers[k]).wf() by {
                assert(t.layers@[k]@ == t@.layers[k]);
            }
            assert forall|k: int| 0 <= k < n implies {
                let src = m.layers@[n - 1 - k];
                #[trigger] t@.layers[k] == LayerView {
                    name: src.name@,
                    ..fresh_layer(
                        grid_of(
                            canonical_tiles(spec_placed_tiles(src.tiles@, m.tile_width as int, m.tile_height as int)),
                            w as int,
                            h as int,
                        ),
                        w as nat,
                        h as nat,
                    )
                }
            } by {
                assert(t.layers@[k]@ == t@.layers[k]);
            }
        }
        Ok(t)
    }

    /// A tilemap from a decoded Tiled map: layers keep their order, each
    /// tile goes to its own cell, and the atlas clip is cut into cells of the
    /// map's cell size.
    pub fn from_tiled(clip: Rect, tiledtilemap: TiledTilemap) -> (r: Result<Tilemap, DecodeError>)
        ensures
            ({
                let d = tiledtilemap;
                let w = d.tilewidth as int;
                let h = d.tileheight as int;
                let size_ok = d.tile_width > 0 && d.tile_height > 0;
                let grid_ok = w * h <= usize::MAX;
                let atlas_ok = atlas_fits(clip, d.tile_width as int, d.tile_height as int);
                let tiles_ok = forall|k: int| 0 <= k < d.layers@.len() ==> all_in_grid((#[trigger] d.layers@[k]).tiles@, w, h);
                &&& r is Ok == (size_ok && grid_ok && atlas_ok && tiles_ok)
                &&& r is Err ==> r.unwrap_err().document == d.document
                &&& r is Err && !size_ok ==> r.unwrap_err().fault == Fault::TileSize
                &&& r is Err && size_ok && !grid_ok ==> r.unwrap_err().fault == Fault::GridSize
                &&& r is Err && size_ok && grid_ok && !atlas_ok ==> r.unwrap_err().fault == Fault::Atlas
                &&& r is Err && size_ok && grid_ok && atlas_ok ==> tiled_fault_at(d, r.unwrap_err().fault)
                &&& r is Ok ==> {
                    let t = r.unwrap();
                    &&& t.wf()
                    &&& t@.width == w
                    &&& t@.height == h
                    &&& t@.viewport == zero_rect()
                    &&& t@.tile_width == d.tile_width
                    &&& t@.tile_height == d.tile_height
                    &&& t@.rects == atlas_table(clip, d.tile_width as int, d.tile_height as int)
                    &&& t@.layer_to_draw is None
                    &&& t@.layers.len() == d.layers@.len()
                    &&& forall|k: int| 0 <= k < d.layers@.len() ==> #[trigger] t@.layers[k] == LayerView {
                        name: d.layers@[k].name@,
                        ..fresh_layer(grid_of(d.layers@[k].tiles@, w, h), w as nat, h as nat)
                    }
                }
            }),
    {
        let d = tiledtilemap;
        if d.tile_width <= 0 || d.tile_height <= 0 {
            return Err(DecodeError::new(d.document, Fault::TileSize));
        }
        let w: usize = d.tilewidth;
        let h: usize = d.tileheight;
        proof {
            assert((w as u128) * (h as u128) <= 0xffff_ffff_ffff_ffff * 0xffff_ffff_ffff_ffff) by (nonlinear_arith)
                requires
                    0 <= w <= 0xffff_ffff_ffff_ffff,
                    0 <= h <= 0xffff_ffff_ffff_ffff,
            ;
        }
        if (w as u128) * (h as u128) > usize::MAX as u128 {
            return Err(DecodeError::new(d.document, Fault::GridSize));
        }
        if !atlas_fits_check(clip, d.tile_width, d.tile_height) {
            return Err(DecodeError::new(d.document, Fault::Atlas));
        }
        let mut layers: Vec<Layer> = Vec::new();
        let mut k: usize = 0;
        while k < d.layers.len()
            invariant
                0 <= k <= d.layers@.len(),
                d == tiledtilemap,
                d.tile_width > 0,
                d.tile_height > 0,
                atlas_fits(clip, d.tile_width as int, d.tile_height as int),
                w == d.tilewidth,
                h == d.tileheight,
                w * h <= usize::MAX,
                layers@.len() == k,
                forall|j: int| 0 <= j < k ==> all_in_grid((#[trigger] d.layers@[j]).tiles@, w as int, h as int),
                forall|j: int|
                    0 <= j < k ==> (#[trigger] layers@[j])@ == (LayerView {
                        name: d.layers@[j].name@,
                        ..fresh_layer(grid_of(d.layers@[j].tiles@, w as int, h as int), w as nat, h as nat)
                    }) && layers@[j]@.wf(),
            decreases d.layers@.len() - k,
        {
            let src = &d.layers[k];
            match grid_from_tiles(&src.tiles, w, h) {
                Ok(grid) => {
                    layers.push(Layer { tiles: grid, name: src.name.clone(), visibility: true, color: Color::white() });
                },
                Err(i) => {
                    let f = Fault::Tile { layer: k, index: i };
                    proof {
                        assert(tiled_fault_at(d, f));
                        assert(!all_in_grid(d.layers@[k as int].tiles@, w as int, h as int));
                    }
                    return Err(DecodeError::new(d.document, f));
                },
            }
            k = k + 1;
        }
        let t = Tilemap {
            width: w,
            height: h,
            viewport: Rect { x: 0, y: 0, width: 0, height: 0 },
            tile_height: d.tile_height,
            tile_width: d.tile_width,
            layers,
            tile_rectangles: get_tile_rectangles(clip, d.tile_width, d.tile_height),
            layer_to_draw: None,
        };
        proof {
            assert forall|k: int| 0 <= k < t@.layers.len() implies (#[trigger] t@.layers[k]).wf() by {
                assert(t.layers@[k]@ == t@.layers[k]);
            }
            assert forall|k: int| 0 <= k < d.layers@.len() implies #[trigger] t@.layers[k] == LayerView {
                name: d.layers@[k].name@,
                ..fresh_layer(grid_of(d.layers@[k].tiles@, w as int, h as int), w as nat, h as nat)
            } by {
                assert(t.layers@[k]@ == t@.layers[k]);
            }
        }
        Ok(t)
    }

}


/// Whether cell `c` holds a tile with id `id`.
pub open spec fn has_id(c: Option<Tile>, id: u32) -> bool {
    c matches Some(t) && t.id == id
}

/// Whether `i` is the first cell that holds a tile with id `id`.
pub open spec fn first_with_id(cells: Seq<Option<Tile>>, id: u32, i: int) -> bool {
    &&& 0 <= i < cells.len()
    &&& has_id(cells[i], id)
    &&& forall|j: int| 0 <= j < i ==> !has_id(#[trigger] cells[j], id)
}

/// The pixel anchor of the tile in cell `c`; the zero point for an empty
/// cell.
pub open spec fn anchor_of_cell(c: Option<Tile>) -> (i64, i64) {
    match c {
        Some(t) => (t.position_x, t.position_y),
        None => (0i64, 0i64),
    }
}

/// The canonical form of decoded PyxelEdit entries.
pub open spec fn canonical_tiles(tiles: Seq<pyxeledit::Tile>) -> Seq<Tile> {
    tiles.map_values(
        |t: pyxeledit::Tile|
            Tile {
                id: t.id as u32,
                x: t.x,
                y: t.y,
                position_x: t.position_x,
                position_y: t.position_y,
                rotation: t.rotation,
                scale_x: t.scale_x,
                scale_y: t.scale_y,
            },
    )
}

/// Whether every tile of `tiles` lies on a grid `w` by `h` cells.
pub open spec fn all_in_grid(tiles: Seq<Tile>, w: int, h: int) -> bool {
    forall|i: int| 0 <= i < tiles.len() ==> in_grid(#[trigger] tiles[i], w, h)
}

/// Whether `f` names the first tile of `d` that lies off its map.
pub open spec fn tiled_fault_at(d: TiledTilemap, f: Fault) -> bool {
    match f {
        Fault::Tile { layer, index } => {
            let k = layer as int;
            let i = index as int;
            let w = d.tilewidth as int;
            let h = d.tileheight as int;
            &&& 0 <= k < d.layers@.len()
            &&& forall|j: int| 0 <= j < k ==> all_in_grid((#[trigger] d.layers@[j]).tiles@, w, h)
            &&& 0 <= i < d.layers@[k].tiles@.len()
            &&& !in_grid(d.layers@[k].tiles@[i], w, h)
            &&& forall|j: int| 0 <= j < i ==> in_grid(#[trigger] d.layers@[k].tiles@[j], w, h)
        },
        _ => false,
    }
}

/// Whether tile `t` lies on a grid `w` by `h` cells.
pub open spec fn in_grid(t: Tile, w: int, h: int) -> bool {
    0 <= t.x < w && 0 <= t.y < h
}

/// The cells of a `w` by `h` grid after each tile is written at its own
/// coordinates, in order, a later tile replacing an earlier one.
pub open spec fn grid_of(tiles: Seq<Tile>, w: int, h: int) -> Seq<Option<Tile>>
    decreases tiles.len(),
{
    if tiles.len() == 0 {
        Seq::new((w * h) as nat, |i: int| None::<Tile>)
    } else {
        let t = tiles.last();
        cells_after_set(grid_of(tiles.drop_last(), w, h), w, t.x as int, t.y as int, t)
    }
}

/// Every decoded PyxelEdit entry is a tile that can be placed.
proof fn lemma_placed_ok(tiles: Seq<pyxeledit::Tile>, wide: int, high: int, tile_width: int, tile_height: int)
    requires
        forall|i: int| 0 <= i < tiles.len() ==> pyxeledit::pyxel_entry_ok(#[trigger] tiles[i], wide, high, tile_width, tile_height),
    ensures
        forall|j: int|
            0 <= j < spec_placed_tiles(tiles, tile_width, tile_height).len() ==> (#[trigger] spec_placed_tiles(tiles, tile_width, tile_height)[j]).id != -1
                && pyxel_tile_ok(spec_placed_tiles(tiles, tile_width, tile_height)[j], wide, high, tile_width, tile_height),
    decreases tiles.len(),
{
    if tiles.len() > 0 {
        let d = tiles.drop_last();
        assert forall|i: int| 0 <= i < d.len() implies pyxeledit::pyxel_entry_ok(#[trigger] d[i], wide, high, tile_width, tile_height) by {
            assert(d[i] == tiles[i]);
        }
        lemma_placed_ok(d, wide, high, tile_width, tile_height);
        let prev = spec_placed_tiles(d, tile_width, tile_height);
        let all = spec_placed_tiles(tiles, tile_width, tile_height);
        assert forall|j: int| 0 <= j < all.len() implies (#[trigger] all[j]).id != -1 && pyxel_tile_ok(all[j], wide, high, tile_width, tile_height) by {
            if j < prev.len() {
                assert(all[j] == prev[j]);
            } else {
                assert(pyxeledit::pyxel_entry_ok(tiles[tiles.len() - 1], wide, high, tile_width, tile_height));
                assert(all[j] == spec_placed(tiles.last(), tile_width, tile_height));
            }
        }
    }
}

/// The canonical form of decoded PyxelEdit entries.
fn canonical(tiles: &Vec<pyxeledit::Tile>) -> (r: Vec<Tile>)
    ensures
        r@ == canonical_tiles(tiles@),
{
    let mut out: Vec<Tile> = Vec::new();
    let mut i: usize = 0;
    while i < tiles.len()
        invariant
            0 <= i <= tiles@.len(),
            out@ == canonical_tiles(tiles@.subrange(0, i as int)),
        decreases tiles@.len() - i,
    {
        let t = tiles[i];
        out.push(
            Tile {
                id: t.id as u32,
                x: t.x,
                y: t.y,
                position_x: t.position_x,
                position_y: t.position_y,
                rotation: t.rotation,
                scale_x: t.scale_x,
                scale_y: t.scale_y,
            },
        );
        proof {
            assert(out@ =~= canonical_tiles(tiles@.subrange(0, i + 1)));
        }
        i = i + 1;
    }
    proof {
        assert(tiles@.subrange(0, tiles@.len() as int) =~= tiles@);
    }
    out
}

/// The layers of a decoded PyxelEdit document, bottom layer first.
fn transform_pyxellayer(doc: &PyxelTilemap, w: usize, h: usize) -> (r: Vec<Layer>)
    requires
        pyxel_header_fault(*doc) is None,
        w == doc.tileswide,
        h == doc.tileshigh,
        w * h <= usize::MAX,
        forall|k: int|
            0 <= k < doc.layers@.len() ==> forall|i: int|
                0 <= i < (#[trigger] doc.layers@[k]).tiles@.len() ==> #[trigger] doc.layers@[k].tiles@[i].id != -1
                    && pyxel_tile_ok(doc.layers@[k].tiles@[i], w as int, h as int, doc.tile_width as int, doc.tile_height as int),
    ensures
        r@.len() == doc.layers@.len(),
        forall|k: int|
            0 <= k < r@.len() ==> {
                let src = doc.layers@[doc.layers@.len() - 1 - k];
                &&& (#[trigger] r@[k])@ == LayerView {
                    name: src.name@,
                    ..fresh_layer(grid_of(canonical_tiles(src.tiles@), w as int, h as int), w as nat, h as nat)
                }
                &&& r@[k]@.wf()
            },
{
    let n = doc.layers.len();
    let mut out: Vec<Layer> = Vec::new();
    let mut k: usize = 0;
    while k < n
        invariant
            0 <= k <= n,
            n == doc.layers@.len(),
            w * h <= usize::MAX,
            out@.len() == k,
            forall|k2: int|
                0 <= k2 < doc.layers@.len() ==> forall|i: int|
                    0 <= i < (#[trigger] doc.layers@[k2]).tiles@.len() ==> #[trigger] doc.layers@[k2].tiles@[i].id != -1
                        && pyxel_tile_ok(doc.layers@[k2].tiles@[i], w as int, h as int, doc.tile_width as int, doc.tile_height as int),
            forall|j: int|
                0 <= j < k ==> {
                    let src = doc.layers@[n - 1 - j];
                    &&& (#[trigger] out@[j])@ == LayerView {
                        name: src.name@,
                        ..fresh_layer(grid_of(canonical_tiles(src.tiles@), w as int, h as int), w as nat, h as nat)
                    }
                    &&& out@[j]@.wf()
                },
        decreases n - k,
    {
        let src = &doc.layers[n - 1 - k];
        let tiles = canonical(&src.tiles);
        proof {
            assert forall|i: int| 0 <= i < tiles@.len() implies in_grid(#[trigger] tiles@[i], w as int, h as int) by {
                assert(doc.layers@[n - 1 - k].tiles@[i].id != -1);
            }
        }
        match grid_from_tiles(&tiles, w, h) {
            Ok(grid) => {
                let layer = Layer { tiles: grid, name: src.name.clone(), visibility: true, color: Color::white() };
                out.push(layer);
            },
            Err(_) => {
                proof {
                    assert(false);
                }
            },
        }
        k = k + 1;
    }
    out
}

/// Writes each tile into a fresh `w` by `h` grid at its own coordinates;
/// fails with the position of the first tile off the grid.
fn grid_from_tiles(tiles: &Vec<Tile>, w: usize, h: usize) -> (r: Result<VecGrid<Tile>, usize>)
    requires
        w * h <= usize::MAX,
    ensures
        r is Ok == (forall|i: int| 0 <= i < tiles@.len() ==> in_grid(#[trigger] tiles@[i], w as int, h as int)),
        r is Ok ==> {
            let g = r.unwrap();
            &&& g.wf()
            &&& g.spec_width() == w
            &&& g.spec_height() == h
            &&& g.cells() == grid_of(tiles@, w as int, h as int)
        },
        r is Err ==> {
            let i = r.unwrap_err() as int;
            &&& 0 <= i < tiles@.len()
            &&& !in_grid(tiles@[i], w as int, h as int)
            &&& forall|j: int| 0 <= j < i ==> in_grid(#[trigger] tiles@[j], w as int, h as int)
        },
{
    let mut grid: VecGrid<Tile> = VecGrid::new(w, h);
    proof {
        assert(grid.cells() =~= grid_of(tiles@.subrange(0, 0), w as int, h as int));
    }
    let mut i: usize = 0;
    while i < tiles.len()
        invariant
            0 <= i <= tiles@.len(),
            grid.wf(),
            grid.spec_width() == w,
            grid.spec_height() == h,
            grid.cells() == grid_of(tiles@.subrange(0, i as int), w as int, h as int),
            forall|j: int| 0 <= j < i ==> in_grid(#[trigger] tiles@[j], w as int, h as int),
        decreases tiles@.len() - i,
    {
        let t = tiles[i];
        proof {
            assert(tiles@.subrange(0, i + 1).drop_last() =~= tiles@.subrange(0, i as int));
            assert(tiles@.subrange(0, i + 1).last() == t);
        }
        if t.x < 0 || t.y < 0 || t.x as u64 >= w as u64 || t.y as u64 >= h as u64 {
            return Err(i);
        }
        let _ = grid.set(t, t.x as usize, t.y as usize);
        i = i + 1;
    }
    proof {
        assert(tiles@.subrange(0, tiles@.len() as int) =~= tiles@);
    }
    Ok(grid)
}

/// Why an edit of a tilemap was refused.
#[derive(Debug, Clone, Copy, PartialEq, Eq, Structural)]
pub enum EditError {
    /// There is no layer of that number.
    LayerNotFound,
    /// The position lies outside the layer's grid.
    OutOfBounds,
}

/// Whether rows of ids form a non-empty rectangle whose cells and pixel
/// anchors fit the machine's integers.
pub open spec fn map_fits(rows: Seq<Seq<u32>>, tile_width: int, tile_height: int) -> bool {
    &&& rows.len() > 0
    &&& forall|x: int| 0 <= x < rows.len() ==> (#[trigger] rows[x]).len() == rows[0].len()
    &&& rows.len() * rows[0].len() <= usize::MAX
    &&& rows.len() * tile_width <= i64::MAX
    &&& rows[0].len() * tile_height <= i64::MAX
}

/// The cells of a layer built from rows of ids: cell `(x, y)` holds a plain
/// tile with id `rows[x][y]` anchored at the cell's corner.
pub open spec fn map_cells(rows: Seq<Seq<u32>>, tile_width: int, tile_height: int) -> Seq<Option<Tile>> {
    let w = rows.len() as int;
    let h = rows[0].len() as int;
    Seq::new(
        (w * h) as nat,
        |i: int|
            Some(
                Tile::spec_plain(
                    rows[i % w][i / w],
                    (i % w) as i64,
                    (i / w) as i64,
                    ((i % w) * tile_width) as i64,
                    ((i / w) * tile_height) as i64,
                ),
            ),
    )
}

/// A cell after ids `old_id` are replaced by `new_id`, or removed when
/// `new_id` is nothing.
pub open spec fn replaced(c: Option<Tile>, old_id: u32, new_id: Option<u32>) -> Option<Tile> {
    match c {
        Some(t) => if t.id == old_id {
            match new_id {
                Some(id) => Some(Tile { id, ..t }),
                None => None,
            }
        } else {
            c
        },
        None => None,
    }
}

/// The cells of a layer after `replace_all_tileid`.
pub open spec fn replace_cells(cells: Seq<Option<Tile>>, old_id: u32, new_id: Option<u32>) -> Seq<Option<Tile>> {
    cells.map_values(|c: Option<Tile>| replaced(c, old_id, new_id))
}

/// Replacing an id by nothing leaves no tile with that id and every other
/// tile where it was.
pub proof fn lemma_replace_removes(cells: Seq<Option<Tile>>, old_id: u32)
    ensures
        forall|i: int|
            0 <= i < cells.len() ==> !(#[trigger] replace_cells(cells, old_id, None)[i] matches Some(t) && t.id == old_id),
        forall|i: int|
            0 <= i < cells.len() && (cells[i] matches Some(t) && t.id != old_id) ==> #[trigger] replace_cells(cells, old_id, None)[i] == cells[i],
        forall|i: int|
            0 <= i < cells.len() && cells[i] is None ==> #[trigger] replace_cells(cells, old_id, None)[i] is None,
{
}

} // verus!
