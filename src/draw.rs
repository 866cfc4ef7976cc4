//! What drawing a tilemap produces: one command per drawn tile, with
//! viewport culling on the tile's draw position.
use vstd::prelude::*;
use crate::tile::{Color, Rect, Rotation, Tile};
use crate::tilemap::TilemapView;

verus! {

/// One textured quad: where it goes, which atlas rectangle it shows, how it
/// is turned and mirrored, and its tint.
#[derive(Debug, Clone, Copy, PartialEq, Eq, Structural)]
pub struct DrawCommand {
    pub x: i128,
    pub y: i128,
    pub clip: Rect,
    pub rotation: Rotation,
    pub scale_x: i8,
    pub scale_y: i8,
    pub color: Color,
}

/// Whether the viewport holds point `(x, y)`, its edges included.
pub open spec fn spec_is_inside_viewport(vp: Rect, x: int, y: int) -> bool {
    !(x < vp.x || y < vp.y || x > vp.x + vp.width || y > vp.y + vp.height)
}

/// Whether a tile at draw position `(x, y)` survives culling: the zero
/// viewport culls nothing, any other culls what lies outside it.
pub open spec fn should_draw(vp: Rect, x: int, y: int) -> bool {
    vp.spec_is_zero() || spec_is_inside_viewport(vp, x, y)
}

/// Culling tests the draw position alone against the viewport's edges,
/// which count as inside: a point on an edge or corner is drawn, a point one
/// pixel beyond an edge is not, and the zero viewport draws every point.
pub proof fn lemma_viewport_culling(vp: Rect, x: int, y: int)
    requires
        vp.width >= 0,
        vp.height >= 0,
    ensures
        should_draw(vp, vp.x as int, vp.y as int),
        should_draw(vp, vp.x + vp.width, vp.y + vp.height),
        should_draw(vp, vp.x as int, vp.y + vp.height),
        should_draw(vp, vp.x + vp.width, vp.y as int),
        !vp.spec_is_zero() ==> !should_draw(vp, vp.x - 1, y),
        !vp.spec_is_zero() ==> !should_draw(vp, x, vp.y - 1),
        !vp.spec_is_zero() ==> !should_draw(vp, vp.x + vp.width + 1, y),
        !vp.spec_is_zero() ==> !should_draw(vp, x, vp.y + vp.height + 1),
        vp.spec_is_zero() ==> should_draw(vp, x, y),
{
}

/// The quad of tile `t` moved by `(ox, oy)`.
pub open spec fn tile_command(t: Tile, v: TilemapView, ox: int, oy: int, color: Color) -> DrawCommand {
    DrawCommand {
        x: (ox + t.position_x) as i128,
        y: (oy + t.position_y) as i128,
        clip: v.rects[t.id as int],
        rotation: t.rotation,
        scale_x: t.scale_x,
        scale_y: t.scale_y,
        color,
    }
}

/// Whether tile `t` moved by `(ox, oy)` is drawn: its id has a rectangle and
/// it survives culling.
pub open spec fn tile_drawn(t: Tile, v: TilemapView, ox: int, oy: int) -> bool {
    t.id < v.rects.len() && should_draw(v.viewport, ox + t.position_x, oy + t.position_y)
}

/// The quads of a layer's cells, in cell order.
pub open spec fn layer_commands(cells: Seq<Option<Tile>>, v: TilemapView, ox: int, oy: int, color: Color) -> Seq<DrawCommand>
    decreases cells.len(),
{
    if cells.len() == 0 {
        seq![]
    } else {
        let prev = layer_commands(cells.drop_last(), v, ox, oy, color);
        match cells.last() {
            Some(t) => if tile_drawn(t, v, ox, oy) {
                prev.push(tile_command(t, v, ox, oy, color))
            } else {
                prev
            },
            None => prev,
        }
    }
}

/// Whether layer `k` is drawn: it is visible and selected.
pub open spec fn layer_drawn(v: TilemapView, k: int, layer_to_draw: Option<usize>) -> bool {
    v.layers[k].visibility && (layer_to_draw is None || layer_to_draw == Some(k as usize))
}

/// The quads of the first `n` layers, in layer order.
pub open spec fn draw_list(v: TilemapView, n: int, ox: int, oy: int, layer_to_draw: Option<usize>) -> Seq<DrawCommand>
    decreases n,
{
    if n <= 0 {
        seq![]
    } else {
        let prev = draw_list(v, n - 1, ox, oy, layer_to_draw);
        if layer_drawn(v, n - 1, layer_to_draw) {
            prev + layer_commands(v.layers[n - 1].cells, v, ox, oy, v.layers[n - 1].color)
        } else {
            prev
        }
    }

}

} // verus!
