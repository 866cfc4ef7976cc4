//! A tile-grid engine: layered sparse grids of tiles decoded from two map
//! editors' documents, an atlas-rectangle table, viewport culling and
//! flipbook animation of tiles.

pub mod atlas;
pub mod draw;
pub mod error;
pub mod grid;
pub mod pyxeledit;
pub mod text;
pub mod tile;
pub mod tile_animation;
pub mod tiled;
pub mod tilemap;
