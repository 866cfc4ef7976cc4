//! Why a map document could not be decoded.
use vstd::prelude::*;

verus! {

/// The kind of document a decode was asked to read.
#[derive(Debug, Clone, Copy, PartialEq, Eq, Structural)]
pub enum DocumentKind {
    /// A PyxelEdit map: explicit rotation and flip fields per tile.
    PyxelEdit,
    /// A Tiled map in its XML form, cells as comma-separated text.
    TiledXml,
    /// A Tiled map in its JSON form, cells as an integer array.
    TiledJson,
}

/// What was wrong with a document.
#[derive(Debug, Clone, Copy, PartialEq, Eq, Structural)]
pub enum Fault {
    /// The text is not a document of the expected shape.
    Malformed,
    /// The document names no tileset.
    MissingTileset,
    /// A cell width or height is not positive.
    TileSize,
    /// The map's width or height is negative or its cell count too large.
    GridSize,
    /// The atlas clip cannot be cut into cells of the document's size.
    Atlas,
    /// Layer `layer` declares a row width that is not positive.
    LayerWidth { layer: usize },
    /// Layer `layer` holds cell data that is not a list of numbers.
    CellData { layer: usize },
    /// Entry `index` of layer `layer` cannot be placed on the map.
    Tile { layer: usize, index: usize },
}

/// A failed decode: which document, and what was wrong with it.
#[derive(Debug, Clone, Copy, PartialEq, Eq, Structural)]
pub struct DecodeError {
    pub document: DocumentKind,
    pub fault: Fault,
}

impl DecodeError {
    pub fn new(document: DocumentKind, fault: Fault) -> (e: DecodeError)
        ensures
            e == (DecodeError { document, fault }),
    {
        DecodeError { document, fault }
    }
}

} // verus!
