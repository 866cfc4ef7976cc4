use tilegrid::error::{DecodeError, DocumentKind, Fault};
use tilegrid::pyxeledit::{self, Layers, PyxelTilemap};
use tilegrid::text::{contains, parse_cells};
use tilegrid::tile::{Rect, Rotation};
use tilegrid::tiled::{
    creates_tiles, decode_gid, default_data, default_i64, default_string, default_u32, default_vec, encode_gid,
    is_tmx, remodel_json, remodel_tmx, tiled_orientation, Data, JsonLayer, JsonTilemap, TmxLayer, TmxTilemap,
    Tileset,
};
use tilegrid::tilemap::Tilemap;

fn tileset(firstgid: u32) -> Tileset {
    Tileset { firstgid, source: "tiles.tsx".to_string() }
}

fn tmx_layer(id: i32, name: &str, width: i64, height: i64, text: &str) -> TmxLayer {
    TmxLayer {
        id,
        name: name.to_string(),
        width,
        height,
        data: Data { encoding: "csv".to_string(), tile_data: text.to_string() },
        tiles: Vec::new(),
    }
}

fn tmx(width: i32, height: i32, tile: i64, tilesets: Vec<Tileset>, layers: Vec<TmxLayer>) -> TmxTilemap {
    TmxTilemap {
        version: "1.2".to_string(),
        tiledversion: "1.3.1".to_string(),
        orientation: "orthogonal".to_string(),
        renderorder: "right-down".to_string(),
        width,
        height,
        tile_width: tile,
        tile_height: tile,
        tilesets,
        layers,
    }
}

fn json_layer(id: i32, name: &str, kind: &str, width: i64, data: Vec<u32>) -> JsonLayer {
    JsonLayer { id, name: name.to_string(), layer_type: kind.to_string(), width, height: 2, data }
}

fn pyxel_tile(id: i32, x: i64, y: i64, flip_x: bool, rot: i8) -> pyxeledit::Tile {
    pyxeledit::Tile {
        id,
        x,
        y,
        flip_x,
        index: 0,
        rotation_id: rot,
        position_x: 0,
        position_y: 0,
        rotation: Rotation::Zero,
        scale_x: 0,
        scale_y: 0,
    }
}

#[test]
fn packed_id_round_trip_keeps_flags_and_id() {
    let v: u32 = 0xA000_0005;
    let (id, flags) = decode_gid(v, 1).unwrap();
    assert_eq!(id, 4);
    assert_eq!(flags, 10);
    assert_eq!(id + 1, v & 0x1FFF_FFFF);
    assert_eq!(encode_gid(id, flags, 1), v);
    assert_eq!(decode_gid(0x0000_0003, 5), None);
}

#[test]
fn orientation_table_of_packed_flags() {
    let o = tiled_orientation(2);
    assert_eq!((o.rotation, o.scale_x, o.scale_y, o.shift_x, o.shift_y), (Rotation::Quarter, 1, -1, false, false));
    let o = tiled_orientation(4);
    assert_eq!((o.rotation, o.scale_x, o.scale_y, o.shift_x, o.shift_y), (Rotation::Zero, 1, -1, false, true));
    let o = tiled_orientation(6);
    assert_eq!((o.rotation, o.scale_x, o.scale_y, o.shift_x, o.shift_y), (Rotation::ThreeQuarters, 1, 1, false, true));
    let o = tiled_orientation(8);
    assert_eq!((o.rotation, o.scale_x, o.scale_y, o.shift_x, o.shift_y), (Rotation::Zero, -1, 1, true, false));
    let o = tiled_orientation(10);
    assert_eq!((o.rotation, o.scale_x, o.scale_y, o.shift_x, o.shift_y), (Rotation::Quarter, 1, 1, true, false));
    let o = tiled_orientation(12);
    assert_eq!((o.rotation, o.scale_x, o.scale_y, o.shift_x, o.shift_y), (Rotation::Half, 1, 1, true, true));
    let o = tiled_orientation(14);
    assert_eq!((o.rotation, o.scale_x, o.scale_y, o.shift_x, o.shift_y), (Rotation::Quarter, -1, 1, true, true));
    let o = tiled_orientation(0);
    assert_eq!((o.rotation, o.scale_x, o.scale_y, o.shift_x, o.shift_y), (Rotation::Zero, 1, 1, false, false));
    assert_eq!(Rotation::Quarter.centiradians(), 157);
    assert_eq!(Rotation::Half.centiradians(), 314);
    assert_eq!(Rotation::ThreeQuarters.centiradians(), 471);
}

#[test]
fn tiled_positions_follow_grid_and_shift() {
    let nums = vec![2, 0, 0x8000_0003, 0x4000_0002, 0xC000_0001, 0];
    let tiles = creates_tiles(&nums, 3, 16, 8, 1).unwrap();
    assert_eq!(tiles.len(), 4);
    assert_eq!((tiles[0].id, tiles[0].x, tiles[0].y, tiles[0].position_x, tiles[0].position_y), (1, 0, 0, 0, 0));
    assert_eq!((tiles[1].id, tiles[1].x, tiles[1].y, tiles[1].position_x, tiles[1].position_y), (2, 2, 0, 48, 0));
    assert_eq!(tiles[1].scale_x, -1);
    assert_eq!((tiles[2].id, tiles[2].x, tiles[2].y, tiles[2].position_x, tiles[2].position_y), (1, 0, 1, 0, 16));
    assert_eq!(tiles[2].scale_y, -1);
    assert_eq!((tiles[3].id, tiles[3].x, tiles[3].y, tiles[3].position_x, tiles[3].position_y), (0, 1, 1, 32, 16));
    assert_eq!(tiles[3].rotation, Rotation::Half);
}

#[test]
fn tiled_cell_below_first_gid_is_refused() {
    assert_eq!(creates_tiles(&[5, 3], 2, 16, 16, 4), Err(1));
}

#[test]
fn cell_text_is_read_with_line_breaks_removed() {
    assert_eq!(parse_cells("\r\n1,2,3,\r\n4,5,6\n"), Some(vec![1, 2, 3, 4, 5, 6]));
    assert_eq!(parse_cells("4294967295"), Some(vec![4294967295]));
    assert_eq!(parse_cells("4294967296"), None);
    assert_eq!(parse_cells("1,x"), None);
    assert_eq!(parse_cells("1,,2"), None);
    assert_eq!(parse_cells(""), None);
}

#[test]
fn substring_search_and_format_detection() {
    assert!(contains("a tilelayer here", "tilelayer"));
    assert!(!contains("objectgroup", "tilelayer"));
    assert!(contains("abc", ""));
    assert!(is_tmx("<?xml version=\"1.0\"?><map/>"));
    assert!(!is_tmx("{\"layers\": []}"));
}

#[test]
fn serde_defaults_are_empty() {
    assert_eq!(default_i64(), 0);
    assert_eq!(default_u32(), 0);
    assert_eq!(default_vec::<u8>().len(), 0);
    assert_eq!(default_string(), "");
    assert_eq!(default_data().len(), 0);
}

#[test]
fn tmx_document_decodes_layers_in_order() {
    let doc = tmx(
        2,
        2,
        16,
        vec![tileset(1)],
        vec![tmx_layer(1, "ground", 2, 2, "\n1,2,\n0,3\n"), tmx_layer(2, "top", 2, 2, "0,0,0,0x")],
    );
    let err = remodel_tmx(&doc).unwrap_err();
    assert_eq!(err, DecodeError { document: DocumentKind::TiledXml, fault: Fault::CellData { layer: 1 } });
    let doc = tmx(
        2,
        2,
        16,
        vec![tileset(1)],
        vec![tmx_layer(1, "ground", 2, 2, "\n1,2,\n0,3\n"), tmx_layer(2, "top", 2, 2, "0,0,0,2147483652")],
    );
    let map = remodel_tmx(&doc).unwrap();
    assert_eq!(map.document, DocumentKind::TiledXml);
    assert_eq!((map.tilewidth, map.tileheight, map.tile_width, map.tile_height), (2, 2, 16, 16));
    assert_eq!(map.layers.len(), 2);
    assert_eq!(map.layers[0].name, "ground");
    assert_eq!(map.layers[0].tiles.len(), 3);
    assert_eq!(map.layers[0].tiles[2].id, 2);
    assert_eq!((map.layers[0].tiles[2].x, map.layers[0].tiles[2].y), (1, 1));
    let t = map.layers[1].tiles[0];
    assert_eq!((t.id, t.x, t.y, t.position_x, t.position_y, t.scale_x), (3, 1, 1, 32, 16, -1));
}

#[test]
fn tmx_document_faults() {
    let no_tileset = tmx(2, 2, 16, vec![], vec![]);
    assert_eq!(remodel_tmx(&no_tileset).unwrap_err().fault, Fault::MissingTileset);
    let zero_size = tmx(2, 2, 0, vec![tileset(1)], vec![]);
    assert_eq!(remodel_tmx(&zero_size).unwrap_err().fault, Fault::TileSize);
    let negative = tmx(-1, 2, 16, vec![tileset(1)], vec![]);
    assert_eq!(remodel_tmx(&negative).unwrap_err().fault, Fault::GridSize);
    let bad_width = tmx(2, 2, 16, vec![tileset(1)], vec![tmx_layer(1, "a", 0, 2, "1,2")]);
    assert_eq!(remodel_tmx(&bad_width).unwrap_err().fault, Fault::LayerWidth { layer: 0 });
    let low_gid = tmx(2, 2, 16, vec![tileset(3)], vec![tmx_layer(1, "a", 2, 2, "3,0,2,4")]);
    assert_eq!(remodel_tmx(&low_gid).unwrap_err().fault, Fault::Tile { layer: 0, index: 2 });
}

#[test]
fn json_document_keeps_only_tile_layers() {
    let doc = JsonTilemap {
        tiledversion: "1.3.1".to_string(),
        orientation: "orthogonal".to_string(),
        renderorder: "right-down".to_string(),
        width: 2,
        height: 2,
        tile_width: 8,
        tile_height: 8,
        tilesets: vec![tileset(1)],
        layers: vec![
            json_layer(1, "objects", "objectgroup", 0, vec![]),
            json_layer(2, "floor", "tilelayer", 2, vec![1, 0, 0, 0x2000_0002]),
        ],
    };
    let map = remodel_json(&doc).unwrap();
    assert_eq!(map.document, DocumentKind::TiledJson);
    assert_eq!(map.layers.len(), 1);
    assert_eq!(map.layers[0].name, "floor");
    assert_eq!(map.layers[0].id, 2);
    let t = map.layers[0].tiles[1];
    assert_eq!((t.id, t.x, t.y, t.position_x, t.position_y, t.rotation, t.scale_y), (1, 1, 1, 8, 8, Rotation::Quarter, -1));
    let bad = JsonTilemap { layers: vec![json_layer(5, "floor", "tilelayer", -2, vec![1])], ..doc };
    assert_eq!(remodel_json(&bad).unwrap_err(), DecodeError { document: DocumentKind::TiledJson, fault: Fault::LayerWidth { layer: 0 } });
}

#[test]
fn pyxel_shift_table_and_empty_entries() {
    let mut doc = PyxelTilemap {
        tileshigh: 4,
        tileswide: 4,
        tile_height: 8,
        tile_width: 16,
        layers: vec![Layers {
            number: 0,
            name: "only".to_string(),
            tiles: vec![
                pyxel_tile(-1, 0, 0, false, 0),
                pyxel_tile(1, 1, 1, false, 0),
                pyxel_tile(2, 1, 1, false, 1),
                pyxel_tile(3, 1, 1, false, 2),
                pyxel_tile(4, 1, 1, false, 3),
                pyxel_tile(5, 1, 1, true, 0),
                pyxel_tile(6, 1, 1, true, 1),
                pyxel_tile(7, 1, 1, true, 2),
                pyxel_tile(8, 1, 1, true, 3),
            ],
        }],
    };
    pyxeledit::remodel(&mut doc).unwrap();
    let t = &doc.layers[0].tiles;
    assert_eq!(t.len(), 8);
    let got: Vec<(i64, i64, i8)> = t.iter().map(|t| (t.position_x, t.position_y, t.scale_x)).collect();
    assert_eq!(
        got,
        vec![(16, 8, 1), (32, 8, 1), (32, 16, 1), (16, 16, 1), (32, 8, -1), (32, 16, -1), (16, 16, -1), (16, 8, -1)]
    );
    assert_eq!(t[1].rotation, Rotation::Quarter);
    assert_eq!(t[7].rotation, Rotation::ThreeQuarters);
}

#[test]
fn pyxel_faults_leave_document_unchanged() {
    let mut doc = PyxelTilemap {
        tileshigh: 2,
        tileswide: 2,
        tile_height: 8,
        tile_width: 8,
        layers: vec![Layers { number: 0, name: "a".to_string(), tiles: vec![pyxel_tile(1, 0, 0, false, 0), pyxel_tile(1, 2, 0, false, 0)] }],
    };
    let err = pyxeledit::remodel(&mut doc).unwrap_err();
    assert_eq!(err, DecodeError { document: DocumentKind::PyxelEdit, fault: Fault::Tile { layer: 0, index: 1 } });
    assert_eq!(doc.layers[0].tiles.len(), 2);
    let mut doc = PyxelTilemap { tileshigh: 2, tileswide: 2, tile_height: 8, tile_width: 8, layers: vec![Layers { number: 0, name: "a".to_string(), tiles: vec![pyxel_tile(1, 0, 0, false, 4)] }] };
    assert_eq!(pyxeledit::remodel(&mut doc).unwrap_err().fault, Fault::Tile { layer: 0, index: 0 });
    let mut doc = PyxelTilemap { tileshigh: 2, tileswide: 2, tile_height: 0, tile_width: 8, layers: vec![] };
    assert_eq!(pyxeledit::remodel(&mut doc).unwrap_err().fault, Fault::TileSize);
}

#[test]
fn pyxel_map_layers_are_reversed() {
    let doc = PyxelTilemap {
        tileshigh: 2,
        tileswide: 2,
        tile_height: 10,
        tile_width: 10,
        layers: vec![
            Layers { number: 1, name: "top".to_string(), tiles: vec![pyxel_tile(3, 1, 0, false, 0)] },
            Layers { number: 0, name: "bottom".to_string(), tiles: vec![pyxel_tile(2, 0, 1, true, 0)] },
        ],
    };
    let map = Tilemap::from_pyxeledit(Rect::new(0, 0, 20, 20), doc).unwrap();
    assert_eq!(map.layer_count(), 2);
    assert_eq!(map.get_layer_name(0), Some("bottom"));
    assert_eq!(map.get_layer_name(1), Some("top"));
    assert_eq!(map.get_id_at(0, 0, 1), Some(2));
    assert_eq!(map.get_id_at(1, 1, 0), Some(3));
    assert_eq!(map.get_id_at(1, 0, 0), None);
    assert_eq!(map.get_position_from_id(0, 2), (10, 10));
    assert_eq!(map.get_position_from_id(1, 3), (10, 0));
}

#[test]
fn pyxel_map_atlas_fault() {
    let doc = PyxelTilemap { tileshigh: 1, tileswide: 1, tile_height: 10, tile_width: 10, layers: vec![] };
    let err = Tilemap::from_pyxeledit(Rect::new(i64::MAX, 0, 20, 20), doc).unwrap_err();
    assert_eq!(err, DecodeError { document: DocumentKind::PyxelEdit, fault: Fault::Atlas });
}
