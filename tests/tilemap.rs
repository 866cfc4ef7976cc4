use tilegrid::error::{DocumentKind, Fault};
use tilegrid::grid::{IndexError, VecGrid};
use tilegrid::tile::{Color, Rect, Rotation, Tile};
use tilegrid::tiled::{Layer, TiledTilemap};
use tilegrid::atlas::get_tile_rectangles;
use tilegrid::tilemap::{EditError, Tilemap};

fn map_2x2() -> Tilemap {
    let mut map = Tilemap::new(Rect::new(0, 0, 20, 20), 10, 10, 2, 2);
    map.set_tiles_from_map(0, &[vec![0, 1], vec![2, 3]]);
    map
}

#[test]
fn atlas_table_reads_left_to_right_then_down() {
    let table = get_tile_rectangles(Rect::new(0, 0, 20, 20), 10, 10);
    assert_eq!(
        table,
        vec![Rect::new(0, 0, 10, 10), Rect::new(10, 0, 10, 10), Rect::new(0, 10, 10, 10), Rect::new(10, 10, 10, 10)]
    );
    let wide = get_tile_rectangles(Rect::new(5, 7, 30, 20), 10, 10);
    assert_eq!(wide.len(), 6);
    assert_eq!(wide[3], Rect::new(5, 17, 10, 10));
    let uneven = get_tile_rectangles(Rect::new(0, 0, 25, 19), 10, 10);
    assert_eq!(uneven.len(), 2);
    assert_eq!(get_tile_rectangles(Rect::new(0, 0, -20, 20), 10, 10).len(), 0);
    let tall = get_tile_rectangles(Rect::new(0, 0, 16, 32), 16, 8);
    assert_eq!(tall.len(), 4);
    assert_eq!(tall[1], Rect::new(0, 8, 16, 8));
}

#[test]
fn grid_set_get_delete_and_count() {
    let mut g: VecGrid<u32> = VecGrid::new(3, 2);
    assert_eq!(g.set(7, 2, 1), Ok(()));
    assert_eq!(g.get(2, 1), Some(&7));
    assert_eq!(g.set(8, 3, 0), Err(IndexError::OutOfBounds));
    assert_eq!(g.set(9, 0, 2), Err(IndexError::OutOfBounds));
    assert_eq!(g.get(3, 0), None);
    assert_eq!(g.set(1, 0, 0), Ok(()));
    assert_eq!(g.set(2, 0, 0), Ok(()));
    assert_eq!(g.get(0, 0), Some(&2));
    assert_eq!(g.get_data().iter().filter(|c| c.is_some()).count(), 2);
    assert_eq!(g.get_data()[5], Some(7));
    g.delete(2, 1);
    assert_eq!(g.get(2, 1), None);
    assert_eq!(g.get_data().len(), 6);
    assert_eq!(g.get_data().iter().filter(|c| c.is_some()).count(), 1);
    if let Some(v) = g.get_mut(0, 0) {
        *v = 40;
    }
    assert_eq!(g.get(0, 0), Some(&40));
    assert!(g.get_mut(1, 1).is_none());
}

#[test]
fn dense_layer_from_rows_of_ids() {
    let map = map_2x2();
    assert_eq!(map.get_id_at(0, 0, 0), Some(0));
    assert_eq!(map.get_id_at(0, 0, 1), Some(1));
    assert_eq!(map.get_id_at(0, 1, 0), Some(2));
    assert_eq!(map.get_id_at(0, 5, 5), None);
    assert_eq!(map.get_id_at(3, 0, 0), None);
    let mut map = map;
    map.set_tiles_from_map(4, &[vec![9, 8], vec![7, 6]]);
    assert_eq!(map.layer_count(), 2);
    assert_eq!(map.get_id_at(1, 0, 0), Some(9));
    assert_eq!(map.get_id_at(1, 1, 1), Some(6));
    assert_eq!(map.get_id_at(1, 2, 0), None);
    assert_eq!(map.get_layer_name(1), Some(""));
    assert_eq!(map.get_layer_name(2), None);
}

#[test]
fn lookups_by_pixel_position() {
    let map = map_2x2();
    assert_eq!(map.get_id_at_position(0, 15, 3), Some(2));
    assert_eq!(map.get_id_at_position(0, 19, 19), Some(3));
    assert_eq!(map.get_id_at_position(0, 20, 0), None);
    assert_eq!(map.get_id_at_position(0, -1, 0), None);
    assert_eq!(map.get_position_from_id(0, 3), (10, 10));
    assert_eq!(map.get_position_from_id(0, 2), (10, 0));
    assert_eq!(map.get_position_from_id(0, 0), (0, 0));
    assert_eq!(map.get_position_from_id(0, 42), (0, 0));
    assert_eq!(map.get_position_from_id(7, 0), (0, 0));
}

#[test]
fn set_tile_id_creates_or_rewrites() {
    let mut map = Tilemap::new(Rect::new(0, 0, 20, 20), 10, 10, 2, 2);
    assert_eq!(map.set_tileid_at(0, 3, 15, 5), Ok(()));
    assert_eq!(map.get_id_at(0, 1, 0), Some(3));
    assert_eq!(map.set_tileid_at(0, 1, 12, 1), Ok(()));
    assert_eq!(map.get_id_at(0, 1, 0), Some(1));
    assert_eq!(map.set_tileid_at(0, 1, 25, 1), Err(EditError::OutOfBounds));
    assert_eq!(map.set_tileid_at(0, 1, -3, 1), Err(EditError::OutOfBounds));
    assert_eq!(map.set_tileid_at(2, 1, 1, 1), Err(EditError::LayerNotFound));
    let cmds = map.draw(0, 0, None);
    assert_eq!(cmds.len(), 1);
    assert_eq!((cmds[0].x, cmds[0].y), (10, 0));
    assert_eq!(cmds[0].clip, Rect::new(10, 0, 10, 10));
}

#[test]
fn replace_with_nothing_removes_matching_tiles_only() {
    let mut map = Tilemap::new(Rect::new(0, 0, 20, 20), 10, 10, 3, 2);
    map.set_tiles_from_map(0, &[vec![1, 2], vec![1, 3], vec![4, 1]]);
    assert_eq!(map.replace_all_tileid(0, 1, None), Ok(()));
    assert_eq!(map.get_id_at(0, 0, 0), None);
    assert_eq!(map.get_id_at(0, 1, 0), None);
    assert_eq!(map.get_id_at(0, 2, 1), None);
    assert_eq!(map.get_id_at(0, 0, 1), Some(2));
    assert_eq!(map.get_id_at(0, 1, 1), Some(3));
    assert_eq!(map.get_id_at(0, 2, 0), Some(4));
    assert_eq!(map.replace_all_tileid(0, 2, Some(0)), Ok(()));
    assert_eq!(map.get_id_at(0, 0, 1), Some(0));
    assert_eq!(map.replace_all_tileid(5, 2, None), Err(EditError::LayerNotFound));
}

#[test]
fn viewport_edges_are_inclusive() {
    let mut map = Tilemap::new(Rect::new(0, 0, 20, 20), 10, 10, 4, 4);
    map.set_tiles_from_map(0, &[vec![0, 0, 0, 0], vec![0, 0, 0, 0], vec![0, 0, 0, 0], vec![0, 0, 0, 0]]);
    assert_eq!(map.draw(0, 0, None).len(), 16);
    map.viewport(Rect::new(10, 10, 10, 10));
    let cmds = map.draw(0, 0, None);
    let points: Vec<(i128, i128)> = cmds.iter().map(|c| (c.x, c.y)).collect();
    assert_eq!(points, vec![(10, 10), (20, 10), (10, 20), (20, 20)]);
    let moved = map.draw(1, 0, None);
    let points: Vec<(i128, i128)> = moved.iter().map(|c| (c.x, c.y)).collect();
    assert_eq!(points, vec![(11, 10), (11, 20)]);
    map.viewport(Rect::new(0, 0, 0, 0));
    assert_eq!(map.draw(-1000, 5000, None).len(), 16);
}

#[test]
fn drawing_respects_visibility_selection_and_tint() {
    let mut map = map_2x2();
    map.set_tiles_from_map(1, &[vec![3, 9], vec![9, 9]]);
    assert_eq!(map.draw(0, 0, None).len(), 5);
    assert_eq!(map.draw(0, 0, Some(1)).len(), 1);
    assert_eq!(map.draw_layer(0, 0, 0).len(), 4);
    map.visibility(0, false);
    assert_eq!(map.draw(0, 0, None).len(), 1);
    assert_eq!(map.draw(0, 0, Some(0)).len(), 0);
    map.visibility(0, true);
    map.set_layer_to_draw(Some(1));
    map.color(Color::rgba(255, 0, 0, 255));
    let cmds = map.draw(0, 0, None);
    assert_eq!(cmds[0].color, Color::white());
    assert_eq!(cmds[4].color, Color::rgba(255, 0, 0, 255));
    map.set_layer_to_draw(None);
    map.color(Color::rgba(0, 0, 255, 128));
    assert!(map.draw(0, 0, None).iter().all(|c| c.color == Color::rgba(0, 0, 255, 128)));
    map.set_tileid_at(0, 99, 0, 0).unwrap();
    assert_eq!(map.draw(0, 0, Some(0)).len(), 3);
}

#[test]
fn layer_lookup_by_name() {
    let doc = TiledTilemap {
        document: DocumentKind::TiledJson,
        tilewidth: 2,
        tileheight: 2,
        tile_height: 10,
        tile_width: 10,
        layers: vec![
            Layer { id: 1, name: "ground".to_string(), width: 2, height: 2, tiles: vec![Tile::plain(1, 1, 1, 10, 10)] },
            Layer { id: 2, name: "sky".to_string(), width: 2, height: 2, tiles: vec![] },
        ],
    };
    let map = Tilemap::from_tiled(Rect::new(0, 0, 20, 20), doc).unwrap();
    assert_eq!(map.get_layer_id("sky"), Some(1));
    assert_eq!(map.get_layer_id("ground"), Some(0));
    assert_eq!(map.get_layer_id("water"), None);
    assert_eq!(map.get_id_at(0, 1, 1), Some(1));
}

#[test]
fn tiled_map_tile_off_the_grid_is_refused() {
    let doc = TiledTilemap {
        document: DocumentKind::TiledXml,
        tilewidth: 2,
        tileheight: 2,
        tile_height: 10,
        tile_width: 10,
        layers: vec![Layer { id: 1, name: "a".to_string(), width: 3, height: 1, tiles: vec![Tile::plain(1, 0, 0, 0, 0), Tile::plain(1, 2, 0, 20, 0)] }],
    };
    let err = Tilemap::from_tiled(Rect::new(0, 0, 20, 20), doc).unwrap_err();
    assert_eq!(err.document, DocumentKind::TiledXml);
    assert_eq!(err.fault, Fault::Tile { layer: 0, index: 1 });
}

#[test]
fn atlas_lookups_fail_safely() {
    let map = map_2x2();
    assert_eq!(map.get_clip_from_id(3), Some(Rect::new(10, 10, 10, 10)));
    assert_eq!(map.get_clip_from_id(4), None);
    assert_eq!(map.get_frames_from_ids(&[1, 0]), Some(vec![Rect::new(10, 0, 10, 10), Rect::new(0, 0, 10, 10)]));
    assert_eq!(map.get_frames_from_ids(&[1, 9]), None);
    let t = Tile::default();
    assert_eq!((t.id, t.position_x, t.rotation, t.scale_x, t.scale_y), (0, 0, Rotation::Zero, 1, 1));
}
