use tilegrid::tile::Rect;
use tilegrid::tile_animation::TileAnimation;
use tilegrid::tilemap::Tilemap;

const SECOND: u64 = 1_000_000_000;

fn atlas() -> Tilemap {
    Tilemap::new(Rect::new(0, 0, 30, 10), 10, 10, 1, 1)
}

#[test]
fn repeating_animation_moves_on_and_wraps() {
    let map = atlas();
    let mut a = TileAnimation::new(&map, &[0, 1, 2], vec![SECOND, SECOND, SECOND]).unwrap();
    a.advance_by(SECOND / 2);
    assert_eq!(a.current_frame(), 0);
    assert_eq!(a.draw(), Rect::new(0, 0, 10, 10));
    a.advance_by(SECOND * 6 / 10);
    assert_eq!(a.current_frame(), 1);
    assert_eq!(a.timer(), SECOND / 10);
    assert_eq!(a.draw(), Rect::new(10, 0, 10, 10));
    a.advance_by(2 * SECOND);
    assert_eq!(a.current_frame(), 0);
    assert_eq!(a.timer(), SECOND / 10);
    a.restart();
    assert_eq!((a.current_frame(), a.timer()), (0, 0));
}

#[test]
fn once_animation_stops_on_last_frame_and_clamps() {
    let map = atlas();
    let mut a = TileAnimation::once(&map, &[0, 1, 2], vec![SECOND, SECOND, SECOND]).unwrap();
    a.advance_by(SECOND / 2);
    assert_eq!(a.current_frame(), 0);
    a.advance_by(SECOND * 6 / 10);
    assert_eq!(a.current_frame(), 1);
    a.advance_by(5 * SECOND);
    assert_eq!(a.current_frame(), 2);
    assert_eq!(a.timer(), SECOND);
    assert_eq!(a.draw(), Rect::new(20, 0, 10, 10));
    a.advance_by(SECOND);
    assert_eq!((a.current_frame(), a.timer()), (2, SECOND));
}

#[test]
fn missing_durations_repeat_the_first_and_unknown_ids_fail() {
    let map = atlas();
    let mut a = TileAnimation::new(&map, &[2, 1, 0], vec![SECOND]).unwrap();
    a.advance_by(2 * SECOND);
    assert_eq!(a.current_frame(), 2);
    assert_eq!(a.draw(), Rect::new(0, 0, 10, 10));
    assert!(TileAnimation::new(&map, &[0, 7], vec![SECOND]).is_none());
    assert!(TileAnimation::once(&map, &[5], vec![SECOND]).is_none());
}

#[test]
fn zero_length_frames_are_skipped() {
    let map = atlas();
    let mut a = TileAnimation::new(&map, &[0, 1, 2], vec![SECOND, 0, 0]).unwrap();
    a.advance_by(SECOND);
    assert_eq!(a.current_frame(), 0);
    assert_eq!(a.timer(), 0);
}
