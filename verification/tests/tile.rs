use arenic::grid::ARENAS;
use arenic::tile::{ArenaTiles, H, W};

#[test]
fn lookup_index_is_unique_and_bounded() {
    assert_ne!(ArenaTiles::index(0, 1, 1), ArenaTiles::index(1, 1, 1), "different arenas must not collide");
    assert_eq!(ArenaTiles::index(0, 0, 0), Some(0));
    assert_eq!(ArenaTiles::index(ARENAS, 0, 0), None);
    assert_eq!(ArenaTiles::index(0, W, 0), None);
    assert_eq!(ArenaTiles::index(0, 0, H), None);
    assert_eq!(ArenaTiles::index(ARENAS - 1, W - 1, H - 1), Some(ARENAS * W * H - 1));
}

#[test]
fn lookup_reads_back_what_was_inserted() {
    let mut tiles = ArenaTiles::new();
    assert_eq!(tiles.get(3, 10, 5), None);
    tiles.insert(3, 10, 5, 77);
    assert_eq!(tiles.get(3, 10, 5), Some(77));
    assert_eq!(tiles.get(3, 10, 6), None);
    tiles.insert(99, 0, 0, 5);
    assert_eq!(tiles.get(99, 0, 0), None);
}
