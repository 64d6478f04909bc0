use raytracer::schedule::WorkList;
use raytracer::tile::{make_tiles, Tile};

fn tile(x_start: u32, x_end: u32, y_start: u32, y_end: u32) -> Tile {
    Tile { x_start, x_end, y_start, y_end }
}

#[test]
fn tiles_are_row_major_and_cut_at_the_edges() {
    let tiles = make_tiles(10, 7, 4);
    assert_eq!(
        tiles,
        vec![
            tile(0, 4, 0, 4),
            tile(4, 8, 0, 4),
            tile(8, 10, 0, 4),
            tile(0, 4, 4, 7),
            tile(4, 8, 4, 7),
            tile(8, 10, 4, 7),
        ]
    );
}

#[test]
fn tiles_of_an_exact_multiple_are_full() {
    let tiles = make_tiles(8, 8, 4);
    assert_eq!(
        tiles,
        vec![tile(0, 4, 0, 4), tile(4, 8, 0, 4), tile(0, 4, 4, 8), tile(4, 8, 4, 8)]
    );
}

#[test]
fn one_tile_when_the_side_exceeds_the_image() {
    assert_eq!(make_tiles(3, 2, 100), vec![tile(0, 3, 0, 2)]);
}

#[test]
fn no_tiles_for_an_empty_image() {
    assert!(make_tiles(0, 5, 4).is_empty());
    assert!(make_tiles(5, 0, 4).is_empty());
}

#[test]
fn every_pixel_lies_in_exactly_one_tile() {
    let (width, height) = (400u32, 225u32);
    let tiles = make_tiles(width, height, 100);
    assert_eq!(tiles.len(), 4 * 3);
    for y in 0..height {
        for x in 0..width {
            let holders = tiles.iter().filter(|t| t.contains(x, y)).count();
            assert_eq!(holders, 1, "pixel ({}, {})", x, y);
        }
    }
}

#[test]
fn contains_is_half_open() {
    let t = tile(2, 4, 5, 7);
    assert!(t.contains(2, 5));
    assert!(t.contains(3, 6));
    assert!(!t.contains(4, 5));
    assert!(!t.contains(2, 7));
    assert!(!t.contains(1, 5));
}

#[test]
fn tile_pixels_are_row_major() {
    let t = tile(2, 4, 5, 7);
    assert_eq!(t.pixels(), vec![(2, 5), (3, 5), (2, 6), (3, 6)]);
    assert!(tile(3, 3, 0, 2).pixels().is_empty());
}

#[test]
fn work_list_hands_out_the_last_tile_first() {
    let mut work = WorkList::new(vec![tile(0, 1, 0, 1), tile(1, 2, 0, 1)]);
    assert_eq!(work.len(), 2);
    assert_eq!(work.pop(), Some(tile(1, 2, 0, 1)));
    assert_eq!(work.pop(), Some(tile(0, 1, 0, 1)));
    assert!(work.is_empty());
    assert_eq!(work.pop(), None);
    assert_eq!(work.pop(), None);
}

#[test]
fn work_list_for_an_image_holds_its_partition() {
    let mut work = WorkList::for_image(10, 7, 4);
    assert_eq!(work.len(), 6);
    let mut handed_out = Vec::new();
    while let Some(t) = work.pop() {
        handed_out.push(t);
    }
    handed_out.reverse();
    assert_eq!(handed_out, make_tiles(10, 7, 4));
}
