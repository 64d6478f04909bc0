use raytracer::frame::FrameBuffer;
use raytracer::schedule::WorkList;
use raytracer::tile::{make_tiles, Tile};

fn shade(x: u32, y: u32) -> [u8; 3] {
    [x as u8, y as u8, (x * 7 + y * 3) as u8]
}

fn colors_of(t: &Tile) -> Vec<[u8; 3]> {
    t.pixels().iter().map(|&(x, y)| shade(x, y)).collect()
}

#[test]
fn new_buffer_is_black() {
    let fb = FrameBuffer::new(3, 2);
    assert_eq!(fb.width(), 3);
    assert_eq!(fb.height(), 2);
    for y in 0..2 {
        for x in 0..3 {
            assert_eq!(fb.pixel(x, y), [0, 0, 0]);
        }
    }
}

#[test]
fn put_pixel_sets_one_pixel() {
    let mut fb = FrameBuffer::new(3, 2);
    fb.put_pixel(2, 1, [10, 20, 30]);
    assert_eq!(fb.pixel(2, 1), [10, 20, 30]);
    assert_eq!(fb.pixel(1, 1), [0, 0, 0]);
    assert_eq!(fb.pixel(2, 0), [0, 0, 0]);
}

#[test]
fn write_tile_takes_colours_in_row_major_order() {
    let mut fb = FrameBuffer::new(4, 4);
    let t = Tile { x_start: 1, x_end: 3, y_start: 2, y_end: 4 };
    fb.write_tile(&t, &vec![[1, 1, 1], [2, 2, 2], [3, 3, 3], [4, 4, 4]]);
    assert_eq!(fb.pixel(1, 2), [1, 1, 1]);
    assert_eq!(fb.pixel(2, 2), [2, 2, 2]);
    assert_eq!(fb.pixel(1, 3), [3, 3, 3]);
    assert_eq!(fb.pixel(2, 3), [4, 4, 4]);
    assert_eq!(fb.pixel(0, 2), [0, 0, 0]);
    assert_eq!(fb.pixel(3, 3), [0, 0, 0]);
    assert_eq!(fb.pixel(1, 1), [0, 0, 0]);
}

#[test]
fn raw_bytes_are_row_major_rgb() {
    let mut fb = FrameBuffer::new(2, 2);
    fb.put_pixel(1, 0, [1, 2, 3]);
    fb.put_pixel(0, 1, [4, 5, 6]);
    let raw = fb.into_raw();
    assert_eq!(raw, vec![0, 0, 0, 1, 2, 3, 4, 5, 6, 0, 0, 0]);
}

#[test]
fn tiles_written_in_any_order_give_the_same_image() {
    let (width, height) = (10u32, 7u32);
    let tiles = make_tiles(width, height, 4);

    let mut forward = FrameBuffer::new(width, height);
    for t in &tiles {
        forward.write_tile(t, &colors_of(t));
    }

    let mut backward = FrameBuffer::new(width, height);
    let mut work = WorkList::for_image(width, height, 4);
    while let Some(t) = work.pop() {
        backward.write_tile(&t, &colors_of(&t));
    }

    for y in 0..height {
        for x in 0..width {
            assert_eq!(forward.pixel(x, y), shade(x, y));
        }
    }
    assert_eq!(forward.into_raw(), backward.into_raw());
}
