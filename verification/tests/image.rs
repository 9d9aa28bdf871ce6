use phoenix::gpu::{CmdResourceAttachBacking, Color, Image, Rectangle, ResourceIds, Tile, MAX_RESOURCES};

fn tile_at(img: &Image, x: u32, y: u32) -> u32 {
    img.tile(x, y).unwrap().0 .0
}

// An image one byte per cell (a tile index and no colors), `width` by `height`, where cell
// `(x, y)` shows tile `x + y * width`.
fn numbered(width: u32, height: u32) -> Image {
    let mut img = Image::new(1, 0, 0, width, height).unwrap();
    for y in 0 .. height {
        for x in 0 .. width {
            img.draw_rect_region(Rectangle::new(x, y, 1, 1), Tile(x + y * width));
        }
    }
    img
}

#[test]
fn draw_rect_region_is_cut_to_the_image() {
    let mut img = Image::new(1, 2, 8, 4, 3).unwrap();
    img.set_colors(0, &[Color(0xaa), Color(0xbb)]);
    img.draw_rect_region(Rectangle::new(1, 1, 5, 1), Tile(7));
    assert_eq!(img.tile(1, 1), Some((Tile(7), vec![Color(0xaa), Color(0xbb)])));
    assert_eq!(img.tile(3, 1), Some((Tile(7), vec![Color(0xaa), Color(0xbb)])));
    assert_eq!(img.tile(0, 1), Some((Tile(0), vec![Color(0), Color(0)])));
    assert_eq!(img.tile(1, 0), Some((Tile(0), vec![Color(0), Color(0)])));
    assert_eq!(img.tile(1, 2), Some((Tile(0), vec![Color(0), Color(0)])));
    assert_eq!(img.tile(4, 1), None);
    assert_eq!(img.tile(0, 3), None);
}

#[test]
fn tile_reads_little_endian_and_masks_colors() {
    let mut img = Image::new(2, 1, 12, 2, 1).unwrap();
    img.set_colors(0, &[Color(0xabcd)]);
    img.draw_rect_region(Rectangle::new(0, 0, 1, 1), Tile(0x1234_5678));
    // Only two bytes of the tile index are stored, and only 12 bits of the color are kept.
    assert_eq!(img.tile(0, 0), Some((Tile(0x5678), vec![Color(0xbcd)])));
    assert_eq!(img.colors(), &[Color(0xabcd)]);
    assert_eq!(img.tile_length(), 2);
    assert_eq!(img.colors_per_tile(), 1);
    assert_eq!(img.bits_per_color(), 12);
}

#[test]
fn blit_copies_the_source_rectangle_cut_to_the_destination() {
    let mut src = Image::new(1, 1, 8, 3, 2).unwrap();
    src.set_colors(0, &[Color(0x11)]);
    src.draw_rect_region(Rectangle::new(0, 0, 3, 2), Tile(5));
    src.draw_rect_region(Rectangle::new(2, 0, 1, 1), Tile(6));
    let mut dest = Image::new(1, 1, 8, 4, 4).unwrap();
    // Two rows are asked for; only one fits below row 3 of the destination.
    assert_eq!(dest.blit(&src, Rectangle::new(1, 0, 2, 2), 2, 3), Ok(()));
    assert_eq!(dest.tile(2, 3), Some((Tile(5), vec![Color(0x11)])));
    assert_eq!(dest.tile(3, 3), Some((Tile(6), vec![Color(0x11)])));
    assert_eq!(dest.tile(1, 3), Some((Tile(0), vec![Color(0)])));
    assert_eq!(dest.tile(2, 2), Some((Tile(0), vec![Color(0)])));
}

#[test]
fn blit_rejects_another_format() {
    let src = Image::new(2, 1, 8, 3, 2).unwrap();
    let mut dest = Image::new(1, 1, 8, 4, 4).unwrap();
    assert_eq!(dest.blit(&src, Rectangle::new(0, 0, 3, 2), 0, 0), Err(()));
}

#[test]
fn move_rect_left_copies_forwards() {
    let mut img = numbered(4, 2);
    img.move_rect(Rectangle::new(1, 0, 3, 2), 0, 0);
    let row0: Vec<u32> = (0 .. 4).map(|x| tile_at(&img, x, 0)).collect();
    let row1: Vec<u32> = (0 .. 4).map(|x| tile_at(&img, x, 1)).collect();
    assert_eq!(row0, vec![1, 2, 3, 3]);
    assert_eq!(row1, vec![5, 6, 7, 7]);
}

#[test]
fn move_rect_right_copies_backwards() {
    let mut img = numbered(4, 2);
    img.move_rect(Rectangle::new(0, 0, 3, 2), 1, 0);
    let row0: Vec<u32> = (0 .. 4).map(|x| tile_at(&img, x, 0)).collect();
    let row1: Vec<u32> = (0 .. 4).map(|x| tile_at(&img, x, 1)).collect();
    assert_eq!(row0, vec![0, 0, 1, 2]);
    assert_eq!(row1, vec![4, 4, 5, 6]);
}

#[test]
fn move_rect_up_moves_rows() {
    let mut img = numbered(3, 3);
    img.move_rect(Rectangle::new(0, 1, 3, 2), 0, 0);
    let rows: Vec<Vec<u32>> = (0 .. 3).map(|y| (0 .. 3).map(|x| tile_at(&img, x, y)).collect()).collect();
    assert_eq!(rows, vec![vec![3, 4, 5], vec![6, 7, 8], vec![6, 7, 8]]);
}

#[test]
fn move_rect_from_outside_moves_nothing() {
    let mut img = numbered(3, 2);
    img.move_rect(Rectangle::new(4, 0, 1, 1), 0, 0);
    let rows: Vec<Vec<u32>> = (0 .. 2).map(|y| (0 .. 3).map(|x| tile_at(&img, x, y)).collect()).collect();
    assert_eq!(rows, vec![vec![0, 1, 2], vec![3, 4, 5]]);
}

#[test]
fn resource_ids_go_round_from_the_counter() {
    let mut ids = ResourceIds::new();
    assert_eq!(ids.alloc_resource(), Some(1));
    assert_eq!(ids.alloc_resource(), Some(2));
    ids.free_resource(1);
    // The search starts at the third slot now, so ID 1 is not reused yet.
    assert_eq!(ids.alloc_resource(), Some(3));
    let mut rest: Vec<u32> = Vec::new();
    while let Some(id) = ids.alloc_resource() {
        rest.push(id);
    }
    // Every other ID, then the search wraps round to ID 1.
    assert_eq!(rest.len(), MAX_RESOURCES - 2);
    assert_eq!(rest[0], 4);
    assert_eq!(*rest.last().unwrap(), 1);
    assert_eq!(ids.alloc_resource(), None);
    ids.free_resource(10);
    assert_eq!(ids.alloc_resource(), Some(10));
}

#[test]
fn attach_backing_response_follows_the_entries() {
    let cmd = CmdResourceAttachBacking::new(1, &[(0x1000, 64), (0x2000, 32)], 1);
    assert_eq!(cmd.response_offset(), 64);
    let empty = CmdResourceAttachBacking::new(2, &[], 0);
    assert_eq!(empty.response_offset(), 32);
}

#[test]
fn blit_copies_only_the_source_rectangle() {
    let mut src = Image::new(1, 1, 8, 3, 2).unwrap();
    src.set_colors(0, &[Color(0x11)]);
    src.draw_rect_region(Rectangle::new(0, 0, 3, 2), Tile(5));
    let mut dest = Image::new(1, 1, 8, 4, 4).unwrap();
    assert_eq!(dest.blit(&src, Rectangle::new(1, 0, 1, 1), 2, 2), Ok(()));
    assert_eq!(dest.tile(2, 2), Some((Tile(5), vec![Color(0x11)])));
    assert_eq!(dest.tile(3, 2), Some((Tile(0), vec![Color(0)])));
    assert_eq!(dest.tile(2, 3), Some((Tile(0), vec![Color(0)])));
}

#[test]
fn blit_from_outside_the_source_copies_nothing() {
    let mut src = Image::new(1, 0, 0, 2, 2).unwrap();
    src.draw_rect_region(Rectangle::new(0, 0, 2, 2), Tile(9));
    let mut dest = Image::new(1, 0, 0, 2, 2).unwrap();
    assert_eq!(dest.blit(&src, Rectangle::new(5, 0, 2, 2), 0, 0), Ok(()));
    assert_eq!(dest.blit(&src, Rectangle::new(0, 0, 2, 2), 0, 7), Ok(()));
    assert_eq!(tile_at(&dest, 0, 0), 0);
    assert_eq!(tile_at(&dest, 1, 1), 0);
}

#[test]
fn move_rect_down_one_row() {
    let mut img = numbered(2, 2);
    img.move_rect(Rectangle::new(0, 0, 1, 1), 0, 1);
    let rows: Vec<Vec<u32>> = (0 .. 2).map(|y| (0 .. 2).map(|x| tile_at(&img, x, y)).collect()).collect();
    assert_eq!(rows, vec![vec![0, 1], vec![0, 3]]);
}

#[test]
fn move_rect_down_over_itself() {
    let mut img = numbered(3, 3);
    img.move_rect(Rectangle::new(0, 0, 3, 2), 0, 1);
    let rows: Vec<Vec<u32>> = (0 .. 3).map(|y| (0 .. 3).map(|x| tile_at(&img, x, y)).collect()).collect();
    assert_eq!(rows, vec![vec![0, 1, 2], vec![0, 1, 2], vec![3, 4, 5]]);
}

#[test]
fn move_rect_is_cut_at_the_destination() {
    let mut img = numbered(3, 1);
    img.move_rect(Rectangle::new(0, 0, 3, 1), 2, 0);
    let row: Vec<u32> = (0 .. 3).map(|x| tile_at(&img, x, 0)).collect();
    assert_eq!(row, vec![0, 1, 0]);
}

#[test]
fn tile_reads_full_32_bit_colors() {
    let mut img = Image::new(0, 1, 32, 1, 1).unwrap();
    img.set_colors(0, &[Color(0xAABB_CCDD)]);
    img.draw_rect_region(Rectangle::new(0, 0, 1, 1), Tile(0));
    assert_eq!(img.tile(0, 0), Some((Tile(0), vec![Color(0xAABB_CCDD)])));
}
