use coa_converter_lib::color::Rgb;
use coa_converter_lib::grid::PixelGrid;
use coa_converter_lib::index::{index_colors, ColorIndex};

const RED: Rgb = Rgb { red: 255, green: 0, blue: 0 };
const BLUE: Rgb = Rgb { red: 0, green: 0, blue: 255 };
const GREEN: Rgb = Rgb { red: 0, green: 255, blue: 0 };

#[test]
fn a_new_index_holds_nothing() {
    let index = ColorIndex::new();
    assert_eq!(index.len(), 0);
    assert!(index.keys().is_empty());
    assert_eq!(index.get_vec(RED), None);
}

#[test]
fn insert_appends_to_the_coordinates_of_a_color() {
    let mut index = ColorIndex::new();
    index.insert(RED, (0, 0));
    index.insert(BLUE, (1, 0));
    index.insert(RED, (2, 0));
    assert_eq!(index.len(), 2);
    assert_eq!(index.keys(), &vec![RED, BLUE]);
    assert_eq!(index.get_vec(RED), Some(&vec![(0, 0), (2, 0)]));
    assert_eq!(index.get_vec(BLUE), Some(&vec![(1, 0)]));
    assert_eq!(index.get_vec(GREEN), None);
}

#[test]
fn colors_that_differ_in_one_channel_are_kept_apart() {
    let mut index = ColorIndex::new();
    index.insert(Rgb::new(1, 0, 0), (0, 0));
    index.insert(Rgb::new(0, 1, 0), (1, 0));
    index.insert(Rgb::new(0, 0, 1), (2, 0));
    index.insert(Rgb::new(0, 1, 0), (3, 0));
    assert_eq!(index.len(), 3);
    assert_eq!(index.get_vec(Rgb::new(1, 0, 0)), Some(&vec![(0, 0)]));
    assert_eq!(index.get_vec(Rgb::new(0, 1, 0)), Some(&vec![(1, 0), (3, 0)]));
    assert_eq!(index.get_vec(Rgb::new(0, 0, 1)), Some(&vec![(2, 0)]));
    assert_eq!(index.get_vec(Rgb::new(1, 1, 0)), None);
}

#[test]
fn remove_takes_a_color_out_and_keeps_the_order_of_the_rest() {
    let mut index = ColorIndex::new();
    index.insert(RED, (0, 0));
    index.insert(BLUE, (1, 0));
    index.insert(GREEN, (2, 0));
    index.insert(BLUE, (3, 0));
    assert_eq!(index.remove(BLUE), Some(vec![(1, 0), (3, 0)]));
    assert_eq!(index.keys(), &vec![RED, GREEN]);
    assert_eq!(index.get_vec(BLUE), None);
    assert_eq!(index.get_vec(RED), Some(&vec![(0, 0)]));
    assert_eq!(index.get_vec(GREEN), Some(&vec![(2, 0)]));
    assert_eq!(index.remove(BLUE), None);
    assert_eq!(index.keys(), &vec![RED, GREEN]);
    index.insert(BLUE, (4, 0));
    assert_eq!(index.keys(), &vec![RED, GREEN, BLUE]);
    assert_eq!(index.get_vec(BLUE), Some(&vec![(4, 0)]));
}

#[test]
fn a_grid_must_hold_one_color_per_coordinate() {
    assert!(PixelGrid::new(2, 2, vec![RED, RED, RED]).is_none());
    assert!(PixelGrid::new(2, 2, vec![RED, RED, RED, RED, RED]).is_none());
    assert!(PixelGrid::new(0, 5, vec![RED]).is_none());
    assert!(PixelGrid::new(0, 5, vec![]).is_some());
    assert!(PixelGrid::new(3, 0, vec![]).is_some());
    let grid = PixelGrid::new(3, 2, vec![RED, BLUE, GREEN, BLUE, RED, RED]).unwrap();
    assert_eq!(grid.width(), 3);
    assert_eq!(grid.height(), 2);
    assert_eq!(grid.pixels().len(), 6);
    assert_eq!(grid.get(0, 0), Some(RED));
    assert_eq!(grid.get(2, 0), Some(GREEN));
    assert_eq!(grid.get(0, 1), Some(BLUE));
    assert_eq!(grid.get(2, 1), Some(RED));
    assert_eq!(grid.get(3, 0), None);
    assert_eq!(grid.get(0, 2), None);
}

#[test]
fn indexing_scans_row_by_row() {
    let grid = PixelGrid::new(3, 2, vec![RED, BLUE, GREEN, BLUE, RED, RED]).unwrap();
    let index = index_colors(&grid);
    assert_eq!(index.keys(), &vec![RED, BLUE, GREEN]);
    assert_eq!(index.get_vec(RED), Some(&vec![(0, 0), (1, 1), (2, 1)]));
    assert_eq!(index.get_vec(BLUE), Some(&vec![(1, 0), (0, 1)]));
    assert_eq!(index.get_vec(GREEN), Some(&vec![(2, 0)]));
}

#[test]
fn every_pixel_is_indexed_exactly_once() {
    let mut pixels = Vec::new();
    let mut state: u32 = 12345;
    for _ in 0..(17 * 9) {
        state = state.wrapping_mul(1664525).wrapping_add(1013904223);
        let shade = ((state >> 24) % 5) as u8;
        pixels.push(Rgb::new(shade, shade, 0));
    }
    let grid = PixelGrid::new(17, 9, pixels.clone()).unwrap();
    let index = index_colors(&grid);
    let mut seen = vec![false; 17 * 9];
    let mut total = 0usize;
    for color in index.keys().iter() {
        for &(x, y) in index.get_vec(*color).unwrap().iter() {
            let at = (y * 17 + x) as usize;
            assert!(!seen[at]);
            seen[at] = true;
            assert_eq!(pixels[at], *color);
            total += 1;
        }
    }
    assert_eq!(total, 17 * 9);
    assert!(seen.iter().all(|s| *s));
}

#[test]
fn the_vanilla_grid_holds_reference_colors_only() {
    let grid = PixelGrid::new(2, 2, vec![RED, RED, RED, BLUE]).unwrap();
    let vanilla = grid.to_vanilla();
    assert_eq!(vanilla.width(), 2);
    assert_eq!(vanilla.height(), 2);
    let orange = Rgb::new(150, 57, 1);
    let blue_light = Rgb::new(42, 91, 137);
    assert_eq!(vanilla.pixels(), &vec![orange, orange, orange, blue_light]);
}

#[test]
fn resolving_to_vanilla_twice_changes_nothing_more() {
    let mut pixels = Vec::new();
    let mut state: u32 = 99;
    for _ in 0..400 {
        state = state.wrapping_mul(1664525).wrapping_add(1013904223);
        pixels.push(Rgb::new((state >> 24) as u8, (state >> 16) as u8, (state >> 8) as u8));
    }
    let grid = PixelGrid::new(20, 20, pixels).unwrap();
    let once = grid.to_vanilla();
    let twice = once.to_vanilla();
    assert_eq!(once.pixels(), twice.pixels());
    assert_eq!(twice.width(), 20);
    assert_eq!(twice.height(), 20);
}
