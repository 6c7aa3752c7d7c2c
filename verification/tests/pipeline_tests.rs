use coa_converter_lib::builder::{build_coa, build_emblem, find_background, parse_map};
use coa_converter_lib::color::{Pattern, Rgb, Texture};
use coa_converter_lib::convert::{
    check_color_count, convert, from_image_all_colors, from_image_custom_colors,
    from_image_vanilla_colors, resolve_reduced, ColorMode, PaletteResolutionError,
};
use coa_converter_lib::grid::PixelGrid;
use coa_converter_lib::index::{index_colors, ColorIndex};
use coa_converter_lib::model::Instance;
use coa_converter_lib::number::Scalar;

const RED: Rgb = Rgb { red: 255, green: 0, blue: 0 };
const BLUE: Rgb = Rgb { red: 0, green: 0, blue: 255 };
const GREEN: Rgb = Rgb { red: 0, green: 255, blue: 0 };
const WHITE: Rgb = Rgb { red: 255, green: 255, blue: 255 };

/// The text that the grammar asks for, written with the formatting of the
/// standard library and single-precision floats.
fn expected_text(pixels: &[Rgb], width: u32, title: bool) -> String {
    let mut colors: Vec<Rgb> = Vec::new();
    let mut coords: Vec<Vec<(u32, u32)>> = Vec::new();
    for (i, p) in pixels.iter().enumerate() {
        let at = (i as u32 % width, i as u32 / width);
        match colors.iter().position(|c| c == p) {
            Some(k) => coords[k].push(at),
            None => {
                colors.push(*p);
                coords.push(vec![at]);
            }
        }
    }
    let mut background = Rgb::new(0, 0, 0);
    let mut largest = 0usize;
    let mut place = usize::MAX;
    for (k, c) in colors.iter().enumerate() {
        if coords[k].len() > largest {
            largest = coords[k].len();
            background = *c;
            place = k;
        }
    }
    let mut text = String::new();
    text.push_str(if title { "coa_rd_title={\n" } else { "coa_rd_dynasty_0000000000={\n" });
    text.push_str("\tpattern=\"pattern_solid.dds\"\n");
    text.push_str(&format!(
        "\tcolor1={{ {} {} {} }}\n",
        background.red, background.green, background.blue
    ));
    for (k, c) in colors.iter().enumerate() {
        if k == place {
            continue;
        }
        text.push_str("\tcolored_emblem={\n");
        text.push_str(&format!("\t\tcolor1={{ {} {} {} }}\n", c.red, c.green, c.blue));
        text.push_str("\t\ttexture=\"ce_block_02.dds\"\n");
        for &(x, y) in coords[k].iter() {
            text.push_str("\t\tinstance={\n");
            text.push_str(&format!(
                "\t\t\tposition={{ {:.6} {:.6} }}\n",
                x as f32 / width as f32,
                y as f32 / width as f32
            ));
            text.push_str(&format!(
                "\t\t\tscale={{ {:.6} {:.6} }}\n",
                1.0 / width as f32,
                1.0 / width as f32
            ));
            text.push_str("\t\t}\n");
        }
        text.push_str("\t}\n");
    }
    text.push_str("}\n");
    text
}

fn noise(width: u32, height: u32, shades: u32, seed: u32) -> Vec<Rgb> {
    let mut state = seed;
    let mut pixels = Vec::new();
    for _ in 0..(width * height) {
        state = state.wrapping_mul(1664525).wrapping_add(1013904223);
        let s = ((state >> 16) % shades) as u8;
        pixels.push(Rgb::new(s.wrapping_mul(37), s.wrapping_mul(11), 255 - s));
    }
    pixels
}

fn count(text: &str, pattern: &str) -> usize {
    text.matches(pattern).count()
}

#[test]
fn two_by_two_in_vanilla_mode() {
    let grid = PixelGrid::new(2, 2, vec![RED, RED, RED, BLUE]).unwrap();
    let text = from_image_vanilla_colors(&grid, false);
    assert_eq!(
        text,
        "coa_rd_dynasty_0000000000={\n\tpattern=\"pattern_solid.dds\"\n\tcolor1={ 150 57 1 }\n\tcolored_emblem={\n\t\tcolor1={ 42 91 137 }\n\t\ttexture=\"ce_block_02.dds\"\n\t\tinstance={\n\t\t\tposition={ 0.500000 0.500000 }\n\t\t\tscale={ 0.500000 0.500000 }\n\t\t}\n\t}\n}\n"
    );
}

#[test]
fn two_by_two_with_all_colors_for_a_title() {
    let grid = PixelGrid::new(2, 2, vec![RED, RED, RED, BLUE]).unwrap();
    let text = from_image_all_colors(&grid, true);
    assert_eq!(
        text,
        "coa_rd_title={\n\tpattern=\"pattern_solid.dds\"\n\tcolor1={ 255 0 0 }\n\tcolored_emblem={\n\t\tcolor1={ 0 0 255 }\n\t\ttexture=\"ce_block_02.dds\"\n\t\tinstance={\n\t\t\tposition={ 0.500000 0.500000 }\n\t\t\tscale={ 0.500000 0.500000 }\n\t\t}\n\t}\n}\n"
    );
}

#[test]
fn a_solid_image_in_reduced_mode_has_a_background_and_no_emblem() {
    let grey = Rgb::new(90, 90, 90);
    for &(width, height) in [(1u32, 1u32), (3, 2), (8, 8), (5, 13)].iter() {
        let n = (width * height) as usize;
        let grid = PixelGrid::new(width, height, vec![WHITE; n]).unwrap();
        // two palette entries of one value, and indices that use both
        let palette = vec![grey, grey];
        let indices: Vec<u8> = (0..n).map(|i| (i % 2) as u8).collect();
        let text = from_image_custom_colors(&grid, false, 2, &palette, &indices).unwrap();
        assert_eq!(
            text,
            "coa_rd_dynasty_0000000000={\n\tpattern=\"pattern_solid.dds\"\n\tcolor1={ 90 90 90 }\n}\n"
        );
        assert_eq!(count(&text, "colored_emblem={"), 0);
    }
}

#[test]
fn full_fidelity_gives_one_emblem_less_than_colors() {
    for shades in 1u32..=9 {
        let mut pixels = noise(12, 7, shades, 7 + shades);
        // make sure that every shade occurs
        for s in 0..shades {
            let v = s as u8;
            pixels[s as usize] = Rgb::new(v.wrapping_mul(37), v.wrapping_mul(11), 255 - v);
        }
        let grid = PixelGrid::new(12, 7, pixels).unwrap();
        let text = from_image_all_colors(&grid, false);
        assert_eq!(count(&text, "\tcolored_emblem={\n"), (shades - 1) as usize);
    }
}

#[test]
fn texts_agree_with_the_standard_formatting() {
    for &(width, height, shades, seed) in
        [(1u32, 1u32, 1u32, 1u32), (3, 3, 2, 2), (7, 5, 4, 3), (10, 10, 6, 4), (13, 4, 20, 5),
         (4, 13, 3, 6), (100, 3, 5, 7), (33, 33, 300, 8)].iter()
    {
        let pixels = noise(width, height, shades, seed);
        let grid = PixelGrid::new(width, height, pixels.clone()).unwrap();
        assert_eq!(from_image_all_colors(&grid, false), expected_text(&pixels, width, false));
        assert_eq!(from_image_all_colors(&grid, true), expected_text(&pixels, width, true));
        let vanilla = grid.to_vanilla();
        assert_eq!(
            from_image_vanilla_colors(&grid, false),
            expected_text(vanilla.pixels(), width, false)
        );
    }
}

#[test]
fn repeated_runs_give_the_same_text() {
    let pixels = noise(9, 9, 5, 42);
    let grid = PixelGrid::new(9, 9, pixels.clone()).unwrap();
    let again = PixelGrid::new(9, 9, pixels).unwrap();
    assert_eq!(from_image_all_colors(&grid, false), from_image_all_colors(&again, false));
    assert_eq!(from_image_vanilla_colors(&grid, true), from_image_vanilla_colors(&again, true));
    let palette = vec![RED, GREEN, BLUE];
    let indices: Vec<u8> = (0..81).map(|i| (i % 3) as u8).collect();
    assert_eq!(
        from_image_custom_colors(&grid, false, 3, &palette, &indices),
        from_image_custom_colors(&again, false, 3, &palette, &indices)
    );
}

#[test]
fn the_background_is_the_first_of_the_largest_colors() {
    // red and blue both have three pixels; red is met first
    let grid =
        PixelGrid::new(7, 1, vec![GREEN, RED, BLUE, RED, BLUE, RED, BLUE]).unwrap();
    let index = index_colors(&grid);
    assert_eq!(find_background(&index), RED);
    // blue is met first
    let grid =
        PixelGrid::new(7, 1, vec![GREEN, BLUE, RED, RED, BLUE, RED, BLUE]).unwrap();
    let index = index_colors(&grid);
    assert_eq!(find_background(&index), BLUE);
    // a strictly larger colour wins wherever it is
    let grid = PixelGrid::new(5, 1, vec![GREEN, BLUE, RED, RED, RED]).unwrap();
    let index = index_colors(&grid);
    assert_eq!(find_background(&index), RED);
}

#[test]
fn an_empty_index_gives_a_black_background() {
    let index = ColorIndex::new();
    assert_eq!(find_background(&index), Rgb::new(0, 0, 0));
    let grid = PixelGrid::new(0, 0, vec![]).unwrap();
    assert_eq!(
        from_image_all_colors(&grid, false),
        "coa_rd_dynasty_0000000000={\n\tpattern=\"pattern_solid.dds\"\n\tcolor1={ 0 0 0 }\n}\n"
    );
}

#[test]
fn the_built_model_holds_one_instance_per_pixel() {
    let grid = PixelGrid::new(3, 2, vec![RED, BLUE, GREEN, BLUE, RED, RED]).unwrap();
    let mut index = index_colors(&grid);
    let coa = build_coa(&mut index, true, 3);
    assert_eq!(coa.pattern, Pattern::Solid);
    assert!(coa.is_title);
    assert_eq!(coa.colors, vec![RED]);
    assert_eq!(coa.emblems.len(), 2);
    assert_eq!(coa.emblems[0].colors, vec![BLUE]);
    assert_eq!(coa.emblems[0].texture, Texture::Block);
    assert_eq!(coa.emblems[1].colors, vec![GREEN]);
    let instance = |x: u32, y: u32| Instance {
        position: Some((Scalar::new(x, 3), Scalar::new(y, 3))),
        scale: Some((Scalar::new(1, 3), Scalar::new(1, 3))),
        depth: None,
        rotation: None,
    };
    assert_eq!(coa.emblems[0].instances, vec![instance(1, 0), instance(0, 1)]);
    assert_eq!(coa.emblems[1].instances, vec![instance(2, 0)]);
    // the background has left the index
    assert_eq!(index.keys(), &vec![BLUE, GREEN]);
    // no pixel is lost: instances and background pixels add up to the grid
    let instances: usize = coa.emblems.iter().map(|e| e.instances.len()).sum();
    let background = grid.pixels().iter().filter(|p| **p == RED).count();
    assert_eq!(instances + background, 6);
}

#[test]
fn positions_stay_in_the_unit_square_for_a_square_grid() {
    let pixels = noise(16, 16, 7, 11);
    let grid = PixelGrid::new(16, 16, pixels).unwrap();
    let mut index = index_colors(&grid);
    let coa = build_coa(&mut index, false, 16);
    for emblem in coa.emblems.iter() {
        for instance in emblem.instances.iter() {
            let (x, y) = instance.position.unwrap();
            assert!(x.numerator < x.denominator && y.numerator < y.denominator);
            assert!(x.millionths().unwrap() < 1_000_000);
            assert!(y.millionths().unwrap() < 1_000_000);
            let (sx, sy) = instance.scale.unwrap();
            assert_eq!(sx, Scalar::new(1, 16));
            assert_eq!(sy, Scalar::new(1, 16));
            assert_eq!(sx.millionths(), Some(62_500));
            assert_eq!(instance.depth, None);
            assert_eq!(instance.rotation, None);
        }
    }
}

#[test]
fn both_coordinates_are_divided_by_the_width() {
    // one column, three rows: y / width goes past one
    let grid = PixelGrid::new(1, 3, vec![RED, RED, BLUE]).unwrap();
    let text = from_image_all_colors(&grid, false);
    assert!(text.contains("\t\t\tposition={ 0.000000 2.000000 }\n"));
    assert!(text.contains("\t\t\tscale={ 1.000000 1.000000 }\n"));
}

#[test]
fn the_text_has_one_color_line_per_block_and_one_instance_per_pixel() {
    let pixels = noise(11, 6, 4, 77);
    let grid = PixelGrid::new(11, 6, pixels.clone()).unwrap();
    let text = from_image_all_colors(&grid, false);
    let index = index_colors(&grid);
    let background = find_background(&index);
    let emblems = index.len() - 1;
    let in_background = pixels.iter().filter(|p| **p == background).count();
    let lines: Vec<&str> = text.lines().collect();
    let top_colors = lines.iter().filter(|l| l.starts_with("\tcolor") && !l.starts_with("\tcolored")).count();
    let emblem_colors = lines.iter().filter(|l| l.starts_with("\t\tcolor")).count();
    let instances = lines.iter().filter(|l| **l == "\t\tinstance={").count();
    assert_eq!(top_colors, 1);
    assert_eq!(emblem_colors, emblems);
    assert_eq!(count(&text, "\tcolored_emblem={\n"), emblems);
    assert_eq!(instances + in_background, 66);
}

#[test]
fn parse_map_is_the_text_of_the_built_model() {
    let grid = PixelGrid::new(3, 2, vec![RED, BLUE, GREEN, BLUE, RED, RED]).unwrap();
    let mut first = index_colors(&grid);
    let mut second = index_colors(&grid);
    let text = parse_map(&mut first, false, 3);
    assert_eq!(text, build_coa(&mut second, false, 3).to_string());
    assert_eq!(text, expected_text(grid.pixels(), 3, false));
    assert_eq!(first.keys(), &vec![BLUE, GREEN]);
}

#[test]
fn an_emblem_is_built_from_a_color_and_its_coordinates() {
    let emblem = build_emblem(GREEN, &vec![(0, 0), (3, 1)], 4);
    assert_eq!(
        emblem.to_string(),
        "\tcolored_emblem={\n\t\tcolor1={ 0 255 0 }\n\t\ttexture=\"ce_block_02.dds\"\n\t\tinstance={\n\t\t\tposition={ 0.000000 0.000000 }\n\t\t\tscale={ 0.250000 0.250000 }\n\t\t}\n\t\tinstance={\n\t\t\tposition={ 0.750000 0.250000 }\n\t\t\tscale={ 0.250000 0.250000 }\n\t\t}\n\t}\n"
    );
}

#[test]
fn reduced_mode_looks_every_pixel_up_in_the_palette() {
    let grid = PixelGrid::new(2, 2, vec![WHITE; 4]).unwrap();
    let palette = vec![RED, GREEN, BLUE];
    let indices = vec![2u8, 0, 2, 1];
    let resolved = resolve_reduced(&grid, 3, &palette, &indices).unwrap();
    assert_eq!(resolved.pixels(), &vec![BLUE, RED, BLUE, GREEN]);
    assert_eq!(resolved.width(), 2);
    assert_eq!(resolved.height(), 2);
    assert_eq!(
        from_image_custom_colors(&grid, true, 3, &palette, &indices).unwrap(),
        expected_text(&[BLUE, RED, BLUE, GREEN], 2, true)
    );
}

#[test]
fn reduced_mode_accepts_more_colors_than_the_image_has() {
    let grid = PixelGrid::new(2, 1, vec![RED, RED]).unwrap();
    let palette: Vec<Rgb> = (0u8..=254).map(|i| Rgb::new(i, 0, 0)).collect();
    let indices = vec![254u8, 0];
    let text = from_image_custom_colors(&grid, false, 255, &palette, &indices).unwrap();
    assert_eq!(text, expected_text(&[Rgb::new(254, 0, 0), Rgb::new(0, 0, 0)], 2, false));
}

#[test]
fn reduced_mode_rejects_a_palette_of_fewer_than_two_colors() {
    let grid = PixelGrid::new(1, 1, vec![RED]).unwrap();
    let palette = vec![RED];
    let indices = vec![0u8];
    assert_eq!(
        from_image_custom_colors(&grid, false, 0, &palette, &indices),
        Err(PaletteResolutionError::PaletteTooSmall)
    );
    assert_eq!(
        from_image_custom_colors(&grid, false, 1, &palette, &indices),
        Err(PaletteResolutionError::PaletteTooSmall)
    );
    assert!(from_image_custom_colors(&grid, false, 2, &palette, &indices).is_ok());
    assert_eq!(check_color_count(0), Err(PaletteResolutionError::PaletteTooSmall));
    assert_eq!(check_color_count(1), Err(PaletteResolutionError::PaletteTooSmall));
    assert_eq!(check_color_count(2), Ok(()));
    assert_eq!(check_color_count(255), Ok(()));
}

#[test]
fn reduced_mode_rejects_an_index_past_the_palette() {
    let grid = PixelGrid::new(2, 2, vec![WHITE; 4]).unwrap();
    let palette = vec![RED, GREEN];
    assert_eq!(
        from_image_custom_colors(&grid, false, 2, &palette, &vec![0, 1, 2, 0]),
        Err(PaletteResolutionError::IndexOutOfRange)
    );
    assert_eq!(
        from_image_custom_colors(&grid, false, 2, &vec![], &vec![0, 0, 0, 0]),
        Err(PaletteResolutionError::IndexOutOfRange)
    );
    assert!(resolve_reduced(&grid, 2, &palette, &vec![0, 1, 255, 0]).is_err());
}

#[test]
fn reduced_mode_rejects_a_wrong_number_of_indices() {
    let grid = PixelGrid::new(2, 2, vec![WHITE; 4]).unwrap();
    let palette = vec![RED, GREEN];
    assert_eq!(
        from_image_custom_colors(&grid, false, 2, &palette, &vec![0, 1, 0]),
        Err(PaletteResolutionError::IndexCountMismatch)
    );
    assert_eq!(
        from_image_custom_colors(&grid, false, 2, &palette, &vec![0, 1, 0, 1, 0]),
        Err(PaletteResolutionError::IndexCountMismatch)
    );
    // too few colours is reported first
    assert_eq!(
        from_image_custom_colors(&grid, false, 1, &palette, &vec![0, 1, 0]),
        Err(PaletteResolutionError::PaletteTooSmall)
    );
    // a wrong count is reported before a bad index
    assert_eq!(
        from_image_custom_colors(&grid, false, 2, &palette, &vec![9, 9, 9]),
        Err(PaletteResolutionError::IndexCountMismatch)
    );
}

#[test]
fn color_modes_are_read_from_their_names() {
    assert_eq!(ColorMode::from_str("All"), Ok(ColorMode::All));
    assert_eq!(ColorMode::from_str("Reduced"), Ok(ColorMode::Reduced));
    assert_eq!(ColorMode::from_str("Vanilla"), Ok(ColorMode::Vanilla));
    assert_eq!(ColorMode::from_str("all"), Err(()));
    assert_eq!(ColorMode::from_str("Full"), Err(()));
    assert_eq!(ColorMode::from_str(""), Err(()));
    assert_eq!(ColorMode::from_str("Vanilla "), Err(()));
}

#[test]
fn convert_follows_the_mode() {
    let pixels = noise(6, 4, 5, 21);
    let grid = PixelGrid::new(6, 4, pixels).unwrap();
    let palette = vec![RED, GREEN, BLUE];
    let indices: Vec<u8> = (0..24).map(|i| (i % 3) as u8).collect();
    let none: Vec<Rgb> = Vec::new();
    let no_indices: Vec<u8> = Vec::new();
    assert_eq!(
        convert(ColorMode::All, &grid, false, 20, &none, &no_indices),
        Ok(from_image_all_colors(&grid, false))
    );
    assert_eq!(
        convert(ColorMode::Vanilla, &grid, true, 20, &none, &no_indices),
        Ok(from_image_vanilla_colors(&grid, true))
    );
    assert_eq!(
        convert(ColorMode::Reduced, &grid, false, 3, &palette, &indices),
        from_image_custom_colors(&grid, false, 3, &palette, &indices)
    );
    assert!(convert(ColorMode::Reduced, &grid, false, 3, &palette, &indices).is_ok());
    // the palette does not count outside the reduced mode
    assert_eq!(
        convert(ColorMode::All, &grid, false, 0, &palette, &indices),
        Ok(from_image_all_colors(&grid, false))
    );
    assert_eq!(
        convert(ColorMode::Reduced, &grid, false, 1, &palette, &indices),
        Err(PaletteResolutionError::PaletteTooSmall)
    );
    assert_eq!(
        convert(ColorMode::Reduced, &grid, false, 3, &none, &no_indices),
        Err(PaletteResolutionError::IndexCountMismatch)
    );
}

#[test]
fn a_wide_grid_is_rendered_in_single_precision() {
    // 1 / 3000 and 2999 / 3000 are not exact in single precision
    let mut pixels = vec![WHITE; 3000];
    pixels[1] = RED;
    pixels[2999] = BLUE;
    let grid = PixelGrid::new(3000, 1, pixels.clone()).unwrap();
    let text = from_image_all_colors(&grid, false);
    assert_eq!(text, expected_text(&pixels, 3000, false));
    assert!(text.contains("\t\t\tposition={ 0.000333 0.000000 }\n"));
    assert!(text.contains("\t\t\tposition={ 0.999667 0.000000 }\n"));
    assert!(text.contains("\t\t\tscale={ 0.000333 0.000333 }\n"));
}
