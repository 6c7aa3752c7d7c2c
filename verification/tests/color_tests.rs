use coa_converter_lib::color::{Color, Pattern, Rgb, Texture, COLOR_COUNT};

fn all_colors() -> Vec<Color> {
    vec![
        Color::Red,
        Color::Orange,
        Color::Yellow,
        Color::YellowLight,
        Color::White,
        Color::Grey,
        Color::Black,
        Color::Brown,
        Color::Green,
        Color::GreenLight,
        Color::BlueLight,
        Color::Blue,
        Color::Purple,
    ]
}

/// The nearest reference colour by the Euclidean distance in single
/// precision; of several equally near, the first.
fn nearest_by_float_distance(sample: Rgb) -> Color {
    let mut best = Color::Red;
    let mut best_distance = f32::INFINITY;
    for c in all_colors() {
        let rgb = c.get_rgb();
        let dr = rgb.red as f32 - sample.red as f32;
        let dg = rgb.green as f32 - sample.green as f32;
        let db = rgb.blue as f32 - sample.blue as f32;
        let distance = (dr * dr + dg * dg + db * db).sqrt();
        if distance < best_distance {
            best = c;
            best_distance = distance;
        }
    }
    best
}

#[test]
fn rgb_new_keeps_the_channels() {
    let c = Rgb::new(1, 2, 3);
    assert_eq!(c.red, 1);
    assert_eq!(c.green, 2);
    assert_eq!(c.blue, 3);
    assert_eq!(c, Rgb { red: 1, green: 2, blue: 3 });
    assert_ne!(c, Rgb::new(1, 2, 4));
}

#[test]
fn distance_squared_is_the_sum_of_the_squared_gaps() {
    assert_eq!(Rgb::new(0, 0, 0).get_distance_squared(&Rgb::new(0, 0, 0)), 0);
    assert_eq!(Rgb::new(255, 255, 255).get_distance_squared(&Rgb::new(0, 0, 0)), 195075);
    assert_eq!(Rgb::new(0, 0, 0).get_distance_squared(&Rgb::new(255, 255, 255)), 195075);
    assert_eq!(Rgb::new(10, 20, 30).get_distance_squared(&Rgb::new(13, 16, 42)), 9 + 16 + 144);
    assert_eq!(Rgb::new(255, 0, 0).get_distance_squared(&Rgb::new(150, 57, 1)), 14275);
}

#[test]
fn reference_colors_have_their_fixed_values() {
    assert_eq!(Color::Red.get_rgb(), Rgb::new(112, 33, 22));
    assert_eq!(Color::Orange.get_rgb(), Rgb::new(150, 57, 1));
    assert_eq!(Color::Yellow.get_rgb(), Rgb::new(187, 131, 47));
    assert_eq!(Color::YellowLight.get_rgb(), Rgb::new(150, 70, 50));
    assert_eq!(Color::White.get_rgb(), Rgb::new(200, 197, 195));
    assert_eq!(Color::Grey.get_rgb(), Rgb::new(125, 125, 125));
    assert_eq!(Color::Black.get_rgb(), Rgb::new(25, 22, 19));
    assert_eq!(Color::Brown.get_rgb(), Rgb::new(112, 58, 29));
    assert_eq!(Color::Green.get_rgb(), Rgb::new(31, 75, 35));
    assert_eq!(Color::GreenLight.get_rgb(), Rgb::new(50, 100, 55));
    assert_eq!(Color::BlueLight.get_rgb(), Rgb::new(42, 91, 137));
    assert_eq!(Color::Blue.get_rgb(), Rgb::new(20, 61, 100));
    assert_eq!(Color::Purple.get_rgb(), Rgb::new(87, 26, 63));
}

#[test]
fn from_ordinal_follows_the_fixed_order() {
    assert_eq!(COLOR_COUNT, 13);
    let all = all_colors();
    for i in 0..COLOR_COUNT {
        assert_eq!(Color::from_ordinal(i), Some(all[i as usize]));
    }
    assert_eq!(Color::from_ordinal(13), None);
    assert_eq!(Color::from_ordinal(255), None);
}

#[test]
fn closest_match_of_pure_colors() {
    assert_eq!(Color::get_closest_match(Rgb::new(255, 0, 0)), Color::Orange);
    assert_eq!(Color::get_closest_match(Rgb::new(0, 0, 255)), Color::BlueLight);
    assert_eq!(Color::get_closest_match(Rgb::new(0, 0, 0)), Color::Black);
    assert_eq!(Color::get_closest_match(Rgb::new(255, 255, 255)), Color::White);
    assert_eq!(Color::get_closest_match(Rgb::new(0, 255, 0)), Color::GreenLight);
}

#[test]
fn closest_match_of_a_reference_color_is_itself() {
    for c in all_colors() {
        assert_eq!(Color::get_closest_match(c.get_rgb()), c);
    }
}

#[test]
fn closest_match_breaks_ties_by_the_fixed_order() {
    // look for samples with two nearest reference colours, and hold each to the rule
    let all = all_colors();
    let mut ties = 0u32;
    for r in (0u32..256).step_by(1) {
        for g in (0u32..256).step_by(5) {
            for b in (0u32..256).step_by(5) {
                let sample = Rgb::new(r as u8, g as u8, b as u8);
                let found = Color::get_closest_match(sample);
                let best = found.get_rgb().get_distance_squared(&sample);
                for (place, c) in all.iter().enumerate() {
                    let d = c.get_rgb().get_distance_squared(&sample);
                    assert!(d >= best);
                    if d == best && *c != found {
                        ties += 1;
                        let found_place = all.iter().position(|x| *x == found).unwrap();
                        assert!(found_place < place);
                    }
                }
            }
        }
    }
    assert!(ties > 0);
}

#[test]
fn closest_match_agrees_with_the_float_distance() {
    for r in (0u32..256).step_by(3) {
        for g in (0u32..256).step_by(3) {
            for b in (0u32..256).step_by(3) {
                let sample = Rgb::new(r as u8, g as u8, b as u8);
                assert_eq!(Color::get_closest_match(sample), nearest_by_float_distance(sample));
            }
        }
    }
}

#[test]
fn names_of_colors_patterns_and_textures() {
    let names = vec![
        "red", "orange", "yellow", "yellow_light", "white", "grey", "black", "brown", "green",
        "green_light", "blue_light", "blue", "purple",
    ];
    for (c, name) in all_colors().iter().zip(names.iter()) {
        assert_eq!(c.to_string(), *name);
    }
    assert_eq!(Pattern::Solid.to_string(), "pattern_solid.dds");
    assert_eq!(Texture::Block.to_string(), "ce_block_02.dds");
}

#[test]
fn rgb_text_is_three_channels_in_braces() {
    assert_eq!(Rgb::new(0, 0, 0).to_string(), "{ 0 0 0 }");
    assert_eq!(Rgb::new(255, 10, 9).to_string(), "{ 255 10 9 }");
    assert_eq!(Rgb::new(100, 200, 7).to_string(), "{ 100 200 7 }");
}
