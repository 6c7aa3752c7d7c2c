use coa_converter_lib::number::Scalar;

fn reference(x: u32, w: u32) -> String {
    format!("{:.6}", x as f32 / w as f32)
}

#[test]
fn scalar_text_matches_single_precision_for_small_grids() {
    for w in 1u32..=260 {
        for x in 0u32..=(2 * w + 3) {
            assert_eq!(Scalar::new(x, w).to_string(), reference(x, w), "{} / {}", x, w);
        }
    }
}

#[test]
fn scalar_text_matches_single_precision_for_large_values() {
    let edge: Vec<u32> = vec![
        0, 1, 2, 3, 5, 7, 10, 100, 127, 128, 129, 255, 256, 1000, 4095, 4096, 65535, 65536,
        999_999, 1_000_000, 1_000_001, 8_388_607, 8_388_608, 8_388_609, 16_777_215, 16_777_216,
        16_777_217, 16_777_218, 16_777_219, 33_554_431, 33_554_433, 100_000_001, 2_147_483_647,
        2_147_483_648, 2_147_483_649, 4_294_967_039, 4_294_967_040, 4_294_967_167,
        4_294_967_168, 4_294_967_169, 4_294_967_294, 4_294_967_295,
    ];
    for &x in edge.iter() {
        for &w in edge.iter() {
            assert_eq!(Scalar::new(x, w).to_string(), reference(x, w), "{} / {}", x, w);
        }
    }
}

#[test]
fn scalar_text_matches_single_precision_on_a_pseudo_random_walk() {
    let mut state: u64 = 0x2545_F491_4F6C_DD1D;
    for _ in 0..200_000 {
        state ^= state << 13;
        state ^= state >> 7;
        state ^= state << 17;
        let x = (state >> 32) as u32 >> ((state & 31) as u32);
        let w = (state as u32) >> (((state >> 5) & 31) as u32);
        assert_eq!(Scalar::new(x, w).to_string(), reference(x, w), "{} / {}", x, w);
    }
}

#[test]
fn scalar_text_rounds_ties_to_even() {
    assert_eq!(Scalar::new(1, 128).to_string(), "0.007812");
    assert_eq!(Scalar::new(3, 128).to_string(), "0.023438");
    assert_eq!(Scalar::new(1, 2).to_string(), "0.500000");
    assert_eq!(Scalar::new(1, 3).to_string(), "0.333333");
    assert_eq!(Scalar::new(2, 3).to_string(), "0.666667");
    assert_eq!(Scalar::new(1, 100).to_string(), "0.010000");
}

#[test]
fn millionths_of_a_scalar() {
    assert_eq!(Scalar::new(1, 2).millionths(), Some(500_000));
    assert_eq!(Scalar::new(0, 9).millionths(), Some(0));
    assert_eq!(Scalar::new(1, 3).millionths(), Some(333_333));
    assert_eq!(Scalar::new(2, 3).millionths(), Some(666_667));
    assert_eq!(Scalar::new(1, 128).millionths(), Some(7_812));
    assert_eq!(Scalar::new(3, 128).millionths(), Some(23_438));
    assert_eq!(Scalar::new(4_294_967_295, 1).millionths(), Some(4_294_967_296_000_000));
    assert_eq!(Scalar::new(1, 4_294_967_295).millionths(), Some(0));
    assert_eq!(Scalar::new(16_777_217, 1).millionths(), Some(16_777_216_000_000));
    assert_eq!(Scalar::new(16_777_219, 1).millionths(), Some(16_777_220_000_000));
    assert_eq!(Scalar::new(5, 0).millionths(), None);
    assert_eq!(Scalar::new(0, 0).millionths(), None);
}

#[test]
fn scalar_text_of_a_zero_denominator() {
    assert_eq!(Scalar::new(0, 0).to_string(), "NaN");
    assert_eq!(Scalar::new(7, 0).to_string(), "inf");
    assert_eq!(Scalar::new(0, 0).to_string(), reference(0, 0));
    assert_eq!(Scalar::new(7, 0).to_string(), reference(7, 0));
}
