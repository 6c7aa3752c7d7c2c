use coa_converter_lib::color::{Pattern, Rgb, Texture};
use coa_converter_lib::model::{Coa, Emblem, Instance};
use coa_converter_lib::number::Scalar;

fn full_instance() -> Instance {
    Instance {
        position: Some((Scalar::new(1, 4), Scalar::new(3, 4))),
        scale: Some((Scalar::new(1, 4), Scalar::new(1, 4))),
        depth: Some(Scalar::new(1, 100)),
        rotation: Some(90),
    }
}

#[test]
fn an_instance_with_every_field() {
    assert_eq!(
        full_instance().to_string(),
        "\t\tinstance={\n\t\t\tposition={ 0.250000 0.750000 }\n\t\t\tscale={ 0.250000 0.250000 }\n\t\t\tdepth=0.010000\n\t\t\trotation=90\n\t\t}\n"
    );
}

#[test]
fn an_instance_leaves_absent_fields_out() {
    let empty = Instance { position: None, scale: None, depth: None, rotation: None };
    assert_eq!(empty.to_string(), "\t\tinstance={\n\t\t}\n");
    let only_rotation = Instance { position: None, scale: None, depth: None, rotation: Some(0) };
    assert_eq!(only_rotation.to_string(), "\t\tinstance={\n\t\t\trotation=0\n\t\t}\n");
    let only_scale = Instance {
        position: None,
        scale: Some((Scalar::new(1, 3), Scalar::new(2, 3))),
        depth: None,
        rotation: None,
    };
    assert_eq!(
        only_scale.to_string(),
        "\t\tinstance={\n\t\t\tscale={ 0.333333 0.666667 }\n\t\t}\n"
    );
    let only_depth = Instance {
        position: None,
        scale: None,
        depth: Some(Scalar::new(5, 2)),
        rotation: None,
    };
    assert_eq!(only_depth.to_string(), "\t\tinstance={\n\t\t\tdepth=2.500000\n\t\t}\n");
}

#[test]
fn rotation_is_a_plain_integer() {
    let turned = Instance {
        position: None,
        scale: None,
        depth: None,
        rotation: Some(4_294_967_295),
    };
    assert_eq!(turned.to_string(), "\t\tinstance={\n\t\t\trotation=4294967295\n\t\t}\n");
}

#[test]
fn an_emblem_numbers_its_colors_from_one() {
    let emblem = Emblem {
        colors: vec![Rgb::new(1, 2, 3), Rgb::new(40, 50, 60)],
        texture: Texture::Block,
        instances: vec![],
    };
    assert_eq!(
        emblem.to_string(),
        "\tcolored_emblem={\n\t\tcolor1={ 1 2 3 }\n\t\tcolor2={ 40 50 60 }\n\t\ttexture=\"ce_block_02.dds\"\n\t}\n"
    );
}

#[test]
fn an_emblem_lists_its_instances_in_order() {
    let emblem = Emblem {
        colors: vec![Rgb::new(9, 9, 9)],
        texture: Texture::Block,
        instances: vec![
            Instance { position: None, scale: None, depth: None, rotation: Some(1) },
            Instance { position: None, scale: None, depth: None, rotation: Some(2) },
        ],
    };
    assert_eq!(
        emblem.to_string(),
        "\tcolored_emblem={\n\t\tcolor1={ 9 9 9 }\n\t\ttexture=\"ce_block_02.dds\"\n\t\tinstance={\n\t\t\trotation=1\n\t\t}\n\t\tinstance={\n\t\t\trotation=2\n\t\t}\n\t}\n"
    );
}

#[test]
fn a_coat_of_arms_for_a_dynasty() {
    let coa = Coa {
        pattern: Pattern::Solid,
        colors: vec![Rgb::new(255, 0, 0)],
        emblems: vec![],
        is_title: false,
    };
    assert_eq!(
        coa.to_string(),
        "coa_rd_dynasty_0000000000={\n\tpattern=\"pattern_solid.dds\"\n\tcolor1={ 255 0 0 }\n}\n"
    );
}

#[test]
fn a_coat_of_arms_for_a_landed_title() {
    let coa = Coa {
        pattern: Pattern::Solid,
        colors: vec![Rgb::new(0, 0, 0), Rgb::new(1, 1, 1)],
        emblems: vec![Emblem {
            colors: vec![Rgb::new(2, 2, 2)],
            texture: Texture::Block,
            instances: vec![full_instance()],
        }],
        is_title: true,
    };
    assert_eq!(
        coa.to_string(),
        "coa_rd_title={\n\tpattern=\"pattern_solid.dds\"\n\tcolor1={ 0 0 0 }\n\tcolor2={ 1 1 1 }\n\tcolored_emblem={\n\t\tcolor1={ 2 2 2 }\n\t\ttexture=\"ce_block_02.dds\"\n\t\tinstance={\n\t\t\tposition={ 0.250000 0.750000 }\n\t\t\tscale={ 0.250000 0.250000 }\n\t\t\tdepth=0.010000\n\t\t\trotation=90\n\t\t}\n\t}\n}\n"
    );
}

#[test]
fn color_numbers_go_past_nine() {
    let colors: Vec<Rgb> = (0u8..12).map(|i| Rgb::new(i, i, i)).collect();
    let coa = Coa { pattern: Pattern::Solid, colors, emblems: vec![], is_title: true };
    let text = coa.to_string();
    assert!(text.contains("\tcolor9={ 8 8 8 }\n\tcolor10={ 9 9 9 }\n\tcolor11={ 10 10 10 }\n"));
    assert!(text.ends_with("\tcolor12={ 11 11 11 }\n}\n"));
}

#[test]
fn serializing_twice_gives_the_same_text() {
    let coa = Coa {
        pattern: Pattern::Solid,
        colors: vec![Rgb::new(7, 8, 9)],
        emblems: vec![Emblem {
            colors: vec![Rgb::new(2, 2, 2)],
            texture: Texture::Block,
            instances: vec![full_instance(), full_instance()],
        }],
        is_title: false,
    };
    assert_eq!(coa.to_string(), coa.to_string());
}
