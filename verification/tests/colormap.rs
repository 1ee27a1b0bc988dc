use augur_gui::binary64::Real32;
use augur_gui::colormap::{lookup_index, Colormap, Rgb};

fn r32(x: f32) -> Real32 {
    Real32::from_bits(x.to_bits())
}

fn rgb(r: u8, g: u8, b: u8) -> Rgb {
    Rgb { r, g, b }
}

#[test]
fn lookup_clamps_out_of_range_values() {
    assert_eq!(Colormap::Fire.lookup(r32(-1.0)), Colormap::Fire.lookup(r32(0.0)));
    assert_eq!(Colormap::Fire.lookup(r32(2.0)), Colormap::Fire.lookup(r32(1.0)));
}

#[test]
fn fire_matches_imagej_endpoints() {
    let table = Colormap::Fire.table();
    assert_eq!(table[0], rgb(0, 0, 0));
    assert_eq!(table[255], rgb(255, 255, 255));
}

#[test]
fn ice_matches_reference_endpoints() {
    let table = Colormap::Ice.table();
    assert_eq!(table[0], rgb(0, 156, 140));
    assert_eq!(table[255], rgb(230, 0, 27));
}

#[test]
fn red_hot_hits_expected_phase_plateaus() {
    let table = Colormap::RedHot.table();
    assert_eq!(table[0], rgb(0, 0, 0));
    assert_eq!(table[88], rgb(255, 6, 0));
    assert_eq!(table[168], rgb(255, 255, 9));
    assert_eq!(table[255], rgb(255, 255, 255));
}

#[test]
fn magenta_hot_keeps_red_and_blue_in_lockstep() {
    let table = Colormap::MagentaHot.table();
    assert_eq!(table[0], rgb(0, 0, 0));
    assert_eq!(table[127], rgb(255, 0, 255));
    assert_eq!(table[255], rgb(255, 255, 255));
    assert!(table.iter().all(|c| c.r == c.b));
}

#[test]
fn blue_white_red_matches_diverging_endpoints() {
    let table = Colormap::BlueWhiteRed.table();
    assert_eq!(table[0], rgb(0, 0, 255));
    assert_eq!(table[127], rgb(255, 255, 255));
    assert_eq!(table[255], rgb(255, 0, 0));
}

#[test]
fn indices_agree_with_floating_point() {
    let by_floats = |x: f32| (x.clamp(0.0, 1.0) * 255.0).round() as u8;
    for bits in (0u32..0x4000_0000).step_by(9_973) {
        let x = f32::from_bits(bits);
        assert_eq!(lookup_index(r32(x)), by_floats(x), "{x}");
    }
    for i in 0..=510u32 {
        let x = i as f32 / 510.0;
        assert_eq!(lookup_index(r32(x)), by_floats(x), "{x}");
    }
    for x in [f32::NAN, f32::INFINITY, -0.0, -5.0, f32::NEG_INFINITY] {
        assert_eq!(lookup_index(r32(x)), by_floats(x), "{x}");
    }
}

#[test]
fn maps_have_names_and_places() {
    let labels: Vec<&str> = Colormap::ALL.iter().map(|map| map.label()).collect();
    assert_eq!(labels.len(), 8);
    for (i, map) in Colormap::ALL.iter().enumerate() {
        assert_eq!(map.index() as usize, i);
        assert_eq!(map.table().len(), 256);
    }
    assert_eq!(Colormap::Grays.table()[100], rgb(100, 100, 100));
}
