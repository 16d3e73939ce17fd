use pxsort::{Heuristic, Pixel};

fn px(r: u8, g: u8, b: u8) -> Pixel {
    Pixel::new(r, g, b, 255)
}

#[test]
fn channel_keys() {
    let p = px(10, 200, 50);
    assert_eq!(Heuristic::Red.func(&p), 10);
    assert_eq!(Heuristic::Green.func(&p), 200);
    assert_eq!(Heuristic::Blue.func(&p), 50);
    assert_eq!(Heuristic::Max.func(&p), 200);
    assert_eq!(Heuristic::Value.func(&p), 200);
    assert_eq!(Heuristic::Min.func(&p), 10);
    assert_eq!(Heuristic::Chroma.func(&p), 190);
}

#[test]
fn brightness_is_floor_of_mean() {
    assert_eq!(Heuristic::Brightness.func(&px(10, 200, 50)), 86);
    assert_eq!(Heuristic::Brightness.func(&px(255, 255, 255)), 255);
    assert_eq!(Heuristic::Brightness.func(&px(254, 254, 254)), 254);
    assert_eq!(Heuristic::Brightness.func(&px(2, 2, 2)), 2);
}

#[test]
fn luma_weights() {
    assert_eq!(Heuristic::Luma.func(&px(10, 200, 50)), 52);
    assert_eq!(Heuristic::Luma.func(&px(255, 255, 255)), 223);
    assert_eq!(Heuristic::Luma.func(&px(0, 0, 0)), 0);
}

#[test]
fn saturation_integer_ratio() {
    assert_eq!(Heuristic::Saturation.func(&px(0, 0, 0)), 0);
    assert_eq!(Heuristic::Saturation.func(&px(255, 0, 0)), 1);
    assert_eq!(Heuristic::Saturation.func(&px(100, 0, 30)), 1);
    assert_eq!(Heuristic::Saturation.func(&px(100, 50, 50)), 0);
}

#[test]
fn hue_sectors() {
    assert_eq!(Heuristic::Hue.func(&px(255, 0, 0)), 0);
    assert_eq!(Heuristic::Hue.func(&px(10, 200, 50)), 85);
    assert_eq!(Heuristic::Hue.func(&px(0, 0, 255)), 171);
    assert_eq!(Heuristic::Hue.func(&px(255, 255, 0)), 43);
    assert_eq!(Heuristic::Hue.func(&px(0, 255, 255)), 128);
    assert_eq!(Heuristic::Hue.func(&px(255, 0, 255)), 43);
    assert_eq!(Heuristic::Hue.func(&px(100, 0, 100)), 43);
}

#[test]
fn hue_of_grey_is_zero() {
    for v in [0u8, 1, 77, 128, 255] {
        assert_eq!(Heuristic::Hue.func(&Pixel::new(v, v, v, 0)), 0);
    }
}

#[test]
fn variant_names_in_order() {
    assert_eq!(
        Heuristic::variants(),
        vec![
            "luma",
            "brightness",
            "max",
            "min",
            "chroma",
            "hue",
            "saturation",
            "value",
            "red",
            "blue",
            "green"
        ]
    );
    let hs = Heuristic::concrete_variants();
    assert_eq!(hs.len(), 11);
    assert_eq!(hs[0], Heuristic::Luma);
    assert_eq!(hs[10], Heuristic::Green);
}

#[test]
fn heuristic_from_name() {
    assert_eq!(Heuristic::from_name("hue"), Some(Heuristic::Hue));
    assert_eq!(Heuristic::from_name("value"), Some(Heuristic::Value));
    assert_eq!(Heuristic::from_name("green"), Some(Heuristic::Green));
    assert_eq!(Heuristic::from_name("Hue"), None);
    assert_eq!(Heuristic::from_name(""), None);
    assert_eq!(Heuristic::from_name("lum"), None);
    for h in Heuristic::concrete_variants() {
        assert_eq!(Heuristic::from_name(h.name()), Some(h));
    }
}
