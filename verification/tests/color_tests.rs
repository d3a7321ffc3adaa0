use fractal_explorer::color::{grayscale, Palette, Rgb};

#[test]
fn as_u32_packs_channels_with_zero_top_byte() {
    assert_eq!(Rgb(1, 2, 3).as_u32(), 0x00010203);
    assert_eq!(Rgb(255, 255, 255).as_u32(), 0x00FFFFFF);
    assert_eq!(Rgb(0, 0, 0).as_u32(), 0);
    assert_eq!(Rgb(0x12, 0x34, 0x56).as_u32(), 0x00123456);
}

#[test]
fn grayscale_sets_all_channels_equal() {
    assert_eq!(grayscale(0), Rgb(0, 0, 0));
    assert_eq!(grayscale(77), Rgb(77, 77, 77));
    assert_eq!(grayscale(255), Rgb(255, 255, 255));
}

fn cyan_stops() -> Vec<Rgb> {
    vec![
        Rgb(0, 0, 0),
        Rgb(0, 35, 66),
        Rgb(0, 56, 89),
        Rgb(0, 78, 114),
        Rgb(0, 102, 139),
        Rgb(0, 127, 165),
        Rgb(0, 152, 187),
        Rgb(0, 177, 205),
        Rgb(0, 203, 220),
        Rgb(0, 229, 231),
        Rgb(0, 255, 238),
    ]
}

#[test]
fn palette_first_slot_is_first_stop() {
    let p = Palette::from_gradient(&cyan_stops());
    assert_eq!(p.color(0), Rgb(0, 0, 0));
    let q = Palette::from_gradient(&[Rgb(10, 20, 30), Rgb(200, 100, 50)]);
    assert_eq!(q.color(0), Rgb(10, 20, 30));
}

#[test]
fn palette_last_slot_is_last_stop() {
    // 11 stops: the ranges stop short of slot 255, which belongs to the
    // final pair and shows its far stop.
    let p = Palette::from_gradient(&cyan_stops());
    assert_eq!(p.color(255), Rgb(0, 255, 238));
    // 9 stops: the 8 ranges of width 32 cover all 256 slots exactly, and
    // the top slot is still the last stop.
    let rainbow = Palette::from_gradient(&[
        Rgb(255, 255, 255),
        Rgb(255, 0, 0),
        Rgb(255, 255, 0),
        Rgb(0, 255, 255),
        Rgb(127, 127, 255),
        Rgb(255, 0, 255),
        Rgb(0, 0, 255),
        Rgb(0, 255, 0),
        Rgb(0, 0, 0),
    ]);
    assert_eq!(rainbow.color(255), Rgb(0, 0, 0));
}

#[test]
fn palette_two_stops_blend_linearly() {
    // One range of width 256: slot i is start + (end - start) * i / 256,
    // rounded down, and the top slot is the last stop itself.
    let p = Palette::from_gradient(&[Rgb(0, 0, 0), Rgb(255, 255, 255)]);
    assert_eq!(p.color(0), Rgb(0, 0, 0));
    assert_eq!(p.color(128), Rgb(127, 127, 127));
    assert_eq!(p.color(254), Rgb(253, 253, 253));
    assert_eq!(p.color(255), Rgb(255, 255, 255));
}

#[test]
fn palette_channels_move_monotonically_within_a_range() {
    let stops = vec![Rgb(97, 179, 255), Rgb(33, 10, 127), Rgb(5, 136, 218)];
    let p = Palette::from_gradient(&stops);
    // 2 ranges of width 128; slots 0..128 blend stop 0 -> stop 1 (all
    // channels descending), slots 128..256 blend stop 1 -> stop 2 (red
    // descending, green and blue ascending).
    for i in 1u16..128 {
        let prev = p.color((i - 1) as u8);
        let cur = p.color(i as u8);
        assert!(cur.0 <= prev.0 && cur.1 <= prev.1 && cur.2 <= prev.2);
    }
    for i in 129u16..256 {
        let prev = p.color((i - 1) as u8);
        let cur = p.color(i as u8);
        assert!(cur.0 <= prev.0 && cur.1 >= prev.1 && cur.2 >= prev.2);
    }
}

#[test]
fn palette_descending_channel_exact_value() {
    // Two stops, red channel 200 -> 100: slot k is 200 - ceil(100 * k / 256).
    let p = Palette::from_gradient(&[Rgb(200, 0, 0), Rgb(100, 0, 0)]);
    assert_eq!(p.color(0), Rgb(200, 0, 0));
    assert_eq!(p.color(64), Rgb(175, 0, 0));
    assert_eq!(p.color(128), Rgb(150, 0, 0));
}
