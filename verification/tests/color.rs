use threed_from_scratch::color::{get_alpha, get_blue, get_green, get_red, make_color, Color};

#[test]
fn channels_of_a_packed_color() {
    let color: Color = 0x12345678;
    assert_eq!(get_alpha(color), 0x12);
    assert_eq!(get_red(color), 0x34);
    assert_eq!(get_green(color), 0x56);
    assert_eq!(get_blue(color), 0x78);
}

#[test]
fn make_color_packs_alpha_first() {
    assert_eq!(make_color(0x12, 0x34, 0x56, 0x78), 0x12345678);
    assert_eq!(make_color(0xFF, 0, 0, 0), 0xFF000000);
    assert_eq!(make_color(0, 0, 0, 0xFF), 0x000000FF);
    assert_eq!(make_color(0, 0, 0, 0), 0);
}

#[test]
fn channels_read_back_what_was_packed() {
    for &(a, r, g, b) in &[(0u8, 0u8, 0u8, 0u8), (255, 255, 255, 255), (1, 2, 3, 4), (0xAB, 0, 0xCD, 0x7F)] {
        let color = make_color(a, r, g, b);
        assert_eq!(get_alpha(color), a);
        assert_eq!(get_red(color), r);
        assert_eq!(get_green(color), g);
        assert_eq!(get_blue(color), b);
    }
}

#[test]
fn packing_the_channels_gives_the_color_back() {
    for &color in &[0u32, 0xFFFFFFFF, 0xFFAAAAAA, 0x80FF0001, 0x01234567] {
        let again = make_color(get_alpha(color), get_red(color), get_green(color), get_blue(color));
        assert_eq!(again, color);
    }
}
