use ra2_shp::errors::Ra2Error;
use ra2_shp::pal::pal_color::PalColor;
use ra2_shp::pal::palette::Palette;
use ra2_shp::pal::reader::{
    add_alpha, color_array_from_pal, del_alpha, turn_blue, turn_gray, turn_green, turn_light_blue,
    turn_orange, turn_purple, turn_yellow, UnitColor,
};

fn pal_bytes() -> Vec<u8> {
    (0..768usize).map(|i| (i % 64) as u8).collect()
}

#[test]
fn decode_rejects_wrong_length() {
    for len in [0usize, 767, 769, 1024] {
        match Palette::decode(&vec![0u8; len]) {
            Err(Ra2Error::InvalidFormat { message }) => assert_eq!(
                message,
                "The byte array length is incorrect; the PAL file should be 256 * 3 bytes."
            ),
            _ => panic!("length {} should be refused", len),
        }
    }
}

#[test]
fn decode_reads_triples() {
    let bytes = pal_bytes();
    let p = Palette::decode(&bytes).unwrap();
    for i in 0..256usize {
        let c = p.colors[i];
        assert_eq!((c.red, c.green, c.blue), (bytes[3 * i], bytes[3 * i + 1], bytes[3 * i + 2]));
    }
    let c = p.get_color(5).unwrap();
    assert_eq!((c.red, c.green, c.blue), (15, 16, 17));
    let c = p.get_color(255).unwrap();
    assert_eq!((c.red, c.green, c.blue), (bytes[765], bytes[766], bytes[767]));
}

#[test]
fn pal_color_scales_to_eight_bits() {
    let c = PalColor { red: 63, green: 0, blue: 32 };
    assert_eq!(c.to_rgba(), [255, 0, 129, 255]);
    // A byte above 63 scales past 255 and keeps the low byte: 200 * 255 / 63 = 809.
    let c = PalColor { red: 200, green: 1, blue: 62 };
    assert_eq!(c.to_rgba(), [(809 % 256) as u8, 4, 250, 255]);
}

#[test]
fn alpha_helpers() {
    assert_eq!(del_alpha(0x12345678), 0x00345678);
    assert_eq!(add_alpha(0x00345678), 0xFF345678);
    assert_eq!(add_alpha(del_alpha(0x80ABCDEF)), 0xFFABCDEF);
}

#[test]
fn turns_move_the_red_byte() {
    let red = 0x00C00000u32;
    assert_eq!(turn_blue(red), 0x000000C0);
    assert_eq!(turn_green(red), 0x0000C000);
    assert_eq!(turn_yellow(red), 0x00C0C000);
    assert_eq!(turn_purple(red), 0x00C000C0);
    assert_eq!(turn_light_blue(red), 0x0000C0C0);
    assert_eq!(turn_gray(red), 0x00C0C0C0);
    // 124 * 0xC0 / 255 = 93.36..., rounded down.
    assert_eq!(turn_orange(red), 0x00C05D00);
}

#[test]
fn turn_orange_matches_real_arithmetic() {
    for a in 0u32..=0xFFFF {
        let ori = a << 16;
        let bl = a as f64 / 255.0;
        let b = (124.0 * bl) as u32;
        assert_eq!(turn_orange(ori), ori | (b << 8), "a = {}", a);
    }
}

#[test]
fn color_table_without_team() {
    let bytes = pal_bytes();
    let mut pal = [0u8; 768];
    pal.copy_from_slice(&bytes);
    let ca = color_array_from_pal(&pal, None);
    assert_eq!(ca[0], 0);
    for i in 1..256usize {
        let (r, g, b) = (pal[3 * i] as u32 * 4, pal[3 * i + 1] as u32 * 4, pal[3 * i + 2] as u32 * 4);
        assert_eq!(ca[i], 0xFF000000 | (r << 16) | (g << 8) | b);
    }
}

#[test]
fn color_table_with_team() {
    let mut pal = [0u8; 768];
    for i in 0..256usize {
        pal[3 * i] = 48; // red 48 * 4 = 192 = 0xC0
    }
    let none = color_array_from_pal(&pal, None);
    let blue = color_array_from_pal(&pal, Some(UnitColor::Blue));
    let gray = color_array_from_pal(&pal, Some(UnitColor::Gray));
    let red = color_array_from_pal(&pal, Some(UnitColor::Red));
    assert_eq!(red, none);
    for i in 0..256usize {
        if (17..32).contains(&i) {
            assert_eq!(blue[i], 0xFF0000C0);
            assert_eq!(gray[i], 0xFFC0C0C0);
        } else {
            assert_eq!(blue[i], none[i]);
            assert_eq!(gray[i], none[i]);
        }
    }
    assert_eq!(none[16], 0xFFC00000);
    assert_eq!(blue[0], 0);
}
