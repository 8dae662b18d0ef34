use renderer::color::{Color24, Color32};

#[test]
fn pack_puts_red_in_the_most_significant_byte() {
    let color = Color32::new(0x12, 0x34, 0x56, 0x78);
    assert_eq!(color.get_pixel_value(), 0x1234_5678);
}

#[test]
fn unpack_reads_red_from_the_most_significant_byte() {
    let color = Color32::from_pixel_value(0x1234_5678);
    assert_eq!(color, Color32 { r: 0x12, g: 0x34, b: 0x56, a: 0x78 });
}

#[test]
fn unpack_inverts_pack_on_a_grid_of_channels() {
    let samples: [u8; 7] = [0, 1, 2, 127, 128, 254, 255];
    for &r in samples.iter() {
        for &g in samples.iter() {
            for &b in samples.iter() {
                for &a in samples.iter() {
                    let color = Color32::new(r, g, b, a);
                    assert_eq!(Color32::from_pixel_value(color.get_pixel_value()), color);
                }
            }
        }
    }
}

#[test]
fn pack_inverts_unpack() {
    for value in [0u32, 1, 0xff, 0x100, 0xdead_beef, 0x8000_0000, u32::MAX] {
        assert_eq!(Color32::from_pixel_value(value).get_pixel_value(), value);
    }
}

#[test]
fn color24_becomes_opaque() {
    let color = Color32::from_color24(&Color24 { r: 10, g: 20, b: 30 });
    assert_eq!(color, Color32 { r: 10, g: 20, b: 30, a: 255 });
    assert_eq!(color.get_pixel_value(), 0x0a14_1eff);
}

#[test]
fn grey_is_opaque_and_even() {
    assert_eq!(Color32::grey(200), Color32 { r: 200, g: 200, b: 200, a: 255 });
}
