use semitile_core::Color;
use semitile_core::Palette;

#[test]
fn test_color_new() {
    let color = Color::new(15, 20, 25);
    assert_eq!(color.rgb(), (15, 20, 25));
}

#[test]
fn test_color_new_clamps() {
    let color = Color::new(50, 100, 255);
    assert_eq!(color.rgb(), (31, 31, 31)); // All clamped to max
}

#[test]
fn test_color_rgb555_conversion() {
    let color = Color::new(31, 16, 8);
    let rgb555 = color.to_rgb555();

    // 31 << 10 | 16 << 5 | 8 = 0b11111_10000_01000
    assert_eq!(rgb555, 0b11111_10000_01000);

    let color2 = Color::from_rgb555(rgb555);
    assert_eq!(color, color2);
}

#[test]
fn test_color_rgb555_black() {
    let color = Color::new(0, 0, 0);
    assert_eq!(color.to_rgb555(), 0x0000);

    let color2 = Color::from_rgb555(0x0000);
    assert_eq!(color, color2);
}

#[test]
fn test_color_rgb555_white() {
    let color = Color::new(31, 31, 31);
    assert_eq!(color.to_rgb555(), 0x7FFF);

    let color2 = Color::from_rgb555(0x7FFF);
    assert_eq!(color, color2);
}

#[test]
fn test_color_rgb888_conversion() {
    let color = Color::new(31, 0, 0); // Max red
    let (r, g, b) = color.to_rgb888();

    // 31 << 3 | 31 >> 2 = 248 | 7 = 255
    assert_eq!(r, 255);
    assert_eq!(g, 0);
    assert_eq!(b, 0);
}

#[test]
fn test_color_rgb888_round_trip() {
    // RGB888 -> RGB555 -> RGB888 may not be exact due to precision loss
    let color = Color::from_rgb888(255, 128, 64);
    assert_eq!(color.rgb(), (31, 16, 8)); // 255>>3=31, 128>>3=16, 64>>3=8
}

#[test]
fn test_color_default() {
    let color = Color::default();
    assert_eq!(color.rgb(), (0, 0, 0));
}

#[test]
fn test_color_rgb888_endpoints() {
    // The 5-to-8-bit expansion maps channel 0 to 0 and channel 31 to 255.
    assert_eq!(Color::new(0, 0, 0).to_rgb888(), (0, 0, 0));
    assert_eq!(Color::new(31, 31, 31).to_rgb888(), (255, 255, 255));
}

#[test]
fn test_color_rgb888_reduction_stable() {
    // After the lossy 8-to-5-bit reduction, the RGB555 packing round-trips
    // exactly: the first reduction is a stable fixed point.
    for v in 0u16..256 {
        let c = Color::from_rgb888(v as u8, (255 - v) as u8, (v / 2) as u8);
        let c2 = Color::from_rgb555(c.to_rgb555());
        assert_eq!(c, c2);
    }
}

#[test]
fn test_palette_new() {
    let palette = Palette::new();

    // All colors should be black by default
    for p in 0u8..16 {
        for c in 0u8..16 {
            assert_eq!(palette.get_color(p, c), Color::default());
        }
    }
}

#[test]
fn test_palette_set_and_get() {
    let mut palette = Palette::new();
    let color = Color::new(15, 20, 25);

    palette.set_color(3, 7, color);
    assert_eq!(palette.get_color(3, 7), color);
    assert_eq!(palette.get_color(0, 0), Color::default()); // Others unchanged
}

#[test]
fn test_palette_wrapping() {
    let mut palette = Palette::new();
    let color = Color::new(10, 10, 10);

    // Indices > 15 should wrap
    palette.set_color(18, 20, color); // Wraps to (2, 4)
    assert_eq!(palette.get_color(2, 4), color);
}

#[test]
fn test_palette_binary_export() {
    let mut palette = Palette::new();

    // Set a few colors
    palette.set_color(0, 0, Color::new(31, 31, 31)); // White
    palette.set_color(0, 1, Color::new(31, 0, 0)); // Red
    palette.set_color(1, 0, Color::new(0, 31, 0)); // Green
    palette.set_color(1, 1, Color::new(0, 0, 31)); // Blue

    let binary = palette.export_binary();
    assert_eq!(binary.len(), 512);

    // Check white (0x7FFF) at position 0
    assert_eq!(binary[0], 0xFF); // Low byte
    assert_eq!(binary[1], 0x7F); // High byte

    // Check red (31 << 10 = 0x7C00) at position 1
    assert_eq!(binary[2], 0x00);
    assert_eq!(binary[3], 0x7C);
}

#[test]
fn test_palette_binary_import() {
    let mut palette1 = Palette::new();

    // Set up a pattern
    for p in 0usize..16 {
        for c in 0usize..16 {
            let color = Color::new((p + c) as u8, p as u8, c as u8);
            palette1.set_color(p as u8, c as u8, color);
        }
    }

    let binary = palette1.export_binary();
    let palette2 = Palette::import_binary(&binary).unwrap();

    assert_eq!(palette1, palette2);
}

#[test]
fn test_palette_binary_import_wrong_size() {
    let data = vec![0u8; 256]; // Wrong size
    assert!(Palette::import_binary(&data).is_none());

    let data = vec![0u8; 1024]; // Wrong size
    assert!(Palette::import_binary(&data).is_none());
}

#[test]
fn test_palette_binary_round_trip() {
    let palette1 = Palette::new();
    let binary = palette1.export_binary();
    let palette2 = Palette::import_binary(&binary).unwrap();

    assert_eq!(palette1, palette2);
}

#[test]
fn test_palette_binary_import_export_bytes() {
    // Importing any 512-byte blob whose unused bit 15 is clear and
    // exporting again restores the blob exactly.
    let mut data: Vec<u8> = Vec::with_capacity(512);
    for i in 0usize..512 {
        if i % 2 == 0 {
            data.push((i * 7 % 256) as u8);
        } else {
            data.push((i * 11 % 128) as u8); // high byte: bit 7 clear
        }
    }
    let palette = Palette::import_binary(&data).unwrap();
    assert_eq!(palette.export_binary(), data);
}

#[test]
fn test_color_all_values() {
    // Test all possible 5-bit values for RGB555 conversion
    for r in 0u8..32 {
        for g in 0u8..32 {
            for b in 0u8..32 {
                let color = Color::new(r, g, b);
                let rgb555 = color.to_rgb555();
                let color2 = Color::from_rgb555(rgb555);
                assert_eq!(
                    color, color2,
                    "Round-trip failed for RGB({}, {}, {})",
                    r, g, b
                );
            }
        }
    }
}
