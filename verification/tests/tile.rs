use semitile_core::Tile;

#[test]
fn test_new_tile_is_empty() {
    let tile = Tile::new();
    for y in 0usize..8 {
        for x in 0usize..8 {
            assert_eq!(tile.get_pixel(x, y), 0);
        }
    }
}

#[test]
fn test_set_and_get_pixel() {
    let mut tile = Tile::new();
    tile.set_pixel(3, 4, 7);
    assert_eq!(tile.get_pixel(3, 4), 7);
    assert_eq!(tile.get_pixel(0, 0), 0);
}

#[test]
fn test_set_pixel_bounds_checking() {
    let mut tile = Tile::new();

    // Out of bounds - should be ignored
    tile.set_pixel(8, 0, 5);
    tile.set_pixel(0, 8, 5);
    tile.set_pixel(10, 10, 5);

    // Color too large - should be ignored
    tile.set_pixel(0, 0, 16);
    assert_eq!(tile.get_pixel(0, 0), 0);
}

#[test]
fn test_get_pixel_out_of_bounds() {
    let tile = Tile::new();
    assert_eq!(tile.get_pixel(8, 0), 0);
    assert_eq!(tile.get_pixel(0, 8), 0);
    assert_eq!(tile.get_pixel(100, 100), 0);
}

#[test]
fn test_planar_conversion_empty_tile() {
    let tile = Tile::new();
    let planar = tile.to_planar();

    // All bytes should be 0 for an empty tile
    for byte in planar.iter() {
        assert_eq!(*byte, 0);
    }

    // Round-trip conversion
    let tile2 = Tile::from_planar(&planar);
    assert_eq!(tile, tile2);
}

#[test]
fn test_planar_conversion_single_pixel() {
    let mut tile = Tile::new();
    tile.set_pixel(0, 0, 0b1111); // Color 15 at top-left

    let planar = tile.to_planar();

    // Top-left pixel (bit 7) should be set in all four planes
    assert_eq!(planar[0], 0b10000000); // Plane 0, row 0
    assert_eq!(planar[8], 0b10000000); // Plane 1, row 0
    assert_eq!(planar[16], 0b10000000); // Plane 2, row 0
    assert_eq!(planar[24], 0b10000000); // Plane 3, row 0

    // Round-trip conversion
    let tile2 = Tile::from_planar(&planar);
    assert_eq!(tile, tile2);
}

#[test]
fn test_planar_conversion_single_pixel_color_5() {
    let mut tile = Tile::new();
    tile.set_pixel(7, 0, 0b0101); // Color 5 at top-right

    let planar = tile.to_planar();

    // Top-right pixel (bit 0) should be set in planes 0 and 2 only
    // Color 5 = 0b0101 = planes 0 and 2
    assert_eq!(planar[0], 0b00000001); // Plane 0, row 0
    assert_eq!(planar[8], 0b00000000); // Plane 1, row 0
    assert_eq!(planar[16], 0b00000001); // Plane 2, row 0
    assert_eq!(planar[24], 0b00000000); // Plane 3, row 0

    // Round-trip conversion
    let tile2 = Tile::from_planar(&planar);
    assert_eq!(tile, tile2);
}

#[test]
fn test_planar_conversion_full_row() {
    let mut tile = Tile::new();
    // Set first row to alternating colors
    for x in 0usize..8 {
        tile.set_pixel(x, 0, (x % 2) as u8);
    }

    let planar = tile.to_planar();

    // First row should be 0b01010101 in plane 0, 0 in others
    assert_eq!(planar[0], 0b01010101);
    assert_eq!(planar[8], 0b00000000);
    assert_eq!(planar[16], 0b00000000);
    assert_eq!(planar[24], 0b00000000);

    // Round-trip conversion
    let tile2 = Tile::from_planar(&planar);
    assert_eq!(tile, tile2);
}

#[test]
fn test_planar_conversion_complex_pattern() {
    let mut tile = Tile::new();

    // Create a checkerboard pattern with different colors
    for y in 0usize..8 {
        for x in 0usize..8 {
            let color = ((x + y) % 16) as u8;
            tile.set_pixel(x, y, color);
        }
    }

    let planar = tile.to_planar();

    // Round-trip conversion should preserve all pixels
    let tile2 = Tile::from_planar(&planar);
    assert_eq!(tile, tile2);

    // Verify specific pixels
    for y in 0usize..8 {
        for x in 0usize..8 {
            assert_eq!(
                tile2.get_pixel(x, y),
                ((x + y) % 16) as u8,
                "Mismatch at ({}, {})",
                x,
                y
            );
        }
    }
}

#[test]
fn test_planar_all_colors() {
    // Test all 16 colors to ensure bit manipulation is correct
    for color in 0u8..16 {
        let mut tile = Tile::new();
        tile.set_pixel(3, 3, color);

        let planar = tile.to_planar();
        let tile2 = Tile::from_planar(&planar);

        assert_eq!(
            tile2.get_pixel(3, 3),
            color,
            "Round-trip failed for color {}",
            color
        );
    }
}

#[test]
fn test_planar_every_coordinate_every_color() {
    // Scatter-gather reproduces the exact pixel for every coordinate and
    // every color index, independently.
    for y in 0usize..8 {
        for x in 0usize..8 {
            for color in 0u8..16 {
                let mut tile = Tile::new();
                tile.set_pixel(x, y, color);
                let tile2 = Tile::from_planar(&tile.to_planar());
                assert_eq!(tile2.get_pixel(x, y), color);
            }
        }
    }
}
