use cordiale::taskbar::{badge_pixels, SIZE};

#[test]
fn badge_is_a_red_disc_with_white_digits() {
    let one = badge_pixels(1);
    assert_eq!(one.len(), SIZE * SIZE);
    // Corners stay transparent, the rim is opaque red.
    assert_eq!(one[0] >> 24, 0);
    assert_eq!(one[8 * SIZE + 1], 0xFFD3_2F2F);
    // The "1" stem (column 1 of the glyph) is white, its sides aren't.
    let top = (SIZE - 10) / 2;
    let left = (SIZE - 6) / 2;
    assert_eq!(one[(top + 4) * SIZE + left + 2], 0xFFFF_FFFF);
    assert_ne!(one[(top + 4) * SIZE + left], 0xFFFF_FFFF);
    // Two digits still fit inside the disc; the count is capped at 99.
    assert_eq!(badge_pixels(150), badge_pixels(99));
    let ninety_nine = badge_pixels(99);
    for (index, pixel) in ninety_nine.iter().enumerate() {
        if *pixel == 0xFFFF_FFFF {
            let (x, y) = (index % SIZE, index / SIZE);
            assert!(one[y * SIZE + x] >> 24 > 0, "digit pixel off the disc");
        }
    }
}

#[test]
fn the_disc_is_covered_as_its_distance_says() {
    let badge = badge_pixels(1);
    let radius = SIZE as f32 / 2.0;
    for y in 0..SIZE {
        for x in 0..SIZE {
            if badge[y * SIZE + x] == 0xFFFF_FFFF {
                continue;
            }
            let dx = x as f32 + 0.5 - radius;
            let dy = y as f32 + 0.5 - radius;
            let coverage = (radius - (dx * dx + dy * dy).sqrt() + 0.5).clamp(0.0, 1.0);
            let alpha = (coverage * 255.0).round() as u32;
            assert_eq!(badge[y * SIZE + x], (alpha << 24) | 0x00D3_2F2F);
        }
    }
}

#[test]
fn two_digits_stand_side_by_side() {
    let badge = badge_pixels(47);
    let lit = |x: usize, y: usize| badge[y * SIZE + x] == 0xFFFF_FFFF;
    let rows: Vec<String> = (3..13)
        .step_by(2)
        .map(|y| (1..15).step_by(2).map(|x| if lit(x, y) { '#' } else { '.' }).collect())
        .collect();
    assert_eq!(rows, ["#.#.###", "#.#...#", "###...#", "..#...#", "..#...#"]);
    assert_eq!(badge_pixels(-5), badge_pixels(0));
}

#[test]
fn a_negative_count_looks_like_none() {
    assert_eq!(badge_pixels(-3), badge_pixels(0));
}
