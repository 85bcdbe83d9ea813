use metaballs::{
    background_tint, cell_value, field_grid, gen_color, isqrt, metaballise, palette_from_draws,
    scale_color, shade_cell, Blob, Params, Rgb, Shade, Vector2,
};

fn blob_at_cell(x: i64, y: i64) -> Blob {
    Blob { coord: Vector2 { x: x * 1000, y: y * 1000 }, velocity: Vector2 { x: 0, y: 0 }, falling: false }
}

fn params_with(color: Rgb, background: bool) -> Params {
    let mut p = Params::default();
    p.color = color;
    p.background_enable = background;
    p
}

/// Number of 4-connected regions of cells at or above `threshold`.
fn regions(values: &Vec<Vec<u32>>, threshold: u32) -> usize {
    let h = values.len();
    let w = if h == 0 { 0 } else { values[0].len() };
    let mut seen = vec![vec![false; w]; h];
    let mut count = 0;
    for i in 0..h {
        for j in 0..w {
            if seen[i][j] || values[i][j] < threshold {
                continue;
            }
            count += 1;
            let mut stack = vec![(i, j)];
            seen[i][j] = true;
            while let Some((a, b)) = stack.pop() {
                let mut next = Vec::new();
                if a > 0 { next.push((a - 1, b)); }
                if a + 1 < h { next.push((a + 1, b)); }
                if b > 0 { next.push((a, b - 1)); }
                if b + 1 < w { next.push((a, b + 1)); }
                for (c, d) in next {
                    if !seen[c][d] && values[c][d] >= threshold {
                        seen[c][d] = true;
                        stack.push((c, d));
                    }
                }
            }
        }
    }
    count
}

#[test]
fn isqrt_values() {
    assert_eq!(isqrt(0), 0);
    assert_eq!(isqrt(15), 3);
    assert_eq!(isqrt(16), 4);
    assert_eq!(isqrt(1_000_000), 1000);
    assert_eq!(isqrt(1u128 << 98), 1u128 << 49);
}

#[test]
fn single_blob_peaks_at_its_cell() {
    let blobs = vec![blob_at_cell(5, 5)];
    assert_eq!(cell_value(&blobs, 5, 5), 1000);
    assert_eq!(cell_value(&blobs, 5, 6), 1000);
    assert_eq!(cell_value(&blobs, 5, 7), 500);
    assert_eq!(cell_value(&blobs, 5, 9), 250);
    assert_eq!(cell_value(&blobs, 8, 9), 200);
    let mut last = 1000;
    for j in 5..20 {
        let v = cell_value(&blobs, 5, j);
        assert!(v <= last);
        last = v;
    }
}

#[test]
fn field_sums_and_saturates() {
    let blobs = vec![blob_at_cell(0, 0), blob_at_cell(4, 0)];
    // Halfway: 1/2 + 1/2.
    assert_eq!(cell_value(&blobs, 0, 2), 1000);
    // At column 1: 1/1 + 1/3, saturated.
    assert_eq!(cell_value(&blobs, 0, 1), 1000);
    // Row 2, column 2: two distances of sqrt(8), 2.828 cells, floored to
    // 2.828 thousandths each: 1000 / 2.828 = 353 each.
    assert_eq!(cell_value(&blobs, 2, 2), 706);
}

#[test]
fn empty_set_gives_blank_frame() {
    let blobs: Vec<Blob> = Vec::new();
    let values = field_grid(&blobs, 6, 4);
    assert_eq!(values.len(), 4);
    for row in &values {
        assert_eq!(row.len(), 6);
        assert!(row.iter().all(|v| *v == 0));
    }
    let p = params_with(Rgb { r: 200, g: 100, b: 50 }, false);
    let grid = metaballise(&blobs, &6, &4, &p);
    assert_eq!(grid.len(), 4);
    for row in &grid {
        assert_eq!(row.len(), 6);
        assert!(row.iter().all(|s| *s == Shade::Blank));
    }
}

#[test]
fn empty_set_with_background_gives_dark_tint() {
    let blobs: Vec<Blob> = Vec::new();
    let p = params_with(Rgb { r: 200, g: 100, b: 50 }, true);
    let grid = metaballise(&blobs, &3, &2, &p);
    for row in &grid {
        for s in row {
            match s {
                Shade::Background { base, .. } => assert_eq!(*base, Rgb { r: 0, g: 0, b: 0 }),
                other => panic!("expected a background cell, got {:?}", other),
            }
        }
    }
}

#[test]
fn blobs_merge_when_close_and_split_when_apart() {
    let close = vec![blob_at_cell(10, 10), blob_at_cell(14, 10)];
    let apart = vec![blob_at_cell(10, 10), blob_at_cell(18, 10)];
    let threshold = Params::default().threshold;
    assert_eq!(regions(&field_grid(&close, 30, 20), threshold), 1);
    assert_eq!(regions(&field_grid(&apart, 30, 20), threshold), 2);
}

#[test]
fn blobs_merge_up_to_five_cells_apart() {
    let threshold = Params::default().threshold;
    for d in 1..=5 {
        let pair = vec![blob_at_cell(10, 10), blob_at_cell(10 + d, 10)];
        assert_eq!(regions(&field_grid(&pair, 30, 20), threshold), 1, "distance {}", d);
    }
    for d in 6..=12 {
        let pair = vec![blob_at_cell(10, 10), blob_at_cell(10 + d, 10)];
        assert_eq!(regions(&field_grid(&pair, 30, 20), threshold), 2, "distance {}", d);
    }
}

#[test]
fn single_blob_inside_region_is_a_disk() {
    // With a threshold of 0.8 the inside region reaches 1.25 cells.
    let blobs = vec![blob_at_cell(5, 5)];
    let values = field_grid(&blobs, 11, 11);
    let mut inside = Vec::new();
    for i in 0..11 {
        for j in 0..11 {
            if values[i][j] >= 800 {
                inside.push((i, j));
            }
        }
    }
    assert_eq!(inside, vec![(4, 5), (5, 4), (5, 5), (5, 6), (6, 5)]);
}

#[test]
fn metaballise_matches_field_and_shade() {
    let blobs = vec![blob_at_cell(3, 2)];
    let p = params_with(Rgb { r: 200, g: 100, b: 50 }, true);
    let grid = metaballise(&blobs, &8, &5, &p);
    let values = field_grid(&blobs, 8, 5);
    assert_eq!(grid.len(), 5);
    for i in 0..5 {
        assert_eq!(grid[i].len(), 8);
        for j in 0..8 {
            assert_eq!(grid[i][j], shade_cell(values[i][j], i as u32, 5, &p));
        }
    }
    assert!(matches!(grid[2][3], Shade::Foreground { .. }));
    assert!(matches!(grid[0][7], Shade::Background { .. }));
}

#[test]
fn shade_inside_scales_and_shifts_hue() {
    let p = params_with(Rgb { r: 200, g: 100, b: 50 }, true);
    assert_eq!(
        shade_cell(1000, 0, 10, &p),
        Shade::Foreground { base: Rgb { r: 200, g: 100, b: 50 }, hue_keep: 801 }
    );
    assert_eq!(
        shade_cell(900, 0, 10, &p),
        Shade::Foreground { base: Rgb { r: 180, g: 90, b: 45 }, hue_keep: 801 }
    );
    assert_eq!(
        shade_cell(800, 5, 10, &p),
        Shade::Foreground { base: Rgb { r: 160, g: 80, b: 40 }, hue_keep: 896 }
    );
}

#[test]
fn shade_outside_with_and_without_background() {
    let p = params_with(Rgb { r: 200, g: 100, b: 50 }, true);
    assert_eq!(
        shade_cell(500, 0, 10, &p),
        Shade::Background { base: Rgb { r: 100, g: 50, b: 25 }, hue_keep: 501 }
    );
    let q = params_with(Rgb { r: 200, g: 100, b: 50 }, false);
    assert_eq!(shade_cell(799, 3, 10, &q), Shade::Blank);
}

#[test]
fn brighter_value_never_darkens() {
    let p = params_with(Rgb { r: 251, g: 17, b: 133 }, true);
    let mut last = (0u8, 0u8, 0u8);
    for v in 800..=1000u32 {
        match shade_cell(v, 2, 10, &p) {
            Shade::Foreground { base, .. } => {
                assert!(base.r >= last.0 && base.g >= last.1 && base.b >= last.2);
                last = (base.r, base.g, base.b);
            }
            other => panic!("expected a foreground cell, got {:?}", other),
        }
    }
}

#[test]
fn scale_color_values() {
    let c = Rgb { r: 255, g: 128, b: 1 };
    assert_eq!(scale_color(c, 1000), c);
    assert_eq!(scale_color(c, 0), Rgb { r: 0, g: 0, b: 0 });
    assert_eq!(scale_color(c, 500), Rgb { r: 127, g: 64, b: 0 });
}

#[test]
fn background_tint_values() {
    assert_eq!(background_tint(Rgb { r: 255, g: 0, b: 100 }), Rgb { r: 0, g: 51, b: 31 });
}

#[test]
fn palette_shuffles_channels() {
    assert_eq!(palette_from_draws(30, 100, 200, 2, 1), Rgb { r: 30, g: 100, b: 200 });
    assert_eq!(palette_from_draws(30, 100, 200, 0, 1), Rgb { r: 200, g: 100, b: 30 });
    assert_eq!(palette_from_draws(30, 100, 200, 2, 0), Rgb { r: 100, g: 30, b: 200 });
    assert_eq!(palette_from_draws(30, 100, 200, 1, 0), Rgb { r: 200, g: 30, b: 100 });
}

#[test]
fn gen_color_has_one_channel_per_band() {
    for _ in 0..50 {
        let c = gen_color();
        let mut chans = [c.r, c.g, c.b];
        chans.sort();
        assert!((20..50).contains(&chans[0]));
        assert!((50..150).contains(&chans[1]));
        assert!((150..255).contains(&chans[2]));
    }
}
