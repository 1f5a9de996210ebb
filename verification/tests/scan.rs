use raster::buffer::Buffer;
use raster::render::background_sky;
use raster::render::next_pow2;
use raster::render::polygon_spans;
use raster::render::sample;
use raster::render::sprite_square;
use raster::render::wall_column;

fn flat_texture(rgb: [u8; 3]) -> Vec<u8> {
    let mut t = Vec::new();
    for _ in 0..256 {
        t.push(rgb[0]);
        t.push(rgb[1]);
        t.push(rgb[2]);
    }
    t
}

#[test]
fn sample_wraps_both_coordinates() {
    let mut t = Vec::new();
    for i in 0..768 {
        t.push((i % 251) as u8);
    }
    // (17, 33) wraps to (1, 1): byte offset (1*16 + 1)*3 = 51.
    let r = sample(&t, 17, 33);
    assert_eq!(r, [t[51], t[52], t[53]]);
    // Unwrapped coordinates below 16 hit the same texel.
    assert_eq!(sample(&t, 1, 1), r);
}

#[test]
fn next_pow2_values() {
    assert_eq!(next_pow2(1), 1);
    assert_eq!(next_pow2(2), 2);
    assert_eq!(next_pow2(3), 4);
    assert_eq!(next_pow2(128), 128);
    assert_eq!(next_pow2(150), 256);
    assert_eq!(next_pow2(200), 256);
}

#[test]
fn background_sky_covers_top_half() {
    let mut b = Buffer::new(8, 8);
    let ambient = [0, 40, 0];
    background_sky(&mut b, &ambient, 8, 8);
    for x in 0..8usize {
        for y in 0..8usize {
            let base = (x + y * 8) * 3;
            if y < 4 {
                assert_eq!(&b.pixels[base..base + 3], &ambient);
            } else {
                assert_eq!(&b.pixels[base..base + 3], &[0, 0, 0]);
            }
        }
    }
    // Sky writes carry no depth.
    assert!(b.zbuffer.iter().all(|&v| v == 0));
}

#[test]
fn wall_column_paints_row_range() {
    let mut b = Buffer::new(8, 8);
    b.clear();
    let tex = flat_texture([10, 20, 30]);
    // Full tint, full fog weight: the written color is just the tinted texel
    // floor([10,20,30] * 255 / 256) = [9, 19, 29].
    wall_column(&mut b, &tex, &[255, 255, 255], &[0, 0, 0], 8, 8, 3, 1, 6, 0, 32, 1000, 65536);
    for y in 0..8usize {
        let base = (3 + y * 8) * 3;
        if (1..6).contains(&y) {
            assert_eq!(&b.pixels[base..base + 3], &[9, 19, 29]);
            assert_eq!(b.depth(3, y), 1000);
        } else {
            assert_eq!(&b.pixels[base..base + 3], &[0, 0, 0]);
        }
    }
    // No other column touched.
    for x in 0..8usize {
        if x != 3 {
            for y in 0..8usize {
                let base = (x + y * 8) * 3;
                assert_eq!(&b.pixels[base..base + 3], &[0, 0, 0]);
            }
        }
    }
}

#[test]
fn wall_column_respects_nearer_depth() {
    let mut b = Buffer::new(8, 8);
    b.clear();
    b.set_pixel3(3, 2, 10, [1, 1, 1]);
    let tex = flat_texture([10, 20, 30]);
    wall_column(&mut b, &tex, &[255, 255, 255], &[0, 0, 0], 8, 8, 3, 0, 7, 0, 32, 1000, 65536);
    // Row 2 already holds a nearer surface and keeps it.
    let base = (3 + 2 * 8) * 3;
    assert_eq!(&b.pixels[base..base + 3], &[1, 1, 1]);
    assert_eq!(b.depth(3, 2), 10);
    // Row 3 was free and takes the wall.
    let base3 = (3 + 3 * 8) * 3;
    assert_eq!(&b.pixels[base3..base3 + 3], &[9, 19, 29]);
}

#[test]
fn wall_column_applies_fog() {
    let mut b = Buffer::new(8, 8);
    b.clear();
    let tex = flat_texture([100, 100, 100]);
    // Tinted texel is floor(100*255/256) = 99; half fog toward [1, 1, 1]
    // gives round((99 + 1) / 2) = 50.
    wall_column(&mut b, &tex, &[255, 255, 255], &[1, 1, 1], 8, 8, 0, 0, 7, 0, 32, 7, 32768);
    let base = (0 + 4 * 8) * 3;
    assert_eq!(&b.pixels[base..base + 3], &[50, 50, 50]);
}

#[test]
fn sprite_square_skips_black_texels() {
    let mut b = Buffer::new(8, 8);
    b.clear();
    let tex = flat_texture([0, 0, 0]);
    sprite_square(&mut b, &tex, &[255, 255, 255], &[0, 0, 0], 8, 8, 4, 4, 4, 100, 65536);
    assert!(b.pixels.iter().all(|&v| v == 0));
    assert!(b.zbuffer.iter().all(|&v| v == 0xFFFF_FFFF));
}

#[test]
fn sprite_square_paints_clamped_square() {
    let mut b = Buffer::new(8, 8);
    b.clear();
    let tex = flat_texture([100, 100, 100]);
    sprite_square(&mut b, &tex, &[255, 255, 255], &[0, 0, 0], 8, 8, 4, 4, 4, 100, 65536);
    // Square center (4,4), side 4: pixels [2,6) x [2,6).
    for x in 0..8usize {
        for y in 0..8usize {
            let base = (x + y * 8) * 3;
            if (2..6).contains(&x) && (2..6).contains(&y) {
                assert_eq!(&b.pixels[base..base + 3], &[99, 99, 99]);
                assert_eq!(b.depth(x, y), 100);
            } else {
                assert_eq!(&b.pixels[base..base + 3], &[0, 0, 0]);
            }
        }
    }
}

#[test]
fn polygon_spans_square_skips_degenerate_left_edge() {
    // Axis-aligned square: the leftmost column meets the vertical edge, whose
    // zero column span is skipped; the remaining columns fill rows 0..5.
    let pts = vec![(0i64, 0i64), (4, 0), (4, 4), (0, 4)];
    let spans = polygon_spans(&pts, 8, 8);
    assert_eq!(spans, vec![(1, 0, 5), (2, 0, 5), (3, 0, 5), (4, 0, 5)]);
}

#[test]
fn polygon_spans_triangle_interpolates() {
    let pts = vec![(0i64, 0i64), (6, 2), (0, 4)];
    let spans = polygon_spans(&pts, 8, 8);
    assert_eq!(
        spans,
        vec![(1, 0, 5), (2, 0, 5), (3, 1, 5), (4, 1, 4), (5, 1, 4), (6, 2, 4)]
    );
}

#[test]
fn polygon_spans_clamps_to_screen() {
    // Tall thin triangle reaching far above and below the screen.
    let pts = vec![(1i64, -100i64), (5, 100), (1, 100)];
    let spans = polygon_spans(&pts, 4, 4);
    for &(x, y0, y1) in &spans {
        assert!(x < 4);
        assert!(y0 < y1);
        assert!(y1 <= 4);
    }
}

#[test]
fn polygon_spans_offscreen_is_empty() {
    let pts = vec![(-5i64, 0i64), (-2, 3), (-5, 3)];
    assert!(polygon_spans(&pts, 8, 8).is_empty());
}

#[test]
fn polygon_spans_single_point_is_empty() {
    let pts = vec![(2i64, 2i64)];
    assert!(polygon_spans(&pts, 8, 8).is_empty());
}

#[test]
fn passes_compose_by_depth_not_order() {
    // A frame: clear, sky, a far wall column, then a nearer sprite overlapping
    // it; the sprite wins exactly where it is nearer, whatever was drawn first.
    let mut b = Buffer::new(8, 8);
    b.clear();
    background_sky(&mut b, &[0, 40, 0], 8, 8);
    let wall_tex = flat_texture([200, 0, 0]);
    let sprite_tex = flat_texture([0, 200, 0]);
    wall_column(&mut b, &wall_tex, &[255, 255, 255], &[0, 0, 0], 8, 8, 4, 0, 7, 0, 32, 1000, 65536);
    sprite_square(&mut b, &sprite_tex, &[255, 255, 255], &[0, 0, 0], 8, 8, 4, 4, 4, 500, 65536);
    // Inside the sprite square the sprite's nearer depth replaced the wall.
    assert_eq!(b.depth(4, 4), 500);
    let base = (4 + 4 * 8) * 3;
    assert_eq!(&b.pixels[base..base + 3], &[0, 199, 0]);
    // Above the square the wall column still stands.
    assert_eq!(b.depth(4, 1), 1000);
    let base1 = (4 + 1 * 8) * 3;
    assert_eq!(&b.pixels[base1..base1 + 3], &[199, 0, 0]);
    // A second, farther wall cannot displace the sprite.
    wall_column(&mut b, &wall_tex, &[255, 255, 255], &[0, 0, 0], 8, 8, 4, 0, 7, 0, 32, 800, 65536);
    assert_eq!(b.depth(4, 4), 500);
    assert_eq!(&b.pixels[base..base + 3], &[0, 199, 0]);
}
