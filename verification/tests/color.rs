use raster::util::clamp;
use raster::util::color_mix;
use raster::util::color_mul;

#[test]
fn tint_truncation_full_white() {
    // Full-white tint on full-white input truncates to 254, not 255.
    assert_eq!(color_mul(&[255, 255, 255], &[255, 255, 255]), [254, 254, 254]);
}

#[test]
fn tint_zero_channel() {
    assert_eq!(color_mul(&[0, 10, 20], &[123, 255, 0]), [0, 9, 0]);
    assert_eq!(color_mul(&[0, 0, 0], &[255, 1, 77]), [0, 0, 0]);
}

#[test]
fn tint_exact_values() {
    // floor(100*50/256) = 19, floor(50*100/256) = 19, floor(200*128/256) = 100
    assert_eq!(color_mul(&[100, 50, 200], &[50, 100, 128]), [19, 19, 100]);
}

#[test]
fn fog_mix_full_weight_keeps_color() {
    let c1 = [13, 200, 255];
    let c2 = [90, 0, 1];
    assert_eq!(color_mix(&c1, &c2, 65536), c1);
}

#[test]
fn fog_mix_zero_weight_gives_fog() {
    let c1 = [13, 200, 255];
    let c2 = [90, 0, 1];
    assert_eq!(color_mix(&c1, &c2, 0), c2);
}

#[test]
fn fog_mix_midpoint_rounds() {
    // (100+200)/2 = 150.5 rounds down to 150 after the +half rounding term,
    // (255+0)/2 = 127.5 rounds up to 128.
    assert_eq!(color_mix(&[100, 0, 255], &[200, 0, 0], 32768), [150, 0, 128]);
}

#[test]
fn clamp_cases() {
    assert_eq!(clamp(5, 0, 10), 5);
    assert_eq!(clamp(-3, 0, 10), 0);
    assert_eq!(clamp(15, 0, 10), 10);
    assert_eq!(clamp(7, 7, 7), 7);
}
