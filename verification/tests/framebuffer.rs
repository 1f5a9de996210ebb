use raster::buffer::Buffer;
use raster::buffer::DEPTH_MAX;

#[test]
fn new_allocates_zeroed_planes() {
    let b = Buffer::new(4, 4);
    assert_eq!(b.width, 4);
    assert_eq!(b.height, 4);
    assert_eq!(b.pixels.len(), 4 * 4 * 3);
    assert_eq!(b.zbuffer.len(), 4 * 4);
    assert!(b.pixels.iter().all(|&v| v == 0));
    assert!(b.zbuffer.iter().all(|&v| v == 0));
}

#[test]
fn clear_sets_every_depth_to_max() {
    let mut b = Buffer::new(4, 4);
    b.set_pixel(2, 1, [9, 8, 7]);
    b.clear();
    assert!(b.zbuffer.iter().all(|&v| v == DEPTH_MAX));
    // Color plane untouched by the depth reset.
    assert_eq!(&b.pixels[(2 + 1 * 4) * 3..(2 + 1 * 4) * 3 + 3], &[9, 8, 7]);
}

#[test]
fn set_pixel_writes_three_bytes() {
    let mut b = Buffer::new(4, 4);
    b.set_pixel(1, 2, [7, 8, 9]);
    let base = (1 + 2 * 4) * 3;
    assert_eq!(&b.pixels[base..base + 3], &[7, 8, 9]);
    // No depth write.
    assert!(b.zbuffer.iter().all(|&v| v == 0));
}

#[test]
fn set_pixel3_stores_depth() {
    let mut b = Buffer::new(4, 4);
    b.set_pixel3(3, 0, 1234, [1, 2, 3]);
    assert_eq!(b.depth(3, 0), 1234);
    assert_eq!(&b.pixels[3 * 3..3 * 3 + 3], &[1, 2, 3]);
}

#[test]
fn plot_writes_only_when_strictly_nearer() {
    let mut b = Buffer::new(4, 4);
    b.clear();
    assert!(b.plot(1, 1, 100, [10, 10, 10]));
    assert_eq!(b.depth(1, 1), 100);
    // Farther write refused.
    assert!(!b.plot(1, 1, 200, [20, 20, 20]));
    assert_eq!(b.depth(1, 1), 100);
    let base = (1 + 1 * 4) * 3;
    assert_eq!(&b.pixels[base..base + 3], &[10, 10, 10]);
    // Equal depth refused too: the first writer wins ties.
    assert!(!b.plot(1, 1, 100, [30, 30, 30]));
    assert_eq!(&b.pixels[base..base + 3], &[10, 10, 10]);
    // Strictly nearer write goes through.
    assert!(b.plot(1, 1, 50, [40, 40, 40]));
    assert_eq!(b.depth(1, 1), 50);
    assert_eq!(&b.pixels[base..base + 3], &[40, 40, 40]);
}

#[test]
fn plot_order_does_not_matter_for_distinct_depths() {
    let near = [40, 41, 42];
    let far = [90, 91, 92];
    let mut b1 = Buffer::new(4, 4);
    b1.clear();
    b1.plot(2, 2, 100, far);
    b1.plot(2, 2, 50, near);
    let mut b2 = Buffer::new(4, 4);
    b2.clear();
    b2.plot(2, 2, 50, near);
    b2.plot(2, 2, 100, far);
    assert_eq!(b1.pixels, b2.pixels);
    assert_eq!(b1.zbuffer, b2.zbuffer);
    let base = (2 + 2 * 4) * 3;
    assert_eq!(&b1.pixels[base..base + 3], &near);
    assert_eq!(b1.depth(2, 2), 50);
}

#[test]
fn plot_before_clear_hits_zero_depths() {
    // A fresh buffer's depths are zero, so nothing is nearer: a frame must
    // reset the depth plane before its depth-tested writes.
    let mut b = Buffer::new(4, 4);
    assert!(!b.plot(0, 0, 5, [1, 1, 1]));
    assert!(b.pixels.iter().all(|&v| v == 0));
}
