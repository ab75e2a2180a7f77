//! The pixels of the tray's mark.
use corral::daemon::icon::{pixmap, SAMPLES, SIZES};

#[test]
fn a_pixmap_holds_four_bytes_for_each_pixel() {
    for side in SIZES {
        let half = side * SAMPLES / 2;
        let data = pixmap(side, false, &|x: u32, _y: u32| x < half);
        assert_eq!(data.len(), (side * side * 4) as usize);
        assert_eq!(&data[..4], &[255, 0xD5, 0xD8, 0xDC]);
        assert_eq!(&data[data.len() - 4..], &[0, 0, 0, 0]);
    }
}

#[test]
fn a_pixel_is_as_opaque_as_it_is_covered() {
    // One pixel, of whose sixteen samples the first row lies on the mark.
    assert_eq!(pixmap(1, true, &|_x: u32, y: u32| y == 0), vec![63, 0xE0, 0x52, 0x4D]);
    assert_eq!(pixmap(1, true, &|x: u32, y: u32| x == 3 && y == 3), vec![15, 0xE0, 0x52, 0x4D]);
    assert_eq!(pixmap(1, true, &|_x: u32, _y: u32| false), vec![0, 0, 0, 0]);
    // Two pixels a side: only the lower right one is covered.
    let data = pixmap(2, false, &|x: u32, y: u32| x >= 4 && y >= 4);
    assert_eq!(data, vec![0, 0, 0, 0, 0, 0, 0, 0, 0, 0, 0, 0, 255, 0xD5, 0xD8, 0xDC]);
}

#[test]
fn attention_and_calm_differ_in_colour_alone() {
    let mark = |x: u32, y: u32| (x / 8 + y / 8) % 2 == 0;
    let calm = pixmap(16, false, &mark);
    let accent = pixmap(16, true, &mark);
    assert_ne!(calm, accent);
    for (a, b) in calm.chunks(4).zip(accent.chunks(4)) {
        assert_eq!(a[0], b[0]);
        assert_eq!(a == b, a[0] == 0);
    }
}
