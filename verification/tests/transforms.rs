use imagetor::compose::{addwatermark, ArrayEmptyError};
use imagetor::fit::{fit_dimensions, page_placement};
use imagetor::flip::{flip_horizontal, flip_vertical};
use imagetor::resample::resize;
use imagetor::tensor::{PixelTensor, CHANNEL_UNIT};

fn px(r: u64, g: u64, b: u64, a: u64) -> Vec<u64> {
    vec![r, g, b, a]
}

fn solid(width: usize, height: usize, pixel: &[u64; 4]) -> PixelTensor {
    let mut t: PixelTensor = Vec::new();
    for _ in 0..height {
        let mut row = Vec::new();
        for _ in 0..width {
            row.push(pixel.to_vec());
        }
        t.push(row);
    }
    t
}

#[test]
fn flip_vertical_reverses_rows() {
    let mut t = vec![
        vec![px(1, 2, 3, 4)],
        vec![px(5, 6, 7, 8)],
        vec![px(9, 10, 11, 12)],
    ];
    flip_vertical(&mut t);
    assert_eq!(t[0][0], px(9, 10, 11, 12));
    assert_eq!(t[1][0], px(5, 6, 7, 8));
    assert_eq!(t[2][0], px(1, 2, 3, 4));
}

#[test]
fn flip_horizontal_reverses_columns() {
    let mut t = vec![vec![px(1, 0, 0, 0), px(2, 0, 0, 0), px(3, 0, 0, 0)]];
    flip_horizontal(&mut t);
    assert_eq!(t[0][0], px(3, 0, 0, 0));
    assert_eq!(t[0][1], px(2, 0, 0, 0));
    assert_eq!(t[0][2], px(1, 0, 0, 0));
}

#[test]
fn double_flip_is_identity() {
    let original = vec![
        vec![px(1, 2, 3, 4), px(5, 6, 7, 8)],
        vec![px(9, 10, 11, 12), px(13, 14, 15, 16)],
        vec![px(17, 18, 19, 20), px(21, 22, 23, 24)],
    ];
    let mut t = original.clone();
    flip_vertical(&mut t);
    flip_vertical(&mut t);
    assert_eq!(t, original);
    flip_horizontal(&mut t);
    flip_horizontal(&mut t);
    assert_eq!(t, original);
}

#[test]
fn fit_never_upscales() {
    assert_eq!(fit_dimensions(50, 60, 100, 100), (50, 60));
    assert_eq!(fit_dimensions(100, 100, 100, 100), (100, 100));
    assert_eq!(fit_dimensions(1, 1, 5000, 5000), (1, 1));
}

#[test]
fn fit_shrinks_to_bounds() {
    // factor = min(100/400, 100/300) = 0.25, so (400, 300) becomes (100, 75)
    assert_eq!(fit_dimensions(400, 300, 100, 100), (100, 75));
    // the height is the limiting axis here
    assert_eq!(fit_dimensions(100, 400, 100, 100), (25, 100));
}

#[test]
fn resize_identity_keeps_interior() {
    let mut t: PixelTensor = Vec::new();
    for y in 0..3u64 {
        let mut row = Vec::new();
        for x in 0..3u64 {
            row.push(px(y * 30 + x, 100 + x, 200 + y, CHANNEL_UNIT));
        }
        t.push(row);
    }
    let original = t.clone();
    resize(&mut t, 3, 3);
    for y in 0..2 {
        for x in 0..2 {
            assert_eq!(t[y][x], original[y][x]);
        }
    }
    // the boundary policy drops destinations mapped to the last row or column
    for k in 0..3 {
        assert_eq!(t[2][k], px(0, 0, 0, 0));
        assert_eq!(t[k][2], px(0, 0, 0, 0));
    }
}

#[test]
fn resize_blends_bilinearly() {
    let mut t = vec![
        vec![px(400, 0, 0, CHANNEL_UNIT), px(200, 0, 0, CHANNEL_UNIT)],
        vec![px(100, 0, 0, CHANNEL_UNIT), px(300, 0, 0, CHANNEL_UNIT)],
    ];
    resize(&mut t, 4, 4);
    assert_eq!(t.len(), 4);
    assert_eq!(t[0].len(), 4);
    // destination (0,0) maps exactly onto source (0,0)
    assert_eq!(t[0][0][0], 400);
    // destination (1,0) sits halfway between the two top pixels
    assert_eq!(t[0][1][0], (400 + 200) / 2);
    // destination (1,1) averages all four source pixels
    assert_eq!(t[1][1][0], (400 + 200 + 100 + 300) / 4);
    // destinations mapped to the last source row or column are dropped
    assert_eq!(t[0][2], px(0, 0, 0, 0));
    assert_eq!(t[3][1], px(0, 0, 0, 0));
}

#[test]
fn watermark_centers_overlay() {
    let white = [CHANNEL_UNIT, CHANNEL_UNIT, CHANNEL_UNIT, CHANNEL_UNIT];
    let red = [CHANNEL_UNIT, 0, 0, CHANNEL_UNIT];
    let mut base = solid(20, 20, &white);
    let overlay = solid(10, 10, &red);
    addwatermark(&overlay, &mut base).unwrap();
    for y in 0..20 {
        for x in 0..20 {
            if (5..15).contains(&y) && (5..15).contains(&x) {
                assert_eq!(base[y][x], red.to_vec(), "pixel ({}, {})", x, y);
            } else {
                assert_eq!(base[y][x], white.to_vec(), "pixel ({}, {})", x, y);
            }
        }
    }
}

#[test]
fn watermark_rejects_empty_inputs() {
    let empty: PixelTensor = Vec::new();
    let mut base = solid(4, 4, &[0, 0, 0, CHANNEL_UNIT]);
    let before = base.clone();
    let r: Result<(), ArrayEmptyError> = addwatermark(&empty, &mut base);
    assert!(r.is_err());
    assert_eq!(base, before);

    let overlay = solid(2, 2, &[0, 0, 0, CHANNEL_UNIT]);
    let mut empty_base: PixelTensor = Vec::new();
    assert!(addwatermark(&overlay, &mut empty_base).is_err());
    assert!(empty_base.is_empty());
}

#[test]
fn alpha_blend_arithmetic() {
    // overlay alpha 0.5 and color (1, 0, 0) over base (0, 0, 1):
    // R and B both become 0.5 and the result is forced opaque
    let half = CHANNEL_UNIT / 2;
    let mut base = solid(1, 1, &[0, 0, CHANNEL_UNIT, CHANNEL_UNIT]);
    let overlay = solid(1, 1, &[CHANNEL_UNIT, 0, 0, half]);
    addwatermark(&overlay, &mut base).unwrap();
    assert_eq!(base[0][0], px(half, 0, half, CHANNEL_UNIT));
}

#[test]
fn page_placement_centers_and_shrinks() {
    // twice as wide as the page: halved and centered vertically
    assert_eq!(page_placement(4960, 3507), (2480, 1753, 0, 877));
    // already fits: kept and centered in both axes
    assert_eq!(page_placement(100, 200), (100, 200, 1190, 1653));
}
