//! The codec boundary: converting decoded raster images to tensors and back.
//!
//! Decoding and encoding belong to the `image` crate; this module only reads
//! pixels out of a decoded image and builds one from raw bytes. A decoded
//! image is modelled by `image_view`, its grid of RGBA channel bytes, shared
//! by every trusted item below.

use vstd::prelude::*;
use crate::tensor::{
    lemma_deep_index, wf, values_at_most, width_of, PixelTensor, TensorView, CHANNEL_STEP,
    CHANNEL_UNIT,
};

verus! {

#[verifier::external_type_specification]
#[verifier::external_body]
pub struct ExDynamicImage(image::DynamicImage);

/// The RGBA channel bytes of a decoded image: one sequence per row, one per
/// pixel, four bytes per pixel.
pub uninterp spec fn image_view(img: image::DynamicImage) -> Seq<Seq<Seq<u8>>>;

/// Relies on `image::GenericImageView::dimensions` for `DynamicImage`: the
/// width and height of the image, which bound its pixel grid.
#[verifier::external_body]
pub(crate) fn image_dimensions(img: &image::DynamicImage) -> (r: (u32, u32))
    ensures
        image_view(*img).len() == r.1 as nat,
        forall|y: int|
            0 <= y < r.1 ==> (#[trigger] image_view(*img)[y]).len() == r.0 as nat,
        forall|y: int, x: int|
            0 <= y < r.1 && 0 <= x < r.0 ==> (#[trigger] image_view(*img)[y][x]).len() == 4,
{
    image::GenericImageView::dimensions(img)
}

/// Relies on `image::GenericImageView::get_pixel` for `DynamicImage`: the
/// RGBA bytes of the pixel at (x, y); panics out of bounds, so bounds are
/// required.
#[verifier::external_body]
pub(crate) fn image_get_pixel(img: &image::DynamicImage, x: u32, y: u32) -> (r: (u8, u8, u8, u8))
    requires
        (y as nat) < image_view(*img).len(),
        (x as nat) < image_view(*img)[y as int].len(),
    ensures
        r.0 == image_view(*img)[y as int][x as int][0],
        r.1 == image_view(*img)[y as int][x as int][1],
        r.2 == image_view(*img)[y as int][x as int][2],
        r.3 == image_view(*img)[y as int][x as int][3],
{
    let p = image::GenericImageView::get_pixel(img, x, y).0;
    (p[0], p[1], p[2], p[3])
}

/// Relies on `image::ImageBuffer::from_raw`: an RGBA image over the given
/// row-major byte buffer, one pixel every four bytes; `None` only when the
/// buffer is smaller than the dimensions ask, which the bound rules out.
#[verifier::external_body]
pub(crate) fn image_from_rgba_bytes(width: u32, height: u32, data: Vec<u8>) -> (r: image::DynamicImage)
    requires
        data@.len() == width as nat * height as nat * 4,
    ensures
        image_view(r).len() == height as nat,
        forall|y: int|
            0 <= y < height ==> (#[trigger] image_view(r)[y]).len() == width as nat,
        forall|y: int, x: int|
            0 <= y < height && 0 <= x < width ==> (#[trigger] image_view(r)[y][x]).len() == 4,
        forall|y: int, x: int, c: int|
            0 <= y < height && 0 <= x < width && 0 <= c < 4
                ==> #[trigger] image_view(r)[y][x][c] == data@[(y * width + x) * 4 + c],
{
    let buffer: image::ImageBuffer<image::Rgba<u8>, Vec<u8>> =
        image::ImageBuffer::from_raw(width, height, data).unwrap();
    image::DynamicImage::ImageRgba8(buffer)
}

/// Relies on `image::DynamicImage::resize_exact`: a new image whose
/// dimensions are exactly the ones given, resampled with a Lanczos filter.
#[verifier::external_body]
pub(crate) fn image_resize_exact(img: &image::DynamicImage, nwidth: u32, nheight: u32) -> (r:
    image::DynamicImage)
    ensures
        image_view(r).len() == nheight as nat,
        forall|y: int|
            0 <= y < nheight ==> (#[trigger] image_view(r)[y]).len() == nwidth as nat,
        forall|y: int, x: int|
            0 <= y < nheight && 0 <= x < nwidth ==> (#[trigger] image_view(r)[y][x]).len() == 4,
{
    img.resize_exact(nwidth, nheight, image::imageops::FilterType::Lanczos3)
}

/// The tensor a byte grid converts to: every channel byte scaled by one
/// quantization step, so byte 255 becomes a full channel.
pub open spec fn tensor_of(v: Seq<Seq<Seq<u8>>>) -> TensorView {
    Seq::new(
        v.len(),
        |y: int|
            Seq::new(
                v[y].len(),
                |x: int|
                    Seq::new(
                        v[y][x].len(),
                        |c: int| (v[y][x][c] as int * CHANNEL_STEP as int) as u64,
                    ),
            ),
    )
}

/// The byte a channel value converts back to: scaled down by one quantization
/// step and truncated, saturating at 255 as a byte cast does.
pub open spec fn channel_byte(v: u64) -> u8 {
    if v / CHANNEL_STEP > 255 {
        255u8
    } else {
        (v / CHANNEL_STEP) as u8
    }
}

/// The byte grid a tensor converts to, channel by channel.
pub open spec fn image_of(t: TensorView) -> Seq<Seq<Seq<u8>>> {
    Seq::new(
        t.len(),
        |y: int|
            Seq::new(
                t[y].len(),
                |x: int| Seq::new(t[y][x].len(), |c: int| channel_byte(t[y][x][c])),
            ),
    )
}

/// Law: converting a byte grid to a tensor and back reproduces every channel
/// byte exactly, within the 8-bit quantization tolerance of the conversions.
pub proof fn lemma_image_round_trip(v: Seq<Seq<Seq<u8>>>)
    ensures
        image_of(tensor_of(v)) == v,
{
    assert forall|y: int, x: int, c: int|
        0 <= y < v.len() && 0 <= x < v[y].len() && 0 <= c
            < v[y][x].len() implies #[trigger] image_of(tensor_of(v))[y][x][c] == v[y][x][c] by {
        let b = v[y][x][c];
        assert(tensor_of(v)[y][x][c] == (b as int * CHANNEL_STEP as int) as u64);
        assert(((b as int * CHANNEL_STEP as int) as u64) / CHANNEL_STEP == b as u64);
    }
    assert(image_of(tensor_of(v)) =~~= v);
}

/// For every pixel at (x, y), reads the four channel bytes and scales each by
/// one quantization step, producing a normalized tensor of the image's width
/// and height. Returns a new tensor; the image is only read.
pub fn to_tensor(image: image::DynamicImage) -> (r: PixelTensor)
    ensures
        r.deep_view() == tensor_of(image_view(image)),
        wf(r.deep_view()),
        values_at_most(r.deep_view(), CHANNEL_UNIT),
{
    let ghost goal: TensorView = tensor_of(image_view(image));
    let dims = image_dimensions(&image);
    let width = dims.0;
    let height = dims.1;
    let mut tensor: PixelTensor = Vec::new();
    let mut y: u32 = 0;
    while y < height
        invariant
            y <= height,
            image_view(image).len() == height as nat,
            forall|j: int|
                0 <= j < height ==> (#[trigger] image_view(image)[j]).len() == width as nat,
            forall|j: int, i: int|
                0 <= j < height && 0 <= i < width
                    ==> (#[trigger] image_view(image)[j][i]).len() == 4,
            goal == tensor_of(image_view(image)),
            tensor@.len() == y as nat,
            forall|j: int| 0 <= j < y ==> #[trigger] tensor.deep_view()[j] == goal[j],
        decreases height - y,
    {
        let ghost prev = tensor.deep_view();
        let mut row: Vec<Vec<u64>> = Vec::new();
        let mut x: u32 = 0;
        while x < width
            invariant
                x <= width,
                y < height,
                image_view(image).len() == height as nat,
                forall|j: int|
                    0 <= j < height ==> (#[trigger] image_view(image)[j]).len() == width as nat,
                forall|j: int, i: int|
                    0 <= j < height && 0 <= i < width
                        ==> (#[trigger] image_view(image)[j][i]).len() == 4,
                goal == tensor_of(image_view(image)),
                row@.len() == x as nat,
                forall|i: int| 0 <= i < x ==> #[trigger] row.deep_view()[i] == goal[y as int][i],
            decreases width - x,
        {
            let ghost prev_row = row.deep_view();
            let p = image_get_pixel(&image, x, y);
            let mut pixel: Vec<u64> = Vec::new();
            pixel.push(p.0 as u64 * CHANNEL_STEP);
            pixel.push(p.1 as u64 * CHANNEL_STEP);
            pixel.push(p.2 as u64 * CHANNEL_STEP);
            pixel.push(p.3 as u64 * CHANNEL_STEP);
            proof {
                assert(pixel.deep_view() =~= pixel@);
                assert(pixel@ =~= goal[y as int][x as int]);
            }
            row.push(pixel);
            proof {
                assert forall|i: int| 0 <= i < row@.len() implies #[trigger] row.deep_view()[i]
                    == goal[y as int][i] by {
                    assert(row.deep_view()[i] == row@[i].deep_view());
                    if i < row@.len() - 1 {
                        assert(row@[i].deep_view() == prev_row[i]);
                    } else {
                        assert(row@[i] == pixel);
                    }
                }
            }
            x = x + 1;
        }
        proof {
            assert(row.deep_view() =~= goal[y as int]);
        }
        tensor.push(row);
        proof {
            assert forall|j: int| 0 <= j < tensor@.len() implies #[trigger] tensor.deep_view()[j]
                == goal[j] by {
                assert(tensor.deep_view()[j] == tensor@[j].deep_view());
                if j < tensor@.len() - 1 {
                    assert(tensor@[j].deep_view() == prev[j]);
                } else {
                    assert(tensor@[j] == row);
                }
            }
        }
        y = y + 1;
    }
    proof {
        assert(tensor.deep_view() =~= goal);
        assert forall|j: int, i: int, c: int|
            0 <= j < goal.len() && 0 <= i < goal[j].len() && 0 <= c
                < goal[j][i].len() implies #[trigger] goal[j][i][c] <= CHANNEL_UNIT by {
            assert(goal[j][i][c] == (image_view(image)[j][i][c] as int * CHANNEL_STEP as int) as u64);
        }
    }
    tensor
}

/// The inverse conversion to a flat, row-major RGBA byte buffer: each channel
/// is scaled down by one quantization step and truncated to a byte.
pub fn to_image_buffer(tensor: PixelTensor) -> (r: Vec<u8>)
    requires
        tensor@.len() > 0,
        wf(tensor.deep_view()),
        tensor@.len() * width_of(tensor.deep_view()) * 4 <= usize::MAX,
    ensures
        r@.len() == tensor@.len() * width_of(tensor.deep_view()) * 4,
        forall|y: int, x: int, c: int|
            0 <= y < tensor.deep_view().len() && 0 <= x < width_of(tensor.deep_view()) && 0 <= c < 4
                ==> #[trigger] r@[(y * width_of(tensor.deep_view()) + x) * 4 + c] == channel_byte(
                tensor.deep_view()[y][x][c],
            ),
{
    proof {
        lemma_deep_index(tensor);
    }
    let ghost t: TensorView = tensor.deep_view();
    let ghost w: int = width_of(t);
    let height = tensor.len();
    let width = tensor[0].len();
    let mut buffer: Vec<u8> = Vec::new();
    let mut y: usize = 0;
    while y < height
        invariant
            y <= height,
            height == t.len(),
            width == w,
            wf(t),
            t == tensor.deep_view(),
            height * w * 4 <= usize::MAX,
            tensor@.len() == height,
            forall|j: int| #![trigger tensor@[j]]
                0 <= j < height ==> tensor@[j].deep_view() == t[j] && tensor@[j]@.len() == w,
            forall|j: int, i: int| #![trigger tensor@[j]@[i]]
                0 <= j < height && 0 <= i < w ==> tensor@[j]@[i]@ == t[j][i]
                    && tensor@[j]@[i]@.len() == 4,
            buffer@.len() == y * w * 4,
            forall|j: int, i: int, c: int|
                0 <= j < y && 0 <= i < w && 0 <= c < 4 ==> #[trigger] buffer@[(j * w + i) * 4 + c]
                    == channel_byte(t[j][i][c]),
        decreases height - y,
    {
        let mut x: usize = 0;
        proof {
            assert forall|j: int, i: int, k: int|
                0 <= j < height && 0 <= i < w && 0 <= k < 4 && j * w + i < y * w
                    + x implies #[trigger] buffer@[(j * w + i) * 4 + k] == channel_byte(
                t[j][i][k],
            ) by {
                assert(j < y) by (nonlinear_arith)
                    requires j * w + i < y * w, 0 <= i, 0 <= j, 0 <= w;
            }
        }
        while x < width
            invariant
                x <= width,
                y < height,
                height == t.len(),
                width == w,
                wf(t),
                t == tensor.deep_view(),
                height * w * 4 <= usize::MAX,
                tensor@.len() == height,
                forall|j: int| #![trigger tensor@[j]]
                    0 <= j < height ==> tensor@[j].deep_view() == t[j] && tensor@[j]@.len() == w,
                forall|j: int, i: int| #![trigger tensor@[j]@[i]]
                    0 <= j < height && 0 <= i < w ==> tensor@[j]@[i]@ == t[j][i]
                        && tensor@[j]@[i]@.len() == 4,
                buffer@.len() == (y * w + x) * 4,
                forall|j: int, i: int, c: int|
                    0 <= j < height && 0 <= i < w && 0 <= c < 4 && j * w + i < y * w + x
                        ==> #[trigger] buffer@[(j * w + i) * 4 + c] == channel_byte(t[j][i][c]),
            decreases width - x,
        {
            proof {
                assert(y * w + x < height * w) by (nonlinear_arith)
                    requires y < height, x < w, 0 <= y, 0 <= x, 0 < w;
                assert((y * w + x) * 4 + 4 <= height * w * 4) by (nonlinear_arith)
                    requires y * w + x < height * w;
            }
            let mut c: usize = 0;
            while c < 4
                invariant
                    c <= 4,
                    x < width,
                    y < height,
                    height == t.len(),
                    width == w,
                    wf(t),
                    t == tensor.deep_view(),
                    tensor@.len() == height,
                    (y * w + x) * 4 + 4 <= height * w * 4,
                    height * w * 4 <= usize::MAX,
                    forall|j: int| #![trigger tensor@[j]]
                        0 <= j < height ==> tensor@[j].deep_view() == t[j] && tensor@[j]@.len()
                            == w,
                    forall|j: int, i: int| #![trigger tensor@[j]@[i]]
                        0 <= j < height && 0 <= i < w ==> tensor@[j]@[i]@ == t[j][i]
                            && tensor@[j]@[i]@.len() == 4,
                    buffer@.len() == (y * w + x) * 4 + c,
                    forall|j: int, i: int, k: int|
                        0 <= j < height && 0 <= i < w && 0 <= k < 4 && (j * w + i) * 4 + k < (y * w
                            + x) * 4 + c ==> #[trigger] buffer@[(j * w + i) * 4 + k]
                            == channel_byte(t[j][i][k]),
                decreases 4 - c,
            {
                let v: u64 = tensor[y][x][c];
                let scaled = v / CHANNEL_STEP;
                let byte: u8 = if scaled > 255 {
                    255
                } else {
                    scaled as u8
                };
                proof {
                    assert(v == t[y as int][x as int][c as int]);
                    assert(byte == channel_byte(v));
                }
                buffer.push(byte);
                proof {
                    assert forall|j: int, i: int, k: int|
                        0 <= j < height && 0 <= i < w && 0 <= k < 4 && (j * w + i) * 4 + k < (y * w
                            + x) * 4 + c + 1 implies #[trigger] buffer@[(j * w + i) * 4 + k]
                        == channel_byte(t[j][i][k]) by {
                        let idx = (j * w + i) * 4 + k;
                        if idx >= (y * w + x) * 4 + c {
                            // only (y, x, c) itself maps to the fresh slot
                            assert(idx == (y * w + x) * 4 + c);
                            if j * w + i < y * w + x {
                                assert((j * w + i) * 4 + k < (y * w + x) * 4) by (nonlinear_arith)
                                    requires j * w + i < y * w + x, k < 4, 0 <= k;
                                assert(false);
                            }
                            if j * w + i > y * w + x {
                                assert((j * w + i) * 4 + k >= (y * w + x) * 4 + 4)
                                    by (nonlinear_arith)
                                    requires j * w + i > y * w + x, 0 <= k;
                                assert(false);
                            }
                            assert(j * w + i == y * w + x);
                            assert(k == c);
                            if j < y {
                                assert(j * w + i < y * w + x) by (nonlinear_arith)
                                    requires j < y, i < w, 0 <= i, 0 <= x, 0 < w;
                            }
                            if j > y {
                                assert(j * w + i > y * w + x) by (nonlinear_arith)
                                    requires j > y, x < w, 0 <= i, 0 <= x, 0 < w;
                            }
                            assert(j == y && i == x);
                        }
                    }
                }
                c = c + 1;
            }
            x = x + 1;
            proof {
                assert((y * w + (x - 1)) * 4 + 4 == (y * w + x) * 4);
            }
        }
        y = y + 1;
        proof {
            assert((((y - 1) * w) + w) * 4 == y * w * 4) by (nonlinear_arith);
            assert forall|j: int, i: int, k: int|
                0 <= j < y && 0 <= i < w && 0 <= k < 4 implies #[trigger] buffer@[(j * w + i) * 4
                + k] == channel_byte(t[j][i][k]) by {
                assert(j * w + i < (y - 1) * w + w) by (nonlinear_arith)
                    requires 0 <= j, j <= y - 1, 0 <= i, i < w;
            }
        }
    }
    proof {
        assert(buffer@.len() == height * w * 4);
        assert forall|j: int, i: int, c: int|
            0 <= j < t.len() && 0 <= i < w && 0 <= c < 4 implies #[trigger] buffer@[(j * w + i) * 4
            + c] == channel_byte(t[j][i][c]) by {
            assert(j * w + i < height * w) by (nonlinear_arith)
                requires j < height, i < w, 0 <= j, 0 <= i, 0 < w;
        }
    }
    buffer
}

/// The full inverse operation: the tensor's byte buffer wrapped back into a
/// decoded image of the tensor's width and height, each channel truncated to
/// a byte.
pub fn to_image(tensor: PixelTensor) -> (r: image::DynamicImage)
    requires
        tensor@.len() > 0,
        wf(tensor.deep_view()),
        tensor@.len() <= u32::MAX,
        width_of(tensor.deep_view()) <= u32::MAX,
        tensor@.len() * width_of(tensor.deep_view()) * 4 <= usize::MAX,
    ensures
        image_view(r) == image_of(tensor.deep_view()),
{
    proof {
        lemma_deep_index(tensor);
    }
    let ghost t: TensorView = tensor.deep_view();
    let ghost w: int = width_of(t);
    let height = tensor.len();
    let width = tensor[0].len();
    let buffer = to_image_buffer(tensor);
    let ghost bufview: Seq<u8> = buffer@;
    proof {
        assert(t.len() * w * 4 == w * t.len() * 4) by (nonlinear_arith);
    }
    let r = image_from_rgba_bytes(width as u32, height as u32, buffer);
    proof {
        assert forall|y: int, x: int, c: int|
            0 <= y < t.len() && 0 <= x < w && 0 <= c < 4 implies #[trigger] image_view(r)[y][x][c]
            == channel_byte(t[y][x][c]) by {
            assert(image_view(r)[y][x][c] == bufview[(y * w + x) * 4 + c]);
            assert(bufview[(y * w + x) * 4 + c] == channel_byte(t[y][x][c]));
        }
        assert forall|y: int| 0 <= y < t.len() implies #[trigger] image_view(r)[y].len()
            == image_of(t)[y].len() by {
            assert(t[y].len() == w);
        }
        assert forall|y: int, x: int|
            0 <= y < t.len() && 0 <= x < w implies #[trigger] image_view(r)[y][x].len()
            == image_of(t)[y][x].len() by {
            assert(t[y][x].len() == 4);
        }
        assert(image_view(r) =~~= image_of(t));
    }
    r
}

} // verus!

