//! The per-image transform pipeline.
//!
//! A decoded image runs through up to three steps, each all-or-nothing
//! under its own guard: a resize (only when both configured dimensions are
//! nonzero; proportional or exact), a saturating per-channel adjustment
//! (only when some delta is nonzero), and the configured mirrorings.
//!
//! Decoding, encoding and the pixel resampling itself belong to the imaging
//! collaborator. The image value is opaque here; its observable content is
//! modelled by two names: `dims_of`, its dimensions, and `rgb_of`, its
//! 8-bit RGB projection as a map from coordinates to channel triples. The
//! contracts of the trusted calls below speak over those names, and
//! everything the pipeline decides — which steps run, in which order, and
//! what they do to dimensions and pixels — is verified against them.

use vstd::prelude::*;

use crate::config::Config;

verus! {

#[verifier::external_type_specification]
#[verifier::external_body]
pub struct ExDynamicImage(image::DynamicImage);

/// What an image holds: its 8-bit RGB projection, pixel channel triples
/// keyed by (x, y). A function of the image value alone.
pub uninterp spec fn rgb_of(img: image::DynamicImage) -> Map<(int, int), (u8, u8, u8)>;

/// The width and height of an image, a function of the image value alone.
pub uninterp spec fn dims_of(img: image::DynamicImage) -> (int, int);

/// The pixel map has an entry at exactly the coordinates inside a `w` by
/// `h` rectangle anchored at the origin.
pub open spec fn grid(m: Map<(int, int), (u8, u8, u8)>, w: int, h: int) -> bool {
    forall|p: (int, int)|
        #[trigger] m.dom().contains(p) <==> (0 <= p.0 < w && 0 <= p.1 < h)
}

/// The pixel map mirrored left-right in a width-`w` image.
pub open spec fn spec_fliph(
    m: Map<(int, int), (u8, u8, u8)>,
    w: int,
) -> Map<(int, int), (u8, u8, u8)> {
    Map::new(
        |p: (int, int)| m.dom().contains(p),
        |p: (int, int)| m[(w - 1 - p.0, p.1)],
    )
}

/// The pixel map mirrored top-bottom in a height-`h` image.
pub open spec fn spec_flipv(
    m: Map<(int, int), (u8, u8, u8)>,
    h: int,
) -> Map<(int, int), (u8, u8, u8)> {
    Map::new(
        |p: (int, int)| m.dom().contains(p),
        |p: (int, int)| m[(p.0, h - 1 - p.1)],
    )
}

/// One channel value after adding a signed delta, clamped to the channel's
/// range instead of wrapping.
pub open spec fn sat_channel(c: u8, d: int) -> u8 {
    if c + d < 0 {
        0
    } else if c + d > 255 {
        255
    } else {
        (c + d) as u8
    }
}

/// A pixel after adding the three channel deltas with saturation.
pub open spec fn sat_pixel(p: (u8, u8, u8), dr: int, dg: int, db: int) -> (u8, u8, u8) {
    (sat_channel(p.0, dr), sat_channel(p.1, dg), sat_channel(p.2, db))
}

/// The pixel map with every pixel adjusted by the three channel deltas.
pub open spec fn spec_adjust(
    m: Map<(int, int), (u8, u8, u8)>,
    dr: int,
    dg: int,
    db: int,
) -> Map<(int, int), (u8, u8, u8)> {
    Map::new(
        |p: (int, int)| m.dom().contains(p),
        |p: (int, int)| sat_pixel(m[p], dr, dg, db),
    )
}

/// True when the configuration asks for any channel change.
pub open spec fn has_channel_change(c: Config) -> bool {
    c.vermelho != 0 || c.verde != 0 || c.azul != 0
}

/// True when the pipeline resizes an image of the given input dimensions:
/// both configured dimensions are nonzero and the input has pixels at all.
pub open spec fn spec_resizes(c: Config, w0: int, h0: int) -> bool {
    c.largura != 0 && c.altura != 0 && w0 >= 1 && h0 >= 1
}

/// The pixel map of a `w` by `h` image after the steps that follow the
/// resize: the channel adjustment under its guard, then the mirrorings
/// under theirs.
pub open spec fn spec_transformed(
    m: Map<(int, int), (u8, u8, u8)>,
    w: int,
    h: int,
    c: Config,
) -> Map<(int, int), (u8, u8, u8)> {
    let adjusted = if has_channel_change(c) {
        spec_adjust(m, c.vermelho as int, c.verde as int, c.azul as int)
    } else {
        m
    };
    let once = if c.espelhamento_horizontal {
        spec_fliph(adjusted, w)
    } else {
        adjusted
    };
    if c.espelhamento_vertical {
        spec_flipv(once, h)
    } else {
        once
    }
}

/// Relies on `image::GenericImageView::dimensions`: the width and height
/// of the image, which holds a pixel at exactly the coordinates below both.
#[verifier::external_body]
fn img_dimensions(img: &image::DynamicImage) -> (r: (u32, u32))
    ensures
        dims_of(*img) == (r.0 as int, r.1 as int),
        grid(rgb_of(*img), r.0 as int, r.1 as int),
{
    image::GenericImageView::dimensions(img)
}

/// Relies on `image::DynamicImage::resize`: scales to the largest size
/// that fits within the given bounds while keeping the aspect ratio
/// (Lanczos3 filter); each output dimension is at least 1 and at most its
/// bound.
#[verifier::external_body]
fn img_resize(img: &image::DynamicImage, w: u32, h: u32) -> (r: image::DynamicImage)
    requires
        w >= 1,
        h >= 1,
        dims_of(*img).0 >= 1,
        dims_of(*img).1 >= 1,
    ensures
        1 <= dims_of(r).0 <= w,
        1 <= dims_of(r).1 <= h,
        grid(rgb_of(r), dims_of(r).0, dims_of(r).1),
{
    img.resize(w, h, image::imageops::FilterType::Lanczos3)
}

/// Relies on `image::DynamicImage::resize_exact`: scales to exactly the
/// given dimensions, ignoring the aspect ratio (Lanczos3 filter).
#[verifier::external_body]
fn img_resize_exact(img: &image::DynamicImage, w: u32, h: u32) -> (r: image::DynamicImage)
    requires
        w >= 1,
        h >= 1,
        dims_of(*img).0 >= 1,
        dims_of(*img).1 >= 1,
    ensures
        dims_of(r) == (w as int, h as int),
        grid(rgb_of(r), w as int, h as int),
{
    img.resize_exact(w, h, image::imageops::FilterType::Lanczos3)
}

/// Relies on `image::DynamicImage::fliph` (`imageops::flip_horizontal`):
/// the output pixel at (x, y) is the input pixel at (w - 1 - x, y) and the
/// dimensions are unchanged. Mirroring moves whole pixels, so it commutes
/// with the per-pixel RGB projection behind `rgb_of`.
#[verifier::external_body]
fn img_fliph(img: &image::DynamicImage) -> (r: image::DynamicImage)
    ensures
        dims_of(r) == dims_of(*img),
        rgb_of(r) == spec_fliph(rgb_of(*img), dims_of(*img).0),
{
    img.fliph()
}

/// Relies on `image::DynamicImage::flipv` (`imageops::flip_vertical`): the
/// output pixel at (x, y) is the input pixel at (x, h - 1 - y) and the
/// dimensions are unchanged.
#[verifier::external_body]
fn img_flipv(img: &image::DynamicImage) -> (r: image::DynamicImage)
    ensures
        dims_of(r) == dims_of(*img),
        rgb_of(r) == spec_flipv(rgb_of(*img), dims_of(*img).1),
{
    img.flipv()
}

/// Relies on `image::DynamicImage::to_rgb8` and `ImageBuffer::into_raw`:
/// the 8-bit RGB projection of the image as row-major bytes, three per
/// pixel; `rgb_of` denotes exactly this projection.
#[verifier::external_body]
fn img_to_rgb_bytes(img: &image::DynamicImage) -> (r: Vec<u8>)
    ensures
        r@.len() == 3 * dims_of(*img).0 * dims_of(*img).1,
        forall|x: int, y: int|
            #![trigger rgb_of(*img)[(x, y)]]
            0 <= x < dims_of(*img).0 && 0 <= y < dims_of(*img).1 ==> {
                &&& r@[3 * (y * dims_of(*img).0 + x)] == rgb_of(*img)[(x, y)].0
                &&& r@[3 * (y * dims_of(*img).0 + x) + 1] == rgb_of(*img)[(x, y)].1
                &&& r@[3 * (y * dims_of(*img).0 + x) + 2] == rgb_of(*img)[(x, y)].2
            },
{
    img.to_rgb8().into_raw()
}

/// Relies on `image::ImageBuffer::from_raw` over row-major RGB bytes,
/// three per pixel: succeeds exactly on a buffer with one byte per channel
/// of every pixel, and the image then holds the given bytes as its pixels.
#[verifier::external_body]
fn img_from_rgb_bytes(w: u32, h: u32, bytes: Vec<u8>) -> (r: Option<image::DynamicImage>)
    ensures
        bytes@.len() == 3 * (w as int) * (h as int) ==> {
            &&& r is Some
            &&& dims_of(r->0) == (w as int, h as int)
            &&& grid(rgb_of(r->0), w as int, h as int)
            &&& forall|x: int, y: int|
                #![trigger rgb_of(r->0)[(x, y)]]
                0 <= x < w && 0 <= y < h ==> rgb_of(r->0)[(x, y)] == (
                    bytes@[3 * (y * w + x)],
                    bytes@[3 * (y * w + x) + 1],
                    bytes@[3 * (y * w + x) + 2],
                )
        },
{
    match image::ImageBuffer::<image::Rgb<u8>, Vec<u8>>::from_raw(w, h, bytes) {
        Some(buf) => Some(image::DynamicImage::ImageRgb8(buf)),
        None => None,
    }
}

/// One channel value after adding a signed delta, saturating at the
/// channel's bounds instead of wrapping.
pub fn saturate_channel(c: u8, delta: i32) -> (r: u8)
    ensures
        r == sat_channel(c, delta as int),
{
    let v: i64 = c as i64 + delta as i64;
    if v < 0 {
        0
    } else if v > 255 {
        255
    } else {
        v as u8
    }
}

/// Adds each configured delta to its channel of every pixel with
/// saturation; the bytes are row-major RGB, three per pixel, and every
/// byte's delta is chosen by its position within its pixel.
pub fn adjust_rgb_bytes(bytes: &Vec<u8>, dr: i32, dg: i32, db: i32) -> (r: Vec<u8>)
    ensures
        r@.len() == bytes@.len(),
        forall|j: int|
            0 <= j < bytes@.len() ==> #[trigger] r@[j] == sat_channel(
                bytes@[j],
                if j % 3 == 0 {
                    dr as int
                } else if j % 3 == 1 {
                    dg as int
                } else {
                    db as int
                },
            ),
{
    let mut r: Vec<u8> = Vec::new();
    let mut i: usize = 0;
    while i < bytes.len()
        invariant
            0 <= i <= bytes@.len(),
            r@.len() == i,
            forall|j: int|
                0 <= j < i ==> #[trigger] r@[j] == sat_channel(
                    bytes@[j],
                    if j % 3 == 0 {
                        dr as int
                    } else if j % 3 == 1 {
                        dg as int
                    } else {
                        db as int
                    },
                ),
        decreases bytes@.len() - i,
    {
        let m: usize = i % 3;
        let d: i32 = if m == 0 {
            dr
        } else if m == 1 {
            dg
        } else {
            db
        };
        r.push(saturate_channel(bytes[i], d));
        i = i + 1;
    }
    r
}

/// A channel already at a bound is not pushed past it: a nonnegative delta
/// leaves a maximal channel at the maximum, a nonpositive delta leaves a
/// minimal channel at the minimum.
pub proof fn lemma_saturation_at_bounds(d: int)
    ensures
        d >= 0 ==> sat_channel(255, d) == 255,
        d <= 0 ==> sat_channel(0, d) == 0,
{
}

/// Mirroring left-right twice restores every pixel.
pub proof fn lemma_fliph_involutive(m: Map<(int, int), (u8, u8, u8)>, w: int, h: int)
    requires
        grid(m, w, h),
    ensures
        spec_fliph(spec_fliph(m, w), w) == m,
{
    let f1 = spec_fliph(m, w);
    let f2 = spec_fliph(f1, w);
    assert forall|p: (int, int)| #[trigger] m.dom().contains(p) implies f2[p] == m[p] by {
        assert(m.dom().contains((w - 1 - p.0, p.1)));
        assert(f1.dom().contains(p));
        assert(f1.dom().contains((w - 1 - p.0, p.1)));
        assert(f2[p] == f1[(w - 1 - p.0, p.1)]);
        assert(f1[(w - 1 - p.0, p.1)] == m[(w - 1 - (w - 1 - p.0), p.1)]);
    };
    assert(f2 =~= m);
}

/// Mirroring top-bottom twice restores every pixel.
pub proof fn lemma_flipv_involutive(m: Map<(int, int), (u8, u8, u8)>, w: int, h: int)
    requires
        grid(m, w, h),
    ensures
        spec_flipv(spec_flipv(m, h), h) == m,
{
    let f1 = spec_flipv(m, h);
    let f2 = spec_flipv(f1, h);
    assert forall|p: (int, int)| #[trigger] m.dom().contains(p) implies f2[p] == m[p] by {
        assert(m.dom().contains((p.0, h - 1 - p.1)));
        assert(f1.dom().contains(p));
        assert(f1.dom().contains((p.0, h - 1 - p.1)));
        assert(f2[p] == f1[(p.0, h - 1 - p.1)]);
        assert(f1[(p.0, h - 1 - p.1)] == m[(p.0, h - 1 - (h - 1 - p.1))]);
    };
    assert(f2 =~= m);
}

/// The two mirrorings commute: left-right then top-bottom gives the same
/// pixels as top-bottom then left-right.
pub proof fn lemma_flips_commute(m: Map<(int, int), (u8, u8, u8)>, w: int, h: int)
    requires
        grid(m, w, h),
    ensures
        spec_flipv(spec_fliph(m, w), h) == spec_fliph(spec_flipv(m, h), w),
{
    let a = spec_flipv(spec_fliph(m, w), h);
    let b = spec_fliph(spec_flipv(m, h), w);
    assert forall|p: (int, int)| #[trigger] m.dom().contains(p) implies a[p] == b[p] by {
        assert(m.dom().contains((p.0, h - 1 - p.1)));
        assert(m.dom().contains((w - 1 - p.0, p.1)));
        assert(m.dom().contains((w - 1 - p.0, h - 1 - p.1)));
        assert(spec_fliph(m, w).dom().contains((p.0, h - 1 - p.1)));
        assert(spec_flipv(m, h).dom().contains((w - 1 - p.0, p.1)));
        assert(a[p] == spec_fliph(m, w)[(p.0, h - 1 - p.1)]);
        assert(spec_fliph(m, w)[(p.0, h - 1 - p.1)] == m[(w - 1 - p.0, h - 1 - p.1)]);
        assert(b[p] == spec_flipv(m, h)[(w - 1 - p.0, p.1)]);
        assert(spec_flipv(m, h)[(w - 1 - p.0, p.1)] == m[(w - 1 - p.0, h - 1 - p.1)]);
    };
    assert(a =~= b);
}

proof fn lemma_adjust_grid(m: Map<(int, int), (u8, u8, u8)>, dr: int, dg: int, db: int, w: int, h: int)
    requires
        grid(m, w, h),
    ensures
        grid(spec_adjust(m, dr, dg, db), w, h),
{
    let a = spec_adjust(m, dr, dg, db);
    assert forall|p: (int, int)|
        #[trigger] a.dom().contains(p) <==> (0 <= p.0 < w && 0 <= p.1 < h) by {
        assert(a.dom().contains(p) == m.dom().contains(p));
    };
}

proof fn lemma_fliph_grid(m: Map<(int, int), (u8, u8, u8)>, w: int, wg: int, hg: int)
    requires
        grid(m, wg, hg),
    ensures
        grid(spec_fliph(m, w), wg, hg),
{
    let a = spec_fliph(m, w);
    assert forall|p: (int, int)|
        #[trigger] a.dom().contains(p) <==> (0 <= p.0 < wg && 0 <= p.1 < hg) by {
        assert(a.dom().contains(p) == m.dom().contains(p));
    };
}

proof fn lemma_flipv_grid(m: Map<(int, int), (u8, u8, u8)>, h: int, wg: int, hg: int)
    requires
        grid(m, wg, hg),
    ensures
        grid(spec_flipv(m, h), wg, hg),
{
    let a = spec_flipv(m, h);
    assert forall|p: (int, int)|
        #[trigger] a.dom().contains(p) <==> (0 <= p.0 < wg && 0 <= p.1 < hg) by {
        assert(a.dom().contains(p) == m.dom().contains(p));
    };
}

/// The post-resize steps keep the pixel map on its rectangle.
pub proof fn lemma_transformed_grid(m: Map<(int, int), (u8, u8, u8)>, w: int, h: int, c: Config)
    requires
        grid(m, w, h),
    ensures
        grid(spec_transformed(m, w, h, c), w, h),
{
    let adjusted = if has_channel_change(c) {
        spec_adjust(m, c.vermelho as int, c.verde as int, c.azul as int)
    } else {
        m
    };
    if has_channel_change(c) {
        lemma_adjust_grid(m, c.vermelho as int, c.verde as int, c.azul as int, w, h);
    }
    let once = if c.espelhamento_horizontal {
        spec_fliph(adjusted, w)
    } else {
        adjusted
    };
    if c.espelhamento_horizontal {
        lemma_fliph_grid(adjusted, w, w, h);
    }
    if c.espelhamento_vertical {
        lemma_flipv_grid(once, h, w, h);
    }
}

/// Applies the configured pipeline to one decoded image.
///
/// The resize runs only when both configured dimensions are nonzero (and
/// the input has pixels): proportionally into the configured box when the
/// aspect ratio is kept, else to exactly the configured dimensions. The
/// pixels then pass through the channel adjustment and the mirrorings,
/// each under its own guard, in that order; no step is ever applied
/// partially. Without a resize the dimensions are unchanged and the
/// resulting pixels are stated exactly; with one, the resulting pixels are
/// the post-resize steps applied to some pixel map on the resized
/// rectangle.
pub fn apply(img: image::DynamicImage, c: &Config) -> (r: image::DynamicImage)
    ensures
        !spec_resizes(*c, dims_of(img).0, dims_of(img).1) ==> {
            &&& dims_of(r) == dims_of(img)
            &&& rgb_of(r) == spec_transformed(
                rgb_of(img),
                dims_of(img).0,
                dims_of(img).1,
                *c,
            )
        },
        spec_resizes(*c, dims_of(img).0, dims_of(img).1) && c.manter_proporcao ==> {
            &&& 1 <= dims_of(r).0 <= c.largura
            &&& 1 <= dims_of(r).1 <= c.altura
        },
        spec_resizes(*c, dims_of(img).0, dims_of(img).1) && !c.manter_proporcao ==> dims_of(r)
            == (c.largura as int, c.altura as int),
        spec_resizes(*c, dims_of(img).0, dims_of(img).1) ==> exists|
            mid: Map<(int, int), (u8, u8, u8)>,
        |
            #[trigger] grid(mid, dims_of(r).0, dims_of(r).1) && rgb_of(r) == spec_transformed(
                mid,
                dims_of(r).0,
                dims_of(r).1,
                *c,
            ),
        grid(rgb_of(r), dims_of(r).0, dims_of(r).1),
{
    let (w0, h0) = img_dimensions(&img);
    let resized: image::DynamicImage = if c.largura != 0 && c.altura != 0 && w0 >= 1 && h0 >= 1 {
        if c.manter_proporcao {
            img_resize(&img, c.largura, c.altura)
        } else {
            img_resize_exact(&img, c.largura, c.altura)
        }
    } else {
        img
    };
    let (w1, h1) = img_dimensions(&resized);
    let ghost base = rgb_of(resized);
    proof {
        assert(grid(base, w1 as int, h1 as int));
    }
    let adjusted: image::DynamicImage = if c.vermelho != 0 || c.verde != 0 || c.azul != 0 {
        let bytes = img_to_rgb_bytes(&resized);
        let newb = adjust_rgb_bytes(&bytes, c.vermelho, c.verde, c.azul);
        match img_from_rgb_bytes(w1, h1, newb) {
            Some(out) => {
                proof {
                    lemma_pixels_adjusted(
                        base,
                        bytes@,
                        newb@,
                        rgb_of(out),
                        w1 as int,
                        h1 as int,
                        c.vermelho as int,
                        c.verde as int,
                        c.azul as int,
                    );
                }
                out
            },
            None => {
                proof {
                    assert(false);
                }
                resized
            },
        }
    } else {
        resized
    };
    proof {
        assert(dims_of(adjusted) == (w1 as int, h1 as int));
        assert(rgb_of(adjusted) == if has_channel_change(*c) {
            spec_adjust(base, c.vermelho as int, c.verde as int, c.azul as int)
        } else {
            base
        });
    }
    let once: image::DynamicImage = if c.espelhamento_horizontal {
        img_fliph(&adjusted)
    } else {
        adjusted
    };
    let fin: image::DynamicImage = if c.espelhamento_vertical {
        img_flipv(&once)
    } else {
        once
    };
    proof {
        assert(dims_of(fin) == (w1 as int, h1 as int));
        assert(rgb_of(fin) == spec_transformed(base, w1 as int, h1 as int, *c));
        lemma_transformed_grid(base, w1 as int, h1 as int, *c);
        if spec_resizes(*c, dims_of(img).0, dims_of(img).1) {
            assert(grid(base, dims_of(fin).0, dims_of(fin).1) && rgb_of(fin)
                == spec_transformed(base, dims_of(fin).0, dims_of(fin).1, *c));
        }
    }
    fin
}

proof fn lemma_pixels_adjusted(
    base: Map<(int, int), (u8, u8, u8)>,
    bytes: Seq<u8>,
    newb: Seq<u8>,
    out: Map<(int, int), (u8, u8, u8)>,
    w: int,
    h: int,
    dr: int,
    dg: int,
    db: int,
)
    requires
        grid(base, w, h),
        bytes.len() == 3 * w * h,
        forall|x: int, y: int|
            #![trigger base[(x, y)]]
            0 <= x < w && 0 <= y < h ==> {
                &&& bytes[3 * (y * w + x)] == base[(x, y)].0
                &&& bytes[3 * (y * w + x) + 1] == base[(x, y)].1
                &&& bytes[3 * (y * w + x) + 2] == base[(x, y)].2
            },
        newb.len() == bytes.len(),
        forall|j: int|
            0 <= j < bytes.len() ==> #[trigger] newb[j] == sat_channel(
                bytes[j],
                if j % 3 == 0 {
                    dr
                } else if j % 3 == 1 {
                    dg
                } else {
                    db
                },
            ),
        grid(out, w, h),
        forall|x: int, y: int|
            #![trigger out[(x, y)]]
            0 <= x < w && 0 <= y < h ==> out[(x, y)] == (
                newb[3 * (y * w + x)],
                newb[3 * (y * w + x) + 1],
                newb[3 * (y * w + x) + 2],
            ),
    ensures
        out == spec_adjust(base, dr, dg, db),
{
    let adj = spec_adjust(base, dr, dg, db);
    assert forall|p: (int, int)| #[trigger] base.dom().contains(p) implies out[p] == adj[p] by {
        let x = p.0;
        let y = p.1;
        let k = 3 * (y * w + x);
        assert(0 <= y * w + x && 3 * (y * w + x) + 2 < 3 * w * h) by (nonlinear_arith)
            requires
                0 <= x < w,
                0 <= y < h,
        ;
        assert(k % 3 == 0 && (k + 1) % 3 == 1 && (k + 2) % 3 == 2) by (nonlinear_arith)
            requires
                k == 3 * (y * w + x),
                y * w + x >= 0,
        ;
        assert(k + 2 < bytes.len());
        assert(bytes[k] == base[(x, y)].0);
        assert(newb[k] == sat_channel(base[(x, y)].0, dr));
        assert(newb[k + 1] == sat_channel(base[(x, y)].1, dg));
        assert(newb[k + 2] == sat_channel(base[(x, y)].2, db));
        assert(out[(x, y)] == sat_pixel(base[(x, y)], dr, dg, db));
        assert(adj[p] == sat_pixel(base[p], dr, dg, db));
    };
    assert forall|p: (int, int)|
        #[trigger] out.dom().contains(p) <==> adj.dom().contains(p) by {
        assert(adj.dom().contains(p) == base.dom().contains(p));
        assert(out.dom().contains(p) <==> (0 <= p.0 < w && 0 <= p.1 < h));
        assert(base.dom().contains(p) <==> (0 <= p.0 < w && 0 <= p.1 < h));
    };
    assert(out =~= adj);
}

} // verus!
