//! The rasterizer: lines, and triangles with a depth test and an optional
//! texture, drawn into an image with exact integer arithmetic. What is drawn
//! is stated in `lines` and `triangles`.

use vstd::prelude::*;
use crate::color::lemma_pack_unpack;
pub use crate::color::Color32;
use crate::depth::{lemma_depth_after_write, DepthBuffer, DepthModel};
use crate::lines::{
    lemma_minor_end,
    lemma_minor_step,
    line_point,
    minor_steps,
    on_line,
    span,
    toward,
};
use crate::point::{on_image, Point2D, Point3D};
use crate::tga::{lemma_pixel_after_write, same_frame, ImageModel, TGAFile};
use crate::triangles::{
    covers,
    depth_at,
    determinant,
    edge_drawn,
    filled_depth,
    filled_pixel,
    fragment_color,
    hit,
    lemma_blend_between,
    lemma_blend_from_least,
    lemma_covered_is_between,
    max3,
    min3,
    on_outline,
    plotted,
    same_size,
    weights,
    TextureModel,
    Weights,
    OUTLINE,
};

verus! {

/// The pixel of a line given by its major and minor axes: `(a, b)` is a
/// pixel's place along the major and the minor axis, and the major axis is
/// y where the line is steep.
spec fn axis_point(a0: int, b0: int, a1: int, b1: int, steep: bool, k: int) -> (int, int) {
    let a = toward(a0, a1, k);
    let b = toward(b0, b1, minor_steps(k, span(a0, a1), span(b0, b1)));
    if steep {
        (b, a)
    } else {
        (a, b)
    }
}

/// Whether one of the first `count` pixels of a line is `(x, y)`.
spec fn axis_covered(
    a0: int,
    b0: int,
    a1: int,
    b1: int,
    steep: bool,
    count: int,
    x: int,
    y: int,
) -> bool {
    exists|k: int| 0 <= k < count && #[trigger] axis_point(a0, b0, a1, b1, steep, k) == (x, y)
}

/// Draws the line whose major axis runs from `a0` to `a1` and whose minor
/// axis runs from `b0` to `b1`.
fn line_along(a0: u16, b0: u16, a1: u16, b1: u16, steep: bool, img: &mut TGAFile, color: &Color32)
    requires
        span(b0 as int, b1 as int) <= span(a0 as int, a1 as int),
        old(img)@.wf(),
        !steep ==> old(img)@.contains(a0 as int, b0 as int) && old(img)@.contains(
            a1 as int,
            b1 as int,
        ),
        steep ==> old(img)@.contains(b0 as int, a0 as int) && old(img)@.contains(
            b1 as int,
            a1 as int,
        ),
    ensures
        same_frame(old(img)@, final(img)@),
        forall|x: int, y: int|
            old(img)@.contains(x, y) ==> #[trigger] final(img)@.pixel(x, y) == if axis_covered(
                a0 as int,
                b0 as int,
                a1 as int,
                b1 as int,
                steep,
                span(a0 as int, a1 as int) + 1,
                x,
                y,
            ) {
                color.packed()
            } else {
                old(img)@.pixel(x, y)
            },
{
    let major: u16 = if a0 <= a1 {
        a1 - a0
    } else {
        a0 - a1
    };
    let minor: u16 = if b0 <= b1 {
        b1 - b0
    } else {
        b0 - b1
    };
    let mut a: u16 = a0;
    let mut b: u16 = b0;
    let mut error: u32 = 0;
    let ghost mut k: int = 0;
    while a != a1
        invariant
            major == span(a0 as int, a1 as int),
            minor == span(b0 as int, b1 as int),
            minor <= major,
            0 <= k <= major,
            a == toward(a0 as int, a1 as int, k),
            b == toward(b0 as int, b1 as int, minor_steps(k, major as int, minor as int)),
            0 <= minor_steps(k, major as int, minor as int) <= minor,
            major > 0 ==> error == (k * minor) % (major as int),
            !steep ==> old(img)@.contains(a0 as int, b0 as int) && old(img)@.contains(
                a1 as int,
                b1 as int,
            ),
            steep ==> old(img)@.contains(b0 as int, a0 as int) && old(img)@.contains(
                b1 as int,
                a1 as int,
            ),
            same_frame(old(img)@, img@),
            forall|x: int, y: int|
                old(img)@.contains(x, y) ==> #[trigger] img@.pixel(x, y) == if axis_covered(
                    a0 as int,
                    b0 as int,
                    a1 as int,
                    b1 as int,
                    steep,
                    k,
                    x,
                    y,
                ) {
                    color.packed()
                } else {
                    old(img)@.pixel(x, y)
                },
        decreases major - k,
    {
        proof {
            lemma_minor_step(k, major as int, minor as int);
        }
        plot_axis_point(a0, b0, a1, b1, steep, Ghost(k), a, b, Ghost(old(img)@), img, color);
        if a0 < a1 {
            a += 1;
        } else {
            a -= 1;
        }
        error += minor as u32;
        if error >= major as u32 {
            if b0 < b1 {
                b += 1;
            } else {
                b -= 1;
            }
            error -= major as u32;
        }
        proof {
            k = k + 1;
        }
    }
    proof {
        lemma_minor_end(major as int, minor as int);
    }
    plot_axis_point(a0, b0, a1, b1, steep, Ghost(k), a, b, Ghost(old(img)@), img, color);
}

/// Draws the pixel that a line reaches after `k` steps, given an image in
/// which the pixels before it are drawn.
fn plot_axis_point(
    a0: u16,
    b0: u16,
    a1: u16,
    b1: u16,
    steep: bool,
    Ghost(k): Ghost<int>,
    a: u16,
    b: u16,
    Ghost(start): Ghost<ImageModel>,
    img: &mut TGAFile,
    color: &Color32,
)
    requires
        0 <= k <= span(a0 as int, a1 as int),
        a == toward(a0 as int, a1 as int, k),
        b == toward(
            b0 as int,
            b1 as int,
            minor_steps(k, span(a0 as int, a1 as int), span(b0 as int, b1 as int)),
        ),
        0 <= minor_steps(k, span(a0 as int, a1 as int), span(b0 as int, b1 as int)) <= span(
            b0 as int,
            b1 as int,
        ),
        !steep ==> start.contains(a0 as int, b0 as int) && start.contains(a1 as int, b1 as int),
        steep ==> start.contains(b0 as int, a0 as int) && start.contains(b1 as int, a1 as int),
        same_frame(start, old(img)@),
        forall|x: int, y: int|
            start.contains(x, y) ==> #[trigger] old(img)@.pixel(x, y) == if axis_covered(
                a0 as int,
                b0 as int,
                a1 as int,
                b1 as int,
                steep,
                k,
                x,
                y,
            ) {
                color.packed()
            } else {
                start.pixel(x, y)
            },
    ensures
        same_frame(start, final(img)@),
        forall|x: int, y: int|
            start.contains(x, y) ==> #[trigger] final(img)@.pixel(x, y) == if axis_covered(
                a0 as int,
                b0 as int,
                a1 as int,
                b1 as int,
                steep,
                k + 1,
                x,
                y,
            ) {
                color.packed()
            } else {
                start.pixel(x, y)
            },
{
    let ghost before = img@;
    let px: u16 = if steep {
        b
    } else {
        a
    };
    let py: u16 = if steep {
        a
    } else {
        b
    };
    assert(axis_point(a0 as int, b0 as int, a1 as int, b1 as int, steep, k) == (
        px as int,
        py as int,
    ));
    let result = img.set(px, py, color);
    assert(result is Ok);
    proof {
        lemma_pixel_after_write(before, px as int, py as int, color.packed());
        assert forall|x: int, y: int| start.contains(x, y) implies #[trigger] img@.pixel(x, y)
            == if axis_covered(a0 as int, b0 as int, a1 as int, b1 as int, steep, k + 1, x, y) {
            color.packed()
        } else {
            start.pixel(x, y)
        } by {
            let now = axis_covered(a0 as int, b0 as int, a1 as int, b1 as int, steep, k + 1, x, y);
            let earlier = axis_covered(a0 as int, b0 as int, a1 as int, b1 as int, steep, k, x, y);
            let here = x == px && y == py;
            if here {
                assert(axis_point(a0 as int, b0 as int, a1 as int, b1 as int, steep, k) == (x, y));
            }
            if earlier {
                let j = choose|j: int|
                    0 <= j < k && #[trigger] axis_point(
                        a0 as int,
                        b0 as int,
                        a1 as int,
                        b1 as int,
                        steep,
                        j,
                    ) == (x, y);
                assert(0 <= j < k + 1);
            }
            if now {
                let j = choose|j: int|
                    0 <= j < k + 1 && #[trigger] axis_point(
                        a0 as int,
                        b0 as int,
                        a1 as int,
                        b1 as int,
                        steep,
                        j,
                    ) == (x, y);
                if j < k {
                    assert(earlier);
                } else {
                    assert(here);
                }
            }
            assert(now == (earlier || here));
        }
    }
}

/// Draws the line from `(x0, y0)` to `(x1, y1)` in `color`. The axis along
/// which the line spans more drives: each step moves one pixel along it and
/// adds the line's slope to an error term, and the other axis moves one pixel
/// whenever the term reaches 1. The term is kept as an exact fraction. Both
/// ends are drawn, and no pixel but those of the line changes.
pub fn line(x0: u16, y0: u16, x1: u16, y1: u16, img: &mut TGAFile, color: &Color32)
    requires
        old(img)@.contains(x0 as int, y0 as int),
        old(img)@.contains(x1 as int, y1 as int),
    ensures
        same_frame(old(img)@, final(img)@),
        forall|x: int, y: int|
            old(img)@.contains(x, y) ==> #[trigger] final(img)@.pixel(x, y) == if on_line(
                x0 as int,
                y0 as int,
                x1 as int,
                y1 as int,
                x,
                y,
            ) {
                color.packed()
            } else {
                old(img)@.pixel(x, y)
            },
{
    let width = img.get_width();
    let dx: u16 = if x0 <= x1 {
        x1 - x0
    } else {
        x0 - x1
    };
    let dy: u16 = if y0 <= y1 {
        y1 - y0
    } else {
        y0 - y1
    };
    if dx >= dy {
        line_along(x0, y0, x1, y1, false, img, color);
        proof {
            assert forall|x: int, y: int|
                on_line(x0 as int, y0 as int, x1 as int, y1 as int, x, y) == axis_covered(
                    x0 as int,
                    y0 as int,
                    x1 as int,
                    y1 as int,
                    false,
                    dx + 1,
                    x,
                    y,
                ) by {
                if on_line(x0 as int, y0 as int, x1 as int, y1 as int, x, y) {
                    let k = choose|k: int|
                        0 <= k <= dx && #[trigger] line_point(
                            x0 as int,
                            y0 as int,
                            x1 as int,
                            y1 as int,
                            k,
                        ) == (x, y);
                    assert(axis_point(x0 as int, y0 as int, x1 as int, y1 as int, false, k) == (
                        x,
                        y,
                    ));
                }
                if axis_covered(x0 as int, y0 as int, x1 as int, y1 as int, false, dx + 1, x, y) {
                    let k = choose|k: int|
                        0 <= k < dx + 1 && #[trigger] axis_point(
                            x0 as int,
                            y0 as int,
                            x1 as int,
                            y1 as int,
                            false,
                            k,
                        ) == (x, y);
                    assert(line_point(x0 as int, y0 as int, x1 as int, y1 as int, k) == (x, y));
                }
            }
        }
    } else {
        line_along(y0, x0, y1, x1, true, img, color);
        proof {
            assert forall|x: int, y: int|
                on_line(x0 as int, y0 as int, x1 as int, y1 as int, x, y) == axis_covered(
                    y0 as int,
                    x0 as int,
                    y1 as int,
                    x1 as int,
                    true,
                    dy + 1,
                    x,
                    y,
                ) by {
                if on_line(x0 as int, y0 as int, x1 as int, y1 as int, x, y) {
                    let k = choose|k: int|
                        0 <= k <= dy && #[trigger] line_point(
                            x0 as int,
                            y0 as int,
                            x1 as int,
                            y1 as int,
                            k,
                        ) == (x, y);
                    assert(axis_point(y0 as int, x0 as int, y1 as int, x1 as int, true, k) == (
                        x,
                        y,
                    ));
                }
                if axis_covered(y0 as int, x0 as int, y1 as int, x1 as int, true, dy + 1, x, y) {
                    let k = choose|k: int|
                        0 <= k < dy + 1 && #[trigger] axis_point(
                            y0 as int,
                            x0 as int,
                            y1 as int,
                            x1 as int,
                            true,
                            k,
                        ) == (x, y);
                    assert(line_point(x0 as int, y0 as int, x1 as int, y1 as int, k) == (x, y));
                }
            }
        }
    }
}

/// Draws the line between the pixels of two points.
pub fn line_from_vertices(v0: Point3D, v1: Point3D, image: &mut TGAFile, color: &Color32)
    requires
        on_image(old(image)@, v0),
        on_image(old(image)@, v1),
    ensures
        same_frame(old(image)@, final(image)@),
        forall|x: int, y: int|
            old(image)@.contains(x, y) ==> #[trigger] final(image)@.pixel(x, y) == if on_line(
                v0.x as int,
                v0.y as int,
                v1.x as int,
                v1.y as int,
                x,
                y,
            ) {
                color.packed()
            } else {
                old(image)@.pixel(x, y)
            },
{
    line(v0.x as u16, v0.y as u16, v1.x as u16, v1.y as u16, image, color);
}

/// Brings a fragment to the pixel `(x, y)` and says whether it was drawn.
pub fn plot(
    image: &mut TGAFile,
    zbuffer: &mut DepthBuffer,
    x: u16,
    y: u16,
    depth: i64,
    color: &Color32,
) -> (drawn: bool)
    requires
        old(zbuffer)@.width == old(image)@.width,
        old(zbuffer)@.height == old(image)@.height,
        old(image)@.contains(x as int, y as int),
    ensures
        drawn == (depth > old(zbuffer)@.at(x as int, y as int)),
        (final(image)@, final(zbuffer)@) == plotted(
            old(image)@,
            old(zbuffer)@,
            x as int,
            y as int,
            depth,
            color.packed(),
        ),
        same_frame(old(image)@, final(image)@),
        same_size(final(zbuffer)@, final(image)@),
{
    let held = zbuffer.get(x, y);
    let ghost image_before = image@;
    let ghost depths_before = zbuffer@;
    let width = image.get_width();
    proof {
        lemma_pixel_after_write(image_before, x as int, y as int, color.packed());
        lemma_depth_after_write(depths_before, x as int, y as int, depth);
    }
    match held {
        Ok(current) => {
            if depth > current {
                let written = zbuffer.set(x, y, depth);
                let drawn = image.set(x, y, color);
                true
            } else {
                false
            }
        },
        Err(_) => false,
    }
}

/// A texture and the places in it of the three vertices of a triangle.
pub struct Texture<'a> {
    pub image: &'a TGAFile,
    pub t0: Point2D,
    pub t1: Point2D,
    pub t2: Point2D,
}

impl<'a> View for Texture<'a> {
    type V = TextureModel;

    open spec fn view(&self) -> TextureModel {
        TextureModel { image: self.image@, t0: self.t0, t1: self.t1, t2: self.t2 }
    }
}

pub open spec fn texture_model(texture: Option<&Texture>) -> Option<TextureModel> {
    match texture {
        Some(texture) => Some(texture@),
        None => None,
    }
}

/// `ax * by - ay * bx`, for numbers that are differences of coordinates.
fn cross(ax: i64, ay: i64, bx: i64, by: i64) -> (r: i128)
    requires
        -0x1_0000_0000 <= ax <= 0x1_0000_0000,
        -0x1_0000_0000 <= ay <= 0x1_0000_0000,
        -0x1_0000_0000 <= bx <= 0x1_0000_0000,
        -0x1_0000_0000 <= by <= 0x1_0000_0000,
    ensures
        r == ax * by - ay * bx,
        -0x2_0000_0000_0000_0000 <= r <= 0x2_0000_0000_0000_0000,
{
    assert(-0x1_0000_0000_0000_0000 <= ax * by <= 0x1_0000_0000_0000_0000) by (nonlinear_arith)
        requires
            -0x1_0000_0000 <= ax <= 0x1_0000_0000,
            -0x1_0000_0000 <= by <= 0x1_0000_0000,
    ;
    assert(-0x1_0000_0000_0000_0000 <= ay * bx <= 0x1_0000_0000_0000_0000) by (nonlinear_arith)
        requires
            -0x1_0000_0000 <= ay <= 0x1_0000_0000,
            -0x1_0000_0000 <= bx <= 0x1_0000_0000,
    ;
    (ax as i128) * (by as i128) - (ay as i128) * (bx as i128)
}

/// The weighted mean of three values, rounded down.
fn blend(u: u128, v: u128, w: u128, first: i32, second: i32, third: i32) -> (r: i32)
    requires
        0 < u + v + w <= 0x2_0000_0000_0000_0000,
    ensures
        r == (Weights { u: u as int, v: v as int, w: w as int, total: u + v + w }).blend(
            first as int,
            second as int,
            third as int,
        ),
{
    let ghost weights = Weights { u: u as int, v: v as int, w: w as int, total: u + v + w };
    let low: i32 = if first <= second && first <= third {
        first
    } else if second <= third {
        second
    } else {
        third
    };
    let a: u128 = (first as i64 - low as i64) as u128;
    let b: u128 = (second as i64 - low as i64) as u128;
    let c: u128 = (third as i64 - low as i64) as u128;
    proof {
        lemma_blend_from_least(weights, first as int, second as int, third as int, low as int);
        lemma_blend_between(weights, a as int, b as int, c as int);
        assert(w * a <= 0x2_0000_0000_0000_0000 * 0x1_0000_0000 && u * b <= 0x2_0000_0000_0000_0000
            * 0x1_0000_0000 && v * c <= 0x2_0000_0000_0000_0000 * 0x1_0000_0000)
            by (nonlinear_arith)
            requires
                w <= 0x2_0000_0000_0000_0000,
                u <= 0x2_0000_0000_0000_0000,
                v <= 0x2_0000_0000_0000_0000,
                a <= 0x1_0000_0000,
                b <= 0x1_0000_0000,
                c <= 0x1_0000_0000,
        ;
    }
    let total: u128 = u + v + w;
    let sum: u128 = w * a + u * b + v * c;
    let above: u128 = sum / total;
    (low as i64 + above as i64) as i32
}

/// The depths that a fill is tested against: those of the buffer where the
/// depth test is on, none where it is off.
spec fn kept(tested: bool, depths: DepthModel) -> Option<DepthModel> {
    if tested {
        Some(depths)
    } else {
        None
    }
}

/// Shades the pixel `(x, y)` if the triangle hits it.
fn shade_pixel(
    v0: Point3D,
    v1: Point3D,
    v2: Point3D,
    texture: Option<&Texture>,
    image: &mut TGAFile,
    depth: &mut DepthBuffer,
    tested: bool,
    color: &Color32,
    x: u16,
    y: u16,
)
    requires
        determinant(v0, v1, v2) != 0,
        old(image)@.contains(x as int, y as int),
        tested ==> old(depth)@.width == old(image)@.width && old(depth)@.height == old(
            image,
        )@.height,
        texture matches Some(t) ==> t@.in_bounds(),
    ensures
        same_frame(old(image)@, final(image)@),
        final(depth)@.width == old(depth)@.width,
        final(depth)@.height == old(depth)@.height,
        final(depth)@.wf(),
        final(image)@ == if hit(v0, v1, v2, kept(tested, old(depth)@), x as int, y as int) {
            old(image)@.with_pixel(
                x as int,
                y as int,
                fragment_color(
                    texture_model(texture),
                    color.packed(),
                    weights(v0, v1, v2, x as int, y as int),
                ),
            )
        } else {
            old(image)@
        },
        final(depth)@ == if tested && hit(v0, v1, v2, Some(old(depth)@), x as int, y as int) {
            old(depth)@.with_depth(x as int, y as int, depth_at(v0, v1, v2, x as int, y as int) as i64)
        } else {
            old(depth)@
        },
{
    let width = image.get_width();
    let depth_width = depth.get_width();
    let ax: i64 = x as i64 - v0.x as i64;
    let ay: i64 = y as i64 - v0.y as i64;
    let bx: i64 = v1.x as i64 - v0.x as i64;
    let by: i64 = v1.y as i64 - v0.y as i64;
    let cx: i64 = v2.x as i64 - v0.x as i64;
    let cy: i64 = v2.y as i64 - v0.y as i64;
    let det: i128 = cross(bx, by, cx, cy);
    let u_signed: i128 = cross(ax, ay, cx, cy);
    let v_signed: i128 = cross(bx, by, ax, ay);
    let ghost weights = weights(v0, v1, v2, x as int, y as int);
    let u: i128 = if det > 0 {
        u_signed
    } else {
        -u_signed
    };
    let v: i128 = if det > 0 {
        v_signed
    } else {
        -v_signed
    };
    let total: i128 = if det > 0 {
        det
    } else {
        -det
    };
    assert(by * cx == cx * by) by (nonlinear_arith);
    assert(det == determinant(v0, v1, v2));
    assert(weights.u == u && weights.v == v && weights.total == total);
    if u >= 0 && v >= 0 && u + v <= total {
        let w: i128 = total - u - v;
        let z: i32 = blend(u as u128, v as u128, w as u128, v0.z, v1.z, v2.z);
        proof {
            lemma_blend_between(weights, v0.z as int, v1.z as int, v2.z as int);
            lemma_pixel_after_write(
                image@,
                x as int,
                y as int,
                fragment_color(texture_model(texture), color.packed(), weights),
            );
        }
        let shade: Color32 = match texture {
            Some(t) => {
                let tx: i32 = blend(u as u128, v as u128, w as u128, t.t0.x, t.t1.x, t.t2.x);
                let ty: i32 = blend(u as u128, v as u128, w as u128, t.t0.y, t.t1.y, t.t2.y);
                proof {
                    lemma_blend_between(weights, t.t0.x as int, t.t1.x as int, t.t2.x as int);
                    lemma_blend_between(weights, t.t0.y as int, t.t1.y as int, t.t2.y as int);
                    lemma_pack_unpack(t@.sample(weights));
                }
                match t.image.get(tx as u16, ty as u16) {
                    Ok(texel) => texel,
                    Err(_) => *color,
                }
            },
            None => *color,
        };
        assert(shade.packed() == fragment_color(texture_model(texture), color.packed(), weights));
        if tested {
            let drawn = plot(image, depth, x, y, z as i64, &shade);
        } else {
            let drawn = image.set(x, y, &shade);
        }
    }
}

/// Whether the pixel `(x, y)` has had its turn when a fill that goes through
/// the columns from `low_x` on, and in each column through the rows
/// `low_y..=high_y`, stands before row `row` of column `column`.
spec fn done(low_x: int, low_y: int, high_y: int, column: int, row: int, x: int, y: int) -> bool {
    (low_x <= x < column && low_y <= y <= high_y) || (x == column && low_y <= y < row)
}

/// Fills a triangle that is not degenerate.
fn fill(
    v0: Point3D,
    v1: Point3D,
    v2: Point3D,
    texture: Option<&Texture>,
    image: &mut TGAFile,
    depth: &mut DepthBuffer,
    tested: bool,
    color: &Color32,
)
    requires
        determinant(v0, v1, v2) != 0,
        tested ==> old(depth)@.width == old(image)@.width && old(depth)@.height == old(
            image,
        )@.height,
        texture matches Some(t) ==> t@.in_bounds(),
    ensures
        same_frame(old(image)@, final(image)@),
        final(depth)@.width == old(depth)@.width,
        final(depth)@.height == old(depth)@.height,
        final(depth)@.wf(),
        forall|x: int, y: int|
            old(image)@.contains(x, y) ==> #[trigger] final(image)@.pixel(x, y) == filled_pixel(
                v0,
                v1,
                v2,
                texture_model(texture),
                color.packed(),
                old(image)@,
                kept(tested, old(depth)@),
                x,
                y,
            ),
        tested ==> forall|x: int, y: int|
            old(image)@.contains(x, y) ==> #[trigger] final(depth)@.at(x, y) == filled_depth(
                v0,
                v1,
                v2,
                old(depth)@,
                x,
                y,
            ),
        !tested ==> final(depth)@ == old(depth)@,
{
    let width: u16 = image.get_width();
    let height: u16 = image.get_height();
    let depth_width = depth.get_width();
    let ghost first = image@;
    let ghost depths = depth@;
    let ghost flat = color.packed();
    let ghost model = texture_model(texture);
    if width == 0 || height == 0 {
        return;
    }
    let least_x: i32 = least(v0.x, v1.x, v2.x);
    let least_y: i32 = least(v0.y, v1.y, v2.y);
    let greatest_x: i32 = greatest(v0.x, v1.x, v2.x);
    let greatest_y: i32 = greatest(v0.y, v1.y, v2.y);
    let low_x: i32 = if least_x < 0 {
        0
    } else {
        least_x
    };
    let low_y: i32 = if least_y < 0 {
        0
    } else {
        least_y
    };
    let high_x: i32 = if greatest_x > width as i32 - 1 {
        width as i32 - 1
    } else {
        greatest_x
    };
    let high_y: i32 = if greatest_y > height as i32 - 1 {
        height as i32 - 1
    } else {
        greatest_y
    };
    let mut column: i32 = low_x;
    while column <= high_x
        invariant
            determinant(v0, v1, v2) != 0,
            texture matches Some(t) ==> t@.in_bounds(),
            model == texture_model(texture),
            flat == color.packed(),
            first.wf(),
            width == first.width,
            height == first.height,
            tested ==> depths.width == first.width && depths.height == first.height,
            0 <= low_x <= column,
            0 <= low_y,
            high_x < width,
            high_y < height,
            column <= high_x + 1 || column == low_x,
            same_frame(first, image@),
            depth@.width == depths.width,
            depth@.height == depths.height,
            depth@.wf(),
            !tested ==> depth@ == depths,
            forall|x: int, y: int|
                first.contains(x, y) ==> #[trigger] image@.pixel(x, y) == if done(
                    low_x as int,
                    low_y as int,
                    high_y as int,
                    column as int,
                    low_y as int,
                    x,
                    y,
                ) {
                    filled_pixel(v0, v1, v2, model, flat, first, kept(tested, depths), x, y)
                } else {
                    first.pixel(x, y)
                },
            tested ==> forall|x: int, y: int|
                first.contains(x, y) ==> #[trigger] depth@.at(x, y) == if done(
                    low_x as int,
                    low_y as int,
                    high_y as int,
                    column as int,
                    low_y as int,
                    x,
                    y,
                ) {
                    filled_depth(v0, v1, v2, depths, x, y)
                } else {
                    depths.at(x, y)
                },
        decreases high_x + 1 - column,
    {
        let mut row: i32 = low_y;
        while row <= high_y
            invariant
                determinant(v0, v1, v2) != 0,
                texture matches Some(t) ==> t@.in_bounds(),
                model == texture_model(texture),
                flat == color.packed(),
                first.wf(),
                width == first.width,
                height == first.height,
                tested ==> depths.width == first.width && depths.height == first.height,
                0 <= low_x <= column <= high_x < width,
                0 <= low_y <= row,
                high_y < height,
                row <= high_y + 1 || row == low_y,
                same_frame(first, image@),
                depth@.width == depths.width,
                depth@.height == depths.height,
                depth@.wf(),
                !tested ==> depth@ == depths,
                forall|x: int, y: int|
                    first.contains(x, y) ==> #[trigger] image@.pixel(x, y) == if done(
                        low_x as int,
                        low_y as int,
                        high_y as int,
                        column as int,
                        row as int,
                        x,
                        y,
                    ) {
                        filled_pixel(v0, v1, v2, model, flat, first, kept(tested, depths), x, y)
                    } else {
                        first.pixel(x, y)
                    },
                tested ==> forall|x: int, y: int|
                    first.contains(x, y) ==> #[trigger] depth@.at(x, y) == if done(
                        low_x as int,
                        low_y as int,
                        high_y as int,
                        column as int,
                        row as int,
                        x,
                        y,
                    ) {
                        filled_depth(v0, v1, v2, depths, x, y)
                    } else {
                        depths.at(x, y)
                    },
            decreases high_y + 1 - row,
        {
            let ghost image_before = image@;
            let ghost depth_before = depth@;
            assert(image_before.pixel(column as int, row as int) == first.pixel(
                column as int,
                row as int,
            ));
            assert(tested ==> depth_before.at(column as int, row as int) == depths.at(
                column as int,
                row as int,
            ));
            shade_pixel(v0, v1, v2, texture, image, depth, tested, color, column as u16, row as u16);
            proof {
                let value = fragment_color(
                    model,
                    flat,
                    weights(v0, v1, v2, column as int, row as int),
                );
                lemma_pixel_after_write(image_before, column as int, row as int, value);
                if tested {
                    lemma_depth_after_write(
                        depth_before,
                        column as int,
                        row as int,
                        depth_at(v0, v1, v2, column as int, row as int) as i64,
                    );
                }
            }
            row += 1;
        }
        column += 1;
    }
    proof {
        assert forall|x: int, y: int| first.contains(x, y) implies #[trigger] image@.pixel(x, y)
            == filled_pixel(v0, v1, v2, model, flat, first, kept(tested, depths), x, y) by {
            if covers(v0, v1, v2, x, y) {
                lemma_covered_is_between(v0, v1, v2, x, y);
            }
        }
        if tested {
            assert forall|x: int, y: int| first.contains(x, y) implies #[trigger] depth@.at(x, y)
                == filled_depth(v0, v1, v2, depths, x, y) by {
                if covers(v0, v1, v2, x, y) {
                    lemma_covered_is_between(v0, v1, v2, x, y);
                }
            }
        }
    }
}

fn least(a: i32, b: i32, c: i32) -> (r: i32)
    ensures
        r == min3(a as int, b as int, c as int),
{
    if a <= b && a <= c {
        a
    } else if b <= c {
        b
    } else {
        c
    }
}

fn greatest(a: i32, b: i32, c: i32) -> (r: i32)
    ensures
        r == max3(a as int, b as int, c as int),
{
    if a >= b && a >= c {
        a
    } else if b >= c {
        b
    } else {
        c
    }
}

/// Draws the edge between two vertices if both lie on the image.
fn edge(from: Point3D, to: Point3D, image: &mut TGAFile, color: &Color32)
    ensures
        same_frame(old(image)@, final(image)@),
        forall|x: int, y: int|
            old(image)@.contains(x, y) ==> #[trigger] final(image)@.pixel(x, y) == if edge_drawn(
                old(image)@,
                from,
                to,
                x,
                y,
            ) {
                color.packed()
            } else {
                old(image)@.pixel(x, y)
            },
{
    let width: u16 = image.get_width();
    let height: u16 = image.get_height();
    if 0 <= from.x && from.x < width as i32 && 0 <= from.y && from.y < height as i32 && 0 <= to.x
        && to.x < width as i32 && 0 <= to.y && to.y < height as i32 {
        line_from_vertices(from, to, image, color);
    }
}

/// Draws the three edges of a triangle in the outline colour.
fn outline(v0: Point3D, v1: Point3D, v2: Point3D, image: &mut TGAFile)
    ensures
        same_frame(old(image)@, final(image)@),
        forall|x: int, y: int|
            old(image)@.contains(x, y) ==> #[trigger] final(image)@.pixel(x, y) == if on_outline(
                old(image)@,
                v0,
                v1,
                v2,
                x,
                y,
            ) {
                OUTLINE
            } else {
                old(image)@.pixel(x, y)
            },
{
    let red = Color32::new(255, 0, 0, 255);
    assert(red.packed() == OUTLINE);
    let ghost first = image@;
    edge(v0, v1, image, &red);
    let ghost second = image@;
    edge(v1, v2, image, &red);
    let ghost third = image@;
    edge(v2, v0, image, &red);
    proof {
        assert forall|x: int, y: int| first.contains(x, y) implies #[trigger] image@.pixel(x, y)
            == if on_outline(first, v0, v1, v2, x, y) {
            OUTLINE
        } else {
            first.pixel(x, y)
        } by {
            assert(second.contains(x, y) && third.contains(x, y));
            assert(second.pixel(x, y) == if edge_drawn(first, v0, v1, x, y) {
                OUTLINE
            } else {
                first.pixel(x, y)
            });
            assert(third.pixel(x, y) == if edge_drawn(second, v1, v2, x, y) {
                OUTLINE
            } else {
                second.pixel(x, y)
            });
        }
    }
}

/// Draws a triangle.
///
/// A degenerate triangle, one whose vertices lie on one line, is not filled:
/// its three edges are drawn in the outline colour, each edge only if both
/// of its ends lie on the image, and no depth changes.
///
/// Any other triangle is filled. A pixel of the image is covered if its
/// weights are all at least zero, so the edges belong to the triangle. The
/// depth of a covered pixel is the weighted mean of the depths of the
/// vertices. With a depth buffer, a covered pixel is drawn, and its depth
/// kept, only where it is nearer than what the buffer holds; without one,
/// every covered pixel is drawn. The colour is the texel that the weighted
/// mean of the three places in the texture selects, or `color` where there
/// is no texture.
pub fn triangle(
    v0: Point3D,
    v1: Point3D,
    v2: Point3D,
    texture: Option<&Texture>,
    image: &mut TGAFile,
    zbuffer: Option<&mut DepthBuffer>,
    color: &Color32,
)
    requires
        texture matches Some(t) ==> t@.in_bounds(),
        zbuffer matches Some(depths) ==> depths@.width == old(image)@.width && depths@.height
            == old(image)@.height,
    ensures
        same_frame(old(image)@, final(image)@),
        forall|x: int, y: int|
            old(image)@.contains(x, y) ==> #[trigger] final(image)@.pixel(x, y) == if determinant(
                v0,
                v1,
                v2,
            ) == 0 {
                if on_outline(old(image)@, v0, v1, v2, x, y) {
                    OUTLINE
                } else {
                    old(image)@.pixel(x, y)
                }
            } else {
                filled_pixel(
                    v0,
                    v1,
                    v2,
                    texture_model(texture),
                    color.packed(),
                    old(image)@,
                    match zbuffer {
                        Some(depths) => Some(depths@),
                        None => None,
                    },
                    x,
                    y,
                )
            },
        zbuffer matches Some(depths) ==> same_size(final(depths)@, final(image)@),
        zbuffer matches Some(depths) ==> determinant(v0, v1, v2) == 0 ==> final(depths)@
            == depths@,
        zbuffer matches Some(depths) ==> determinant(v0, v1, v2) != 0 ==> forall|x: int, y: int|
            old(image)@.contains(x, y) ==> #[trigger] final(depths)@.at(x, y) == filled_depth(
                v0,
                v1,
                v2,
                depths@,
                x,
                y,
            ),
{
    let bx: i64 = v1.x as i64 - v0.x as i64;
    let by: i64 = v1.y as i64 - v0.y as i64;
    let cx: i64 = v2.x as i64 - v0.x as i64;
    let cy: i64 = v2.y as i64 - v0.y as i64;
    let det: i128 = cross(bx, by, cx, cy);
    assert(by * cx == cx * by) by (nonlinear_arith);
    assert(det == determinant(v0, v1, v2));
    match zbuffer {
        Some(depths) => {
            let depth_width = depths.get_width();
            if det == 0 {
                outline(v0, v1, v2, image);
            } else {
                fill(v0, v1, v2, texture, image, depths, true, color);
            }
        },
        None => {
            if det == 0 {
                outline(v0, v1, v2, image);
            } else {
                let mut unused = DepthBuffer::new(0, 0);
                fill(v0, v1, v2, texture, image, &mut unused, false, color);
            }
        },
    }
}



} // verus!
