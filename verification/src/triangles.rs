//! What a triangle draws: which pixels it covers, how deep and of what
//! colour it is there, and how the depth test decides between fragments.

use vstd::prelude::*;
use vstd::arithmetic::div_mod::{
    lemma_div_is_ordered,
    lemma_div_multiples_vanish,
    lemma_hoist_over_denominator,
};
use crate::depth::{lemma_depth_after_write, DepthModel, FARTHEST};
use crate::grid::lemma_cell_in_range;
use crate::lines::on_line;
use crate::point::{on_image, Point2D, Point3D};
use crate::tga::{lemma_pixel_after_write, ImageModel};

verus! {

/// Twice the signed area of the triangle. It is zero exactly when the three
/// points lie on one line, and the triangle is then called degenerate.
pub open spec fn determinant(v0: Point3D, v1: Point3D, v2: Point3D) -> int {
    (v1.x - v0.x) * (v2.y - v0.y) - (v2.x - v0.x) * (v1.y - v0.y)
}

/// A triangle whose vertices share their x or share their y is degenerate.
pub proof fn lemma_flat_is_degenerate(v0: Point3D, v1: Point3D, v2: Point3D)
    requires
        (v0.x == v1.x && v1.x == v2.x) || (v0.y == v1.y && v1.y == v2.y),
    ensures
        determinant(v0, v1, v2) == 0,
{
    let bx = v1.x - v0.x;
    let by = v1.y - v0.y;
    let cx = v2.x - v0.x;
    let cy = v2.y - v0.y;
    assert(bx * cy - cx * by == 0) by (nonlinear_arith)
        requires
            (bx == 0 && cx == 0) || (by == 0 && cy == 0),
    ;
}

/// The weights of the three vertices of a triangle at a pixel, as whole
/// numbers over a common positive denominator `total`: `u / total` is the
/// weight of the second vertex, `v / total` that of the third and
/// `w / total` that of the first, and they add up to 1.
pub struct Weights {
    pub u: int,
    pub v: int,
    pub w: int,
    pub total: int,
}

impl Weights {
    /// The pixel lies in the triangle, its edges included.
    pub open spec fn inside(self) -> bool {
        self.total > 0 && self.u >= 0 && self.v >= 0 && self.w >= 0
    }

    /// The weighted mean of a value given at the first, the second and the
    /// third vertex, rounded down.
    pub open spec fn blend(self, first: int, second: int, third: int) -> int {
        (self.w * first + self.u * second + self.v * third) / self.total
    }
}

/// The weights at the pixel `(x, y)`: the solution of
/// `P - v0 = u * (v1 - v0) + v * (v2 - v0)`, with `w = 1 - (u + v)`.
pub open spec fn weights(v0: Point3D, v1: Point3D, v2: Point3D, x: int, y: int) -> Weights {
    let det = determinant(v0, v1, v2);
    let u = (x - v0.x) * (v2.y - v0.y) - (y - v0.y) * (v2.x - v0.x);
    let v = (v1.x - v0.x) * (y - v0.y) - (v1.y - v0.y) * (x - v0.x);
    if det >= 0 {
        Weights { u, v, w: det - u - v, total: det }
    } else {
        Weights { u: -u, v: -v, w: u + v - det, total: -det }
    }
}

/// Whether the triangle covers the pixel `(x, y)`.
pub open spec fn covers(v0: Point3D, v1: Point3D, v2: Point3D, x: int, y: int) -> bool {
    weights(v0, v1, v2, x, y).inside()
}

/// The depth of the triangle at the pixel `(x, y)`.
pub open spec fn depth_at(v0: Point3D, v1: Point3D, v2: Point3D, x: int, y: int) -> int {
    weights(v0, v1, v2, x, y).blend(v0.z as int, v1.z as int, v2.z as int)
}

pub open spec fn min3(a: int, b: int, c: int) -> int {
    if a <= b && a <= c {
        a
    } else if b <= c {
        b
    } else {
        c
    }
}

pub open spec fn max3(a: int, b: int, c: int) -> int {
    if a >= b && a >= c {
        a
    } else if b >= c {
        b
    } else {
        c
    }
}

/// A weighted mean lies between the least and the greatest of the values.
pub proof fn lemma_blend_between(weights: Weights, first: int, second: int, third: int)
    requires
        weights.inside(),
        weights.u + weights.v + weights.w == weights.total,
    ensures
        min3(first, second, third) <= weights.blend(first, second, third) <= max3(
            first,
            second,
            third,
        ),
{
    let low = min3(first, second, third);
    let high = max3(first, second, third);
    let sum = weights.w * first + weights.u * second + weights.v * third;
    let total = weights.total;
    assert(total * low <= sum <= total * high) by (nonlinear_arith)
        requires
            weights.u >= 0,
            weights.v >= 0,
            weights.w >= 0,
            weights.u + weights.v + weights.w == total,
            low <= first <= high,
            low <= second <= high,
            low <= third <= high,
            sum == weights.w * first + weights.u * second + weights.v * third,
    ;
    lemma_div_is_ordered(total * low, sum, total);
    lemma_div_is_ordered(sum, total * high, total);
    lemma_div_multiples_vanish(low, total);
    lemma_div_multiples_vanish(high, total);
}

/// A weighted mean is the least value plus the weighted mean of what the
/// values have above it.
pub proof fn lemma_blend_from_least(weights: Weights, first: int, second: int, third: int, low: int)
    requires
        weights.total > 0,
        weights.u + weights.v + weights.w == weights.total,
    ensures
        weights.blend(first, second, third) == low + weights.blend(
            first - low,
            second - low,
            third - low,
        ),
{
    let sum = weights.w * first + weights.u * second + weights.v * third;
    let above = weights.w * (first - low) + weights.u * (second - low) + weights.v * (third - low);
    let total = weights.total;
    assert(sum == above + low * total) by (nonlinear_arith)
        requires
            weights.u + weights.v + weights.w == total,
            sum == weights.w * first + weights.u * second + weights.v * third,
            above == weights.w * (first - low) + weights.u * (second - low) + weights.v * (third
                - low),
    ;
    lemma_hoist_over_denominator(above, low, total as nat);
}

/// Where `u * second + v * third` is `total * offset`, the weighted sum of
/// `base`, `base + second` and `base + third` is `total * (base + offset)`.
proof fn lemma_mean_of_shifted(weights: Weights, base: int, second: int, third: int, offset: int)
    requires
        weights.u + weights.v + weights.w == weights.total,
        weights.u * second + weights.v * third == weights.total * offset,
    ensures
        weights.w * base + weights.u * (base + second) + weights.v * (base + third)
            == weights.total * (base + offset),
{
    let u = weights.u;
    let v = weights.v;
    let w = weights.w;
    let total = weights.total;
    assert(u * (base + second) == u * base + u * second) by (nonlinear_arith);
    assert(v * (base + third) == v * base + v * third) by (nonlinear_arith);
    assert(total * (base + offset) == total * base + total * offset) by (nonlinear_arith);
    assert(total * base == w * base + u * base + v * base) by (nonlinear_arith)
        requires
            u + v + w == total,
    ;
}

/// With `u = a * d - b * c` and `v = e * b - f * a`, the vector `(a, b)` is
/// `u` times `(e, f)` plus `v` times `(c, d)`, over `e * d - c * f`.
proof fn lemma_weights_solve(a: int, b: int, c: int, d: int, e: int, f: int)
    ensures
        (a * d - b * c) * e + (e * b - f * a) * c == (e * d - c * f) * a,
        (a * d - b * c) * f + (e * b - f * a) * d == (e * d - c * f) * b,
{
    assert((a * d - b * c) * e == (a * d) * e - (b * c) * e) by (nonlinear_arith);
    assert((e * b - f * a) * c == (e * b) * c - (f * a) * c) by (nonlinear_arith);
    assert((e * d - c * f) * a == (e * d) * a - (c * f) * a) by (nonlinear_arith);
    assert((a * d) * e == (e * d) * a) by (nonlinear_arith);
    assert((b * c) * e == (e * b) * c) by (nonlinear_arith);
    assert((f * a) * c == (c * f) * a) by (nonlinear_arith);
    assert((a * d - b * c) * f == (a * d) * f - (b * c) * f) by (nonlinear_arith);
    assert((e * b - f * a) * d == (e * b) * d - (f * a) * d) by (nonlinear_arith);
    assert((e * d - c * f) * b == (e * d) * b - (c * f) * b) by (nonlinear_arith);
    assert((a * d) * f == (f * a) * d) by (nonlinear_arith);
    assert((b * c) * f == (c * f) * b) by (nonlinear_arith);
    assert((e * b) * d == (e * d) * b) by (nonlinear_arith);
}

/// The weights of a pixel give the pixel back as the weighted mean of the
/// vertices, so a pixel that the triangle covers lies between the least and
/// the greatest coordinates of its vertices.
pub proof fn lemma_covered_is_between(v0: Point3D, v1: Point3D, v2: Point3D, x: int, y: int)
    requires
        covers(v0, v1, v2, x, y),
    ensures
        min3(v0.x as int, v1.x as int, v2.x as int) <= x <= max3(
            v0.x as int,
            v1.x as int,
            v2.x as int,
        ),
        min3(v0.y as int, v1.y as int, v2.y as int) <= y <= max3(
            v0.y as int,
            v1.y as int,
            v2.y as int,
        ),
{
    let weights = weights(v0, v1, v2, x, y);
    let a = x - v0.x;
    let b = y - v0.y;
    let c = v2.x - v0.x;
    let d = v2.y - v0.y;
    let e = v1.x - v0.x;
    let f = v1.y - v0.y;
    let det = e * d - c * f;
    let u = a * d - b * c;
    let v = e * b - f * a;
    lemma_weights_solve(a, b, c, d, e, f);
    let total = weights.total;
    assert(weights.u * e + weights.v * c == total * a && weights.u * f + weights.v * d == total
        * b) by (nonlinear_arith)
        requires
            u * e + v * c == det * a,
            u * f + v * d == det * b,
            (weights.u == u && weights.v == v && total == det) || (weights.u == -u && weights.v
                == -v && total == -det),
    ;
    let x0 = v0.x as int;
    let y0 = v0.y as int;
    lemma_mean_of_shifted(weights, x0, e, c, a);
    lemma_mean_of_shifted(weights, y0, f, d, b);
    lemma_blend_between(weights, v0.x as int, v1.x as int, v2.x as int);
    lemma_blend_between(weights, v0.y as int, v1.y as int, v2.y as int);
    lemma_div_multiples_vanish(x, total);
    lemma_div_multiples_vanish(y, total);
}

/// The image and the depths after a fragment of depth `depth` and colour
/// `value` came to the pixel `(x, y)`: the fragment is drawn, and its depth
/// kept, only where it is nearer than what the pixel holds. A fragment at
/// the same depth loses.
pub open spec fn plotted(
    image: ImageModel,
    depths: DepthModel,
    x: int,
    y: int,
    depth: i64,
    value: u32,
) -> (ImageModel, DepthModel) {
    if depth > depths.at(x, y) {
        (image.with_pixel(x, y, value), depths.with_depth(x, y, depth))
    } else {
        (image, depths)
    }
}

/// `depths` holds a depth for each pixel of `image`.
pub open spec fn same_size(depths: DepthModel, image: ImageModel) -> bool {
    depths.width == image.width && depths.height == image.height && depths.wf()
}

/// The depth test, step by step: a fragment that is nearer than what a pixel
/// holds is drawn; a later fragment that is no nearer than the first leaves
/// the first in place; and one that is nearer than the first replaces it.
pub proof fn lemma_depth_test(
    image: ImageModel,
    depths: DepthModel,
    x: int,
    y: int,
    first: (i64, u32),
    second: (i64, u32),
    third: (i64, u32),
)
    requires
        image.wf(),
        same_size(depths, image),
        image.contains(x, y),
        first.0 > depths.at(x, y),
        second.0 <= first.0,
        third.0 > first.0,
    ensures
        ({
            let one = plotted(image, depths, x, y, first.0, first.1);
            let two = plotted(one.0, one.1, x, y, second.0, second.1);
            let three = plotted(two.0, two.1, x, y, third.0, third.1);
            &&& one.0.pixel(x, y) == first.1
            &&& two.0.pixel(x, y) == first.1
            &&& two == one
            &&& three.0.pixel(x, y) == third.1
            &&& three.1.at(x, y) == third.0
        }),
{
    lemma_pixel_after_write(image, x, y, first.1);
    lemma_depth_after_write(depths, x, y, first.0);
    let one = plotted(image, depths, x, y, first.0, first.1);
    lemma_pixel_after_write(one.0, x, y, third.1);
    lemma_depth_after_write(one.1, x, y, third.0);
}

pub struct TextureModel {
    pub image: ImageModel,
    pub t0: Point2D,
    pub t1: Point2D,
    pub t2: Point2D,
}

impl TextureModel {
    /// The three places lie on texels of the texture.
    pub open spec fn in_bounds(self) -> bool {
        &&& self.image.contains(self.t0.x as int, self.t0.y as int)
        &&& self.image.contains(self.t1.x as int, self.t1.y as int)
        &&& self.image.contains(self.t2.x as int, self.t2.y as int)
    }

    /// The texel for a pixel with the given weights: the weighted mean of the
    /// three places, rounded down to a texel.
    pub open spec fn texel(self, weights: Weights) -> (int, int) {
        (
            weights.blend(self.t0.x as int, self.t1.x as int, self.t2.x as int),
            weights.blend(self.t0.y as int, self.t1.y as int, self.t2.y as int),
        )
    }

    pub open spec fn sample(self, weights: Weights) -> u32 {
        self.image.pixel(self.texel(weights).0, self.texel(weights).1)
    }
}

/// The colour of a fragment: the texel that its weights select, or the flat
/// colour where there is no texture.
pub open spec fn fragment_color(texture: Option<TextureModel>, flat: u32, weights: Weights) -> u32 {
    match texture {
        Some(texture) => texture.sample(weights),
        None => flat,
    }
}

/// Whether the triangle changes the pixel `(x, y)`: it covers the pixel and,
/// where depths are kept, is nearer there than what the pixel holds.
pub open spec fn hit(
    v0: Point3D,
    v1: Point3D,
    v2: Point3D,
    depths: Option<DepthModel>,
    x: int,
    y: int,
) -> bool {
    covers(v0, v1, v2, x, y) && match depths {
        Some(depths) => depth_at(v0, v1, v2, x, y) > depths.at(x, y),
        None => true,
    }
}

/// On a buffer on which nothing was drawn, a triangle is nearer than what
/// the buffer holds at every pixel that it covers.
pub proof fn lemma_first_cover_wins(
    v0: Point3D,
    v1: Point3D,
    v2: Point3D,
    width: u16,
    height: u16,
    x: int,
    y: int,
)
    requires
        covers(v0, v1, v2, x, y),
        DepthModel::cleared(width, height).contains(x, y),
    ensures
        hit(v0, v1, v2, Some(DepthModel::cleared(width, height)), x, y),
{
    let weights = weights(v0, v1, v2, x, y);
    lemma_blend_between(weights, v0.z as int, v1.z as int, v2.z as int);
    lemma_cell_in_range(width as int, height as int, x, y);
    assert(DepthModel::cleared(width, height).at(x, y) == FARTHEST);
}

/// The value of the pixel `(x, y)` after the triangle was filled.
pub open spec fn filled_pixel(
    v0: Point3D,
    v1: Point3D,
    v2: Point3D,
    texture: Option<TextureModel>,
    flat: u32,
    image: ImageModel,
    depths: Option<DepthModel>,
    x: int,
    y: int,
) -> u32 {
    if hit(v0, v1, v2, depths, x, y) {
        fragment_color(texture, flat, weights(v0, v1, v2, x, y))
    } else {
        image.pixel(x, y)
    }
}

/// The depth of the pixel `(x, y)` after the triangle was filled.
pub open spec fn filled_depth(
    v0: Point3D,
    v1: Point3D,
    v2: Point3D,
    depths: DepthModel,
    x: int,
    y: int,
) -> i64 {
    if hit(v0, v1, v2, Some(depths), x, y) {
        depth_at(v0, v1, v2, x, y) as i64
    } else {
        depths.at(x, y)
    }
}

/// The packed colour of the outline of a degenerate triangle: opaque red.
pub const OUTLINE: u32 = 0xFF00_00FF;

/// Whether the edge between two vertices is drawn through the pixel
/// `(x, y)`. An edge with an end off the image is not drawn at all.
pub open spec fn edge_drawn(image: ImageModel, from: Point3D, to: Point3D, x: int, y: int) -> bool {
    on_image(image, from) && on_image(image, to) && on_line(
        from.x as int,
        from.y as int,
        to.x as int,
        to.y as int,
        x,
        y,
    )
}

/// Whether the outline of the triangle is drawn through the pixel `(x, y)`.
pub open spec fn on_outline(
    image: ImageModel,
    v0: Point3D,
    v1: Point3D,
    v2: Point3D,
    x: int,
    y: int,
) -> bool {
    edge_drawn(image, v0, v1, x, y) || edge_drawn(image, v1, v2, x, y) || edge_drawn(
        image,
        v2,
        v0,
        x,
        y,
    )
}

} // verus!
