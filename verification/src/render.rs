//! The projection and rasterization engine.
//!
//! One call per frame: derive the view scale from the panel and the focus
//! level, rasterize the orbit rings that fit the focus, place the Sun and
//! every body with a known position, and serialize the composited grid into
//! styled rows. The view scale is the exact rational
//! `450 * min(w, h) * zoom / (1000000 * focus)` in cells per micro-AU terms,
//! so the screen mapping is `center + round(pos * scale)` with no rounding
//! anywhere else.

use vstd::prelude::*;
use vstd::arithmetic::div_mod::{lemma_multiply_divide_le, lemma_multiply_divide_lt};
use crate::grid::{composite, Color, Grid, Pixel};
use crate::bodies::{
    body_color, body_icon, catalog, focus_radius_micro_au, orbit_micro_au, spec_body_color,
    spec_body_icon, spec_catalog, spec_focus_radius_micro_au, spec_orbit_micro_au, Body,
};
use crate::view::{ViewState, POS_LIMIT_MICRO_AU};
use crate::numeric::{
    cos_exec, cos_fixed, lemma_cos_fixed_range, lemma_round_div_close, lemma_sin_fixed_range,
    mul_div_round, round_div, sin_exec, sin_fixed,
};

verus! {

/// The draw priority of an orbit ring sample.
pub const RING_PRIORITY: u8 = 1;

/// The draw priority of the Sun's marker.
pub const SUN_PRIORITY: u8 = 10;

/// The draw priority of a planet marker; bodies always show through rings.
pub const BODY_PRIORITY: u8 = 20;

/// The largest ring radius, in milli-cells, the rasterizer accepts.
pub const RING_RADIUS_MAX_MILLI: i64 = 2000000000000;

/// The largest scale numerator a panel and the zoom range can produce.
pub const SCALE_NUM_MAX: i64 = 1500000000000;

/// The pixel every ring sample writes: a dim dot at the lowest priority.
pub open spec fn spec_ring_pixel() -> Pixel {
    Pixel { ch: '\u{B7}', color: Color::DarkGray, priority: RING_PRIORITY }
}

fn ring_pixel() -> (p: Pixel)
    ensures
        p == spec_ring_pixel(),
{
    Pixel { ch: '\u{B7}', color: Color::DarkGray, priority: RING_PRIORITY }
}

/// The numerator of the view scale: 0.45 cells per panel unit, the shorter
/// panel side, and the zoom factor in thousandths.
pub open spec fn spec_scale_num(w: int, h: int, zoom_milli: int) -> int {
    450 * (if w <= h {
        w
    } else {
        h
    }) * zoom_milli
}

/// The denominator of the view scale: the focus radius in micro-AU, floored
/// away from degenerate values.
pub open spec fn spec_scale_den(focus_micro: int) -> int {
    if focus_micro < 100000 {
        100000
    } else {
        focus_micro
    }
}

/// The screen offset of a micro-AU coordinate under a scale of
/// `num / den` cells per AU: `round(v * num / (1000000 * den))`.
pub open spec fn spec_proj_offset(v: int, num: int, den: int) -> int {
    round_div(v * num, 1000000 * den)
}

/// The view scale is strictly positive, and for a fixed focus level it is
/// strictly monotone in the zoom factor: the scale numerators order as the
/// zoom factors do, over the one shared positive denominator.
pub proof fn lemma_scale_positive_and_monotone(w: int, h: int, z1: int, z2: int, focus_micro: int)
    requires
        1 <= w,
        1 <= h,
        0 < z1 < z2,
    ensures
        0 < spec_scale_num(w, h, z1),
        0 < spec_scale_den(focus_micro),
        spec_scale_num(w, h, z1) < spec_scale_num(w, h, z2),
{
    let m = if w <= h {
        w
    } else {
        h
    };
    assert(0 < 450 * m * z1 && 450 * m * z1 < 450 * m * z2) by (nonlinear_arith)
        requires
            1 <= m,
            0 < z1 < z2,
    ;
}

/// Projecting a point at exactly the focus radius along the positive X axis
/// lands exactly `round(0.45 * min(w, h) * zoom)` cells right of the center:
/// the focus radius cancels out of the scale.
pub proof fn lemma_focus_radius_round_trip(w: int, h: int, zoom_milli: int, focus_micro: int)
    requires
        1 <= w,
        1 <= h,
        0 < zoom_milli,
        100000 <= focus_micro,
    ensures
        spec_proj_offset(
            focus_micro,
            spec_scale_num(w, h, zoom_milli),
            spec_scale_den(focus_micro),
        ) == round_div(spec_scale_num(w, h, zoom_milli), 1000000),
{
    let num = spec_scale_num(w, h, zoom_milli);
    let f = focus_micro;
    assert(0 < num) by {
        lemma_scale_positive_and_monotone(w, h, zoom_milli, zoom_milli + 1, focus_micro);
    }
    assert(spec_scale_den(f) == f);
    assert(f * num >= 0) by (nonlinear_arith)
        requires
            0 < f,
            0 < num,
    ;
    assert(2 * (f * num) + 1000000 * f == f * (2 * num + 1000000)) by (nonlinear_arith);
    assert(2 * (1000000 * f) == f * 2000000) by (nonlinear_arith);
    assert((f * (2 * num + 1000000)) / (f * 2000000) == (2 * num + 1000000) / 2000000) by {
        vstd::arithmetic::div_mod::lemma_div_multiples_vanish_quotient(
            f,
            2 * num + 1000000,
            2000000,
        );
    }
}

/// The product of two factors is bounded by the product of their bounds.
proof fn lemma_product_bound2(a: int, b: int, ka: int, kb: int)
    requires
        0 <= ka,
        0 <= kb,
        -ka <= a <= ka,
        -kb <= b <= kb,
    ensures
        -(ka * kb) <= a * b <= ka * kb,
{
    assert(-(ka * kb) <= a * b <= ka * kb) by (nonlinear_arith)
        requires
            0 <= ka,
            0 <= kb,
            -ka <= a <= ka,
            -kb <= b <= kb,
    ;
}

/// The number of angular samples for a ring of the given radius in
/// milli-cells: six per cell of radius, held between 64 and 720.
pub open spec fn spec_ring_steps(r_milli: int) -> int {
    let s = r_milli * 6 / 1000;
    if s < 64 {
        64
    } else if s > 720 {
        720
    } else {
        s
    }
}

/// The screen X offset of the ring's sample `i`: the fixed-point cosine of
/// `i` turns out of the step count, scaled by the radius.
pub open spec fn spec_ring_dx(r_milli: int, i: int) -> int {
    round_div(cos_fixed(i * 65536 / spec_ring_steps(r_milli)) * r_milli, 65536000)
}

/// The screen Y offset of the ring's sample `i`.
pub open spec fn spec_ring_dy(r_milli: int, i: int) -> int {
    round_div(sin_fixed(i * 65536 / spec_ring_steps(r_milli)) * r_milli, 65536000)
}

/// Cell (x, y) is where the ring's sample `i` lands: right of the center by
/// the cosine offset, above it by the sine offset.
pub open spec fn sample_lands_at(cx: int, cy: int, r_milli: int, i: int, x: int, y: int) -> bool {
    x == cx + spec_ring_dx(r_milli, i) && y == cy - spec_ring_dy(r_milli, i)
}

/// Cell (x, y) is one of the ring's first `n` sample cells.
pub open spec fn is_ring_sample_before(
    cx: int,
    cy: int,
    r_milli: int,
    n: int,
    x: int,
    y: int,
) -> bool {
    exists|i: int| 0 <= i < n && #[trigger] sample_lands_at(cx, cy, r_milli, i, x, y)
}

/// Cell (x, y) is one of the ring's sample cells.
pub open spec fn is_ring_sample(cx: int, cy: int, r_milli: int, x: int, y: int) -> bool {
    is_ring_sample_before(cx, cy, r_milli, spec_ring_steps(r_milli), x, y)
}

/// The samples trace the circle itself: every sampled cell sits within the
/// ring's radius of the center on each axis, up to one cell of rounding.
pub proof fn lemma_ring_samples_near_center(cx: int, cy: int, r_milli: int, x: int, y: int)
    requires
        0 <= r_milli,
        is_ring_sample(cx, cy, r_milli, x, y),
    ensures
        cx - (r_milli / 1000 + 1) <= x <= cx + r_milli / 1000 + 1,
        cy - (r_milli / 1000 + 1) <= y <= cy + r_milli / 1000 + 1,
{
    let steps = spec_ring_steps(r_milli);
    let i = choose|i: int| 0 <= i < steps && #[trigger] sample_lands_at(cx, cy, r_milli, i, x, y);
    let a = i * 65536 / steps;
    assert(steps >= 64);
    assert(0 <= i * 65536) by (nonlinear_arith)
        requires
            0 <= i,
    ;
    vstd::arithmetic::div_mod::lemma_div_pos_is_pos(i * 65536, steps);
    assert(i * 65536 < steps * 65536) by (nonlinear_arith)
        requires
            i < steps,
    ;
    lemma_multiply_divide_lt(i * 65536, steps, 65536);
    lemma_cos_fixed_range(a);
    lemma_sin_fixed_range(a);
    lemma_scaled_trig_bound(cos_fixed(a), r_milli);
    lemma_scaled_trig_bound(sin_fixed(a), r_milli);
}

/// A trig value scaled by the radius lands within the radius in cells.
proof fn lemma_scaled_trig_bound(c: int, r: int)
    requires
        -65536 <= c <= 65536,
        0 <= r,
    ensures
        -(r / 1000 + 1) <= round_div(c * r, 65536000) <= r / 1000 + 1,
{
    lemma_product_bound2(c, r, 65536, r);
    let n = c * r;
    vstd::arithmetic::div_mod::lemma_div_multiples_vanish_quotient(65536, r, 1000);
    assert(65536 * 1000 == 65536000);
    if n >= 0 {
        lemma_round_div_close(n, 65536000);
        vstd::arithmetic::div_mod::lemma_div_is_ordered(n, 65536 * r, 65536000);
    } else {
        lemma_round_div_close(-n, 65536000);
        vstd::arithmetic::div_mod::lemma_div_is_ordered(-n, 65536 * r, 65536000);
    }
}

/// Rasterize a circle of the given radius in milli-cells around the center
/// by angular sampling. A radius below one cell draws nothing at all;
/// otherwise exactly the sampled circle cells take the low-priority ring
/// pixel through the compositing write, and no other cell changes.
pub fn draw_ring(g: &mut Grid, cx: i64, cy: i64, r_milli: i64)
    requires
        old(g).wf(),
        0 <= cx <= 0xFFFF,
        0 <= cy <= 0xFFFF,
        0 <= r_milli <= RING_RADIUS_MAX_MILLI,
    ensures
        final(g).wf(),
        final(g).w == old(g).w,
        final(g).h == old(g).h,
        r_milli < 1000 ==> final(g).cells@ == old(g).cells@,
        r_milli >= 1000 ==> forall|x: int, y: int|
            old(g).in_bounds(x, y) ==> final(g).cell(x, y) == (
            if is_ring_sample(cx as int, cy as int, r_milli as int, x, y) {
                composite(old(g).cell(x, y), spec_ring_pixel())
            } else {
                old(g).cell(x, y)
            }),
{
    if r_milli < 1000 {
        return ;
    }
    let r6: u64 = (r_milli as u64) * 6;
    let rs: u64 = r6 / 1000;
    let steps: u64 = if rs < 64 {
        64
    } else if rs > 720 {
        720
    } else {
        rs
    };
    let ghost cxi = cx as int;
    let ghost cyi = cy as int;
    let ghost ri = r_milli as int;
    proof {
        assert(steps as int == spec_ring_steps(ri));
    }
    let mut i: u64 = 0;
    while i < steps
        invariant
            g.wf(),
            g.w == old(g).w,
            g.h == old(g).h,
            64 <= steps <= 720,
            i <= steps,
            cxi == cx as int,
            cyi == cy as int,
            ri == r_milli as int,
            steps as int == spec_ring_steps(ri),
            forall|x: int, y: int|
                old(g).in_bounds(x, y) ==> g.cell(x, y) == (
                if is_ring_sample_before(cxi, cyi, ri, i as int, x, y) {
                    composite(old(g).cell(x, y), spec_ring_pixel())
                } else {
                    old(g).cell(x, y)
                }),
            0 <= cx <= 0xFFFF,
            0 <= cy <= 0xFFFF,
            1000 <= r_milli <= RING_RADIUS_MAX_MILLI,
        decreases steps - i,
    {
        proof {
            assert(i * 65536 < steps * 65536) by (nonlinear_arith)
                requires
                    i < steps,
            ;
            lemma_multiply_divide_lt((i * 65536) as int, steps as int, 65536);
        }
        let a: u64 = i * 65536 / steps;
        let c: i64 = cos_exec(a as i64);
        let s: i64 = sin_exec(a as i64);
        proof {
            lemma_product_bound2(c as int, r_milli as int, 65536, RING_RADIUS_MAX_MILLI as int);
            lemma_product_bound2(s as int, r_milli as int, 65536, RING_RADIUS_MAX_MILLI as int);
            lemma_ring_offset_bounded(c as int, r_milli as int);
            lemma_ring_offset_bounded(s as int, r_milli as int);
        }
        let dx = mul_div_round(c as i128, r_milli as i128, 65536000) as i64;
        let dy = mul_div_round(s as i128, r_milli as i128, 65536000) as i64;
        let ghost ii = i as int;
        let ghost pre = *g;
        g.put_pixel(cx + dx, cy - dy, ring_pixel());
        proof {
            assert(dx as int == spec_ring_dx(ri, ii));
            assert(dy as int == spec_ring_dy(ri, ii));
            let px = cxi + spec_ring_dx(ri, ii);
            let py = cyi - spec_ring_dy(ri, ii);
            assert forall|x: int, y: int| old(g).in_bounds(x, y) implies g.cell(x, y) == (
            if is_ring_sample_before(cxi, cyi, ri, ii + 1, x, y) {
                composite(old(g).cell(x, y), spec_ring_pixel())
            } else {
                old(g).cell(x, y)
            }) by {
                if x == px && y == py {
                    assert(sample_lands_at(cxi, cyi, ri, ii, x, y));
                    assert(is_ring_sample_before(cxi, cyi, ri, ii + 1, x, y));
                    assert(g.cell(x, y) == composite(pre.cell(x, y), spec_ring_pixel()));
                    lemma_composite_repeat(old(g).cell(x, y), spec_ring_pixel());
                } else {
                    assert(g.cell(x, y) == pre.cell(x, y));
                    if is_ring_sample_before(cxi, cyi, ri, ii + 1, x, y) {
                        let j = choose|j: int|
                            0 <= j < ii + 1 && #[trigger] sample_lands_at(cxi, cyi, ri, j, x, y);
                        assert(j != ii);
                        assert(is_ring_sample_before(cxi, cyi, ri, ii, x, y));
                    } else {
                        assert(!is_ring_sample_before(cxi, cyi, ri, ii, x, y));
                    }
                }
            }
        }
        i = i + 1;
    }
}

/// Writing the same pixel onto a cell twice leaves what one write leaves.
proof fn lemma_composite_repeat(cur: Option<Pixel>, p: Pixel)
    ensures
        composite(composite(cur, p), p) == composite(cur, p),
{
}

/// A ring sample's screen offset stays within the range the radius allows.
proof fn lemma_ring_offset_bounded(c: int, r_milli: int)
    requires
        -65536 <= c <= 65536,
        0 <= r_milli <= RING_RADIUS_MAX_MILLI,
    ensures
        c * r_milli <= 65536000 * 2100000000,
        -(65536000 * 2100000000) <= c * r_milli,
        round_div(c * r_milli, 65536000) <= 2100000001,
        -2100000001 <= round_div(c * r_milli, 65536000),
{
    lemma_product_bound2(c, r_milli, 65536, RING_RADIUS_MAX_MILLI as int);
    let n = c * r_milli;
    if n >= 0 {
        lemma_multiply_divide_le(n, 65536000, 2100000000);
        lemma_round_div_close(n, 65536000);
    } else {
        lemma_multiply_divide_le(-n, 65536000, 2100000000);
        lemma_round_div_close(-n, 65536000);
    }
}

/// Map a heliocentric micro-AU position to a screen cell: the center plus
/// the rounded scaled offsets, with the screen Y axis pointing down. The
/// transform never clamps; an out-of-bounds cell is dropped by the
/// compositing write instead.
pub fn project(x_micro: i64, y_micro: i64, cx: i64, cy: i64, num: i64, den: i64) -> (r: (i64, i64))
    requires
        -POS_LIMIT_MICRO_AU <= x_micro <= POS_LIMIT_MICRO_AU,
        -POS_LIMIT_MICRO_AU <= y_micro <= POS_LIMIT_MICRO_AU,
        0 <= cx <= 0xFFFF,
        0 <= cy <= 0xFFFF,
        0 < num <= SCALE_NUM_MAX,
        100000 <= den <= 31000000,
    ensures
        r.0 == cx + spec_proj_offset(x_micro as int, num as int, den as int),
        r.1 == cy - spec_proj_offset(y_micro as int, num as int, den as int),
{
    let d: i64 = 1000000 * den;
    proof {
        lemma_proj_offset_bounded(x_micro as int, num as int, den as int);
        lemma_proj_offset_bounded(y_micro as int, num as int, den as int);
    }
    let dx = mul_div_round(x_micro as i128, num as i128, d as i128) as i64;
    let dy = mul_div_round(y_micro as i128, num as i128, d as i128) as i64;
    (cx + dx, cy - dy)
}

/// A projected offset stays within the range the position limit allows.
proof fn lemma_proj_offset_bounded(v: int, num: int, den: int)
    requires
        -POS_LIMIT_MICRO_AU <= v <= POS_LIMIT_MICRO_AU,
        0 < num <= SCALE_NUM_MAX,
        100000 <= den <= 31000000,
    ensures
        -15000000000001 <= spec_proj_offset(v, num, den) <= 15000000000001,
{
    lemma_product_bound2(v, num, POS_LIMIT_MICRO_AU as int, SCALE_NUM_MAX as int);
    let n = v * num;
    let d = 1000000 * den;
    assert(POS_LIMIT_MICRO_AU * SCALE_NUM_MAX <= d * 15000000000000) by (nonlinear_arith)
        requires
            100000 <= den,
            d == 1000000 * den,
    ;
    if n >= 0 {
        lemma_multiply_divide_le(n, d, 15000000000000);
        lemma_round_div_close(n, d);
    } else {
        lemma_multiply_divide_le(-n, d, 15000000000000);
        lemma_round_div_close(-n, d);
    }
}

/// The ring radius of an orbit under the view scale, in milli-cells.
pub open spec fn spec_ring_radius_milli(orbit_micro: int, num: int, den: int) -> int {
    round_div(orbit_micro * num, 1000 * den)
}

fn ring_radius_milli(orbit_micro: i64, num: i64, den: i64) -> (r: i64)
    requires
        0 < orbit_micro <= 31000000,
        0 < num <= SCALE_NUM_MAX,
        100000 <= den <= 31000000,
    ensures
        r == spec_ring_radius_milli(orbit_micro as int, num as int, den as int),
        0 <= r <= RING_RADIUS_MAX_MILLI,
{
    let d: i64 = 1000 * den;
    proof {
        lemma_product_bound2(orbit_micro as int, num as int, 31000000, SCALE_NUM_MAX as int);
        let n = orbit_micro as int * num as int;
        assert(0 <= n) by (nonlinear_arith)
            requires
                0 < orbit_micro,
                0 < num,
                n == orbit_micro as int * num as int,
        ;
        assert(31000000 * SCALE_NUM_MAX <= (d as int) * 700000000000) by (nonlinear_arith)
            requires
                100000 <= den,
                d == 1000 * den,
        ;
        lemma_multiply_divide_le(n, d as int, 700000000000);
        lemma_round_div_close(n, d as int);
    }
    mul_div_round(orbit_micro as i128, num as i128, d as i128) as i64
}

/// A panel dimension with the border stripped, floored at one cell.
pub open spec fn spec_map_dim(panel: int) -> int {
    if panel >= 3 {
        panel - 2
    } else {
        1
    }
}

/// The scale numerator a frame uses, from the interior dimensions and zoom.
pub open spec fn spec_view_num(state: ViewState, w: int, h: int) -> int {
    spec_scale_num(w, h, state.zoom_milli as int)
}

/// The scale denominator a frame uses, from the focus level.
pub open spec fn spec_view_den(state: ViewState) -> int {
    spec_scale_den(spec_focus_radius_micro_au(state.focus_index as int) as int)
}

/// The marker pixel of a body.
pub open spec fn spec_body_pixel(b: Body, use_unicode: bool) -> Pixel {
    Pixel { ch: spec_body_icon(b, use_unicode), color: spec_body_color(b), priority: BODY_PRIORITY }
}

/// The Sun's static marker at the view's center.
pub open spec fn spec_sun_pixel(use_unicode: bool) -> Pixel {
    Pixel {
        ch: spec_body_icon(Body::Sun, use_unicode),
        color: spec_body_color(Body::Sun),
        priority: SUN_PRIORITY,
    }
}

/// Body slot `i` has a known position whose projection is cell (x, y); a
/// body with no known position marks no cell at all.
pub open spec fn body_marker_at(
    state: ViewState,
    cx: int,
    cy: int,
    num: int,
    den: int,
    i: int,
    x: int,
    y: int,
) -> bool {
    &&& 0 <= i < state.bodies@.len()
    &&& match state.bodies@[i].pos {
        Some(p) => x == cx + spec_proj_offset(p.x as int, num, den) && y == cy - spec_proj_offset(
            p.y as int,
            num,
            den,
        ),
        None => false,
    }
}

/// The body whose marker the draw order leaves at (x, y), among the first
/// `n` slots: the earliest slot projecting there wins the cell.
pub open spec fn spec_first_marker(
    state: ViewState,
    cx: int,
    cy: int,
    num: int,
    den: int,
    x: int,
    y: int,
    n: int,
) -> Option<Body>
    decreases n,
{
    if n <= 0 {
        None
    } else {
        match spec_first_marker(state, cx, cy, num, den, x, y, n - 1) {
            Some(b) => Some(b),
            None => if body_marker_at(state, cx, cy, num, den, n - 1, x, y) {
                Some(state.bodies@[n - 1].body)
            } else {
                None
            },
        }
    }
}

/// Catalog body `k`'s ring is drawn — its orbit lies within the focus
/// radius and spans at least one cell — and (x, y) is one of its samples.
pub open spec fn ring_sample_of(
    state: ViewState,
    cx: int,
    cy: int,
    num: int,
    den: int,
    k: int,
    x: int,
    y: int,
) -> bool {
    &&& 0 <= k < spec_catalog().len()
    &&& match spec_orbit_micro_au(spec_catalog()[k]) {
        Some(orbit) => {
            let r = spec_ring_radius_milli(orbit as int, num, den);
            orbit <= spec_focus_radius_micro_au(state.focus_index as int) && r >= 1000
                && is_ring_sample(cx, cy, r, x, y)
        },
        None => false,
    }
}

/// Cell (x, y) lies on a drawn ring of one of the first `n` catalog bodies.
pub open spec fn ring_at_before(
    state: ViewState,
    cx: int,
    cy: int,
    num: int,
    den: int,
    n: int,
    x: int,
    y: int,
) -> bool {
    exists|k: int| 0 <= k < n && #[trigger] ring_sample_of(state, cx, cy, num, den, k, x, y)
}

/// Cell (x, y) lies on some drawn orbit ring.
pub open spec fn ring_at(
    state: ViewState,
    cx: int,
    cy: int,
    num: int,
    den: int,
    x: int,
    y: int,
) -> bool {
    ring_at_before(state, cx, cy, num, den, spec_catalog().len() as int, x, y)
}

/// What the static layer leaves in a cell before the planet markers: the
/// Sun at the center, a ring dot on the drawn rings, nothing elsewhere.
pub open spec fn spec_static_cell(
    state: ViewState,
    cx: int,
    cy: int,
    num: int,
    den: int,
    x: int,
    y: int,
) -> Option<Pixel> {
    if x == cx && y == cy {
        Some(spec_sun_pixel(state.use_unicode_icons))
    } else if ring_at(state, cx, cy, num, den, x, y) {
        Some(spec_ring_pixel())
    } else {
        None
    }
}

/// What one frame leaves in a cell: the first planet marker projected
/// there — regardless of the focus level — else the static layer.
pub open spec fn spec_rendered_cell(state: ViewState, w: int, h: int, x: int, y: int) -> Option<
    Pixel,
> {
    let cx = w / 2;
    let cy = h / 2;
    let num = spec_view_num(state, w, h);
    let den = spec_view_den(state);
    match spec_first_marker(state, cx, cy, num, den, x, y, state.bodies@.len() as int) {
        Some(b) => Some(spec_body_pixel(b, state.use_unicode_icons)),
        None => spec_static_cell(state, cx, cy, num, den, x, y),
    }
}

/// Render one frame: rings for every orbit within the focus radius, the Sun
/// at the center, and a marker for every body with a known position —
/// bodies with none contribute no write at all. Marker visibility does not
/// depend on the focus level; only ring visibility does. Every cell of the
/// result is pinned by [`spec_rendered_cell`], so the frame is a pure
/// function of the snapshot and the panel.
pub fn render_map(state: &ViewState, panel_w: u16, panel_h: u16) -> (g: Grid)
    requires
        state.wf(),
    ensures
        g.wf(),
        g.w == spec_map_dim(panel_w as int),
        g.h == spec_map_dim(panel_h as int),
        forall|x: int, y: int|
            g.in_bounds(x, y) ==> g.cell(x, y) == spec_rendered_cell(
                *state,
                g.w as int,
                g.h as int,
                x,
                y,
            ),
        g.cell(g.w as int / 2, g.h as int / 2) is Some,
{
    let w: usize = if panel_w >= 3 {
        (panel_w - 2) as usize
    } else {
        1
    };
    let h: usize = if panel_h >= 3 {
        (panel_h - 2) as usize
    } else {
        1
    };
    let mut g = Grid::new(w, h);
    let cx: i64 = (w / 2) as i64;
    let cy: i64 = (h / 2) as i64;
    let mn: i64 = if w <= h {
        w as i64
    } else {
        h as i64
    };
    proof {
        lemma_product_bound2(450 * mn as int, state.zoom_milli as int, 29490750, 50000);
        assert(0 < 450 * (mn as int) * state.zoom_milli) by (nonlinear_arith)
            requires
                1 <= mn,
                0 < state.zoom_milli,
        ;
    }
    let num: i64 = 450 * mn * state.zoom_milli;
    let f = focus_radius_micro_au(state.focus_index);
    let den: i64 = if f < 100000 {
        100000
    } else {
        f
    };
    let ghost cxi = cx as int;
    let ghost cyi = cy as int;
    let ghost numi = num as int;
    let ghost deni = den as int;
    proof {
        assert(numi == spec_view_num(*state, w as int, h as int));
        assert(deni == spec_view_den(*state));
    }
    // Orbit rings, only up to the focus orbit.
    let cat = catalog();
    let mut bi: usize = 0;
    while bi < cat.len()
        invariant
            g.wf(),
            g.w == w,
            g.h == h,
            1 <= w <= 0xFFFF,
            1 <= h <= 0xFFFF,
            state.wf(),
            cat@ == spec_catalog(),
            bi <= cat@.len(),
            0 <= cx <= 0xFFFF,
            0 <= cy <= 0xFFFF,
            0 < num <= SCALE_NUM_MAX,
            100000 <= den <= 31000000,
            cxi == cx as int,
            cyi == cy as int,
            numi == num as int,
            deni == den as int,
            numi == spec_view_num(*state, w as int, h as int),
            deni == spec_view_den(*state),
            f as int == spec_focus_radius_micro_au(state.focus_index as int),
            forall|x: int, y: int|
                g.in_bounds(x, y) ==> g.cell(x, y) == (
                if ring_at_before(*state, cxi, cyi, numi, deni, bi as int, x, y) {
                    Some(spec_ring_pixel())
                } else {
                    None::<Pixel>
                }),
        decreases cat@.len() - bi,
    {
        let ghost bii = bi as int;
        let ghost pre = g;
        match orbit_micro_au(cat[bi]) {
            Some(orbit) => {
                if orbit <= f {
                    let r_milli = ring_radius_milli(orbit, num, den);
                    draw_ring(&mut g, cx, cy, r_milli);
                    proof {
                        lemma_ring_layer_step(
                            *state,
                            pre,
                            g,
                            cxi,
                            cyi,
                            numi,
                            deni,
                            bii,
                            orbit,
                            r_milli as int,
                        );
                    }
                } else {
                    proof {
                        assert forall|x: int, y: int| g.in_bounds(x, y) implies g.cell(x, y) == (
                        if ring_at_before(*state, cxi, cyi, numi, deni, bii + 1, x, y) {
                            Some(spec_ring_pixel())
                        } else {
                            None::<Pixel>
                        }) by {
                            lemma_ring_at_extend(*state, cxi, cyi, numi, deni, bii, x, y);
                            assert(!ring_sample_of(*state, cxi, cyi, numi, deni, bii, x, y));
                        }
                    }
                }
            },
            None => {
                proof {
                    assert forall|x: int, y: int| g.in_bounds(x, y) implies g.cell(x, y) == (
                    if ring_at_before(*state, cxi, cyi, numi, deni, bii + 1, x, y) {
                        Some(spec_ring_pixel())
                    } else {
                        None::<Pixel>
                    }) by {
                        lemma_ring_at_extend(*state, cxi, cyi, numi, deni, bii, x, y);
                        assert(!ring_sample_of(*state, cxi, cyi, numi, deni, bii, x, y));
                    }
                }
            },
        }
        bi = bi + 1;
    }
    // The Sun, always at the center of the view.
    let ghost pre_sun = g;
    g.put_pixel(
        cx,
        cy,
        Pixel {
            ch: body_icon(Body::Sun, state.use_unicode_icons),
            color: body_color(Body::Sun),
            priority: SUN_PRIORITY,
        },
    );
    proof {
        assert forall|x: int, y: int| g.in_bounds(x, y) implies g.cell(x, y) == spec_static_cell(
            *state,
            cxi,
            cyi,
            numi,
            deni,
            x,
            y,
        ) by {
            assert(pre_sun.in_bounds(x, y));
            if x == cxi && y == cyi {
                assert(g.cell(x, y) == composite(
                    pre_sun.cell(x, y),
                    spec_sun_pixel(state.use_unicode_icons),
                ));
            } else {
                assert(g.cell(x, y) == pre_sun.cell(x, y));
            }
        }
    }
    // Markers for every body with a known position.
    let mut i: usize = 0;
    while i < state.bodies.len()
        invariant
            g.wf(),
            g.w == w,
            g.h == h,
            1 <= w <= 0xFFFF,
            1 <= h <= 0xFFFF,
            state.wf(),
            i <= state.bodies@.len(),
            0 <= cx <= 0xFFFF,
            0 <= cy <= 0xFFFF,
            0 < num <= SCALE_NUM_MAX,
            100000 <= den <= 31000000,
            cxi == cx as int,
            cyi == cy as int,
            numi == num as int,
            deni == den as int,
            numi == spec_view_num(*state, w as int, h as int),
            deni == spec_view_den(*state),
            forall|x: int, y: int|
                g.in_bounds(x, y) ==> g.cell(x, y) == (
                match spec_first_marker(*state, cxi, cyi, numi, deni, x, y, i as int) {
                    Some(b) => Some(spec_body_pixel(b, state.use_unicode_icons)),
                    None => spec_static_cell(*state, cxi, cyi, numi, deni, x, y),
                }),
        decreases state.bodies@.len() - i,
    {
        let ghost iii = i as int;
        let ghost pre = g;
        let b = state.bodies[i];
        match b.pos {
            Some(p) => {
                let (px, py) = project(p.x, p.y, cx, cy, num, den);
                g.put_pixel(
                    px,
                    py,
                    Pixel {
                        ch: body_icon(b.body, state.use_unicode_icons),
                        color: body_color(b.body),
                        priority: BODY_PRIORITY,
                    },
                );
            },
            None => {},
        }
        proof {
            assert forall|x: int, y: int| g.in_bounds(x, y) implies g.cell(x, y) == (
            match spec_first_marker(*state, cxi, cyi, numi, deni, x, y, iii + 1) {
                Some(b2) => Some(spec_body_pixel(b2, state.use_unicode_icons)),
                None => spec_static_cell(*state, cxi, cyi, numi, deni, x, y),
            }) by {
                assert(pre.in_bounds(x, y));
                if body_marker_at(*state, cxi, cyi, numi, deni, iii, x, y) {
                    assert(g.cell(x, y) == composite(
                        pre.cell(x, y),
                        spec_body_pixel(state.bodies@[iii].body, state.use_unicode_icons),
                    ));
                } else {
                    assert(g.cell(x, y) == pre.cell(x, y));
                }
            }
        }
        i = i + 1;
    }
    proof {
        assert(cxi == g.w as int / 2);
        assert(cyi == g.h as int / 2);
        assert forall|x: int, y: int| g.in_bounds(x, y) implies g.cell(x, y) == spec_rendered_cell(
            *state,
            g.w as int,
            g.h as int,
            x,
            y,
        ) by {
            assert(g.cell(x, y) == (
            match spec_first_marker(
                *state,
                cxi,
                cyi,
                numi,
                deni,
                x,
                y,
                state.bodies@.len() as int,
            ) {
                Some(b2) => Some(spec_body_pixel(b2, state.use_unicode_icons)),
                None => spec_static_cell(*state, cxi, cyi, numi, deni, x, y),
            }));
        }
        assert(g.in_bounds(cxi, cyi));
        if spec_first_marker(*state, cxi, cyi, numi, deni, cxi, cyi, state.bodies@.len() as int)
            is None {
            assert(spec_static_cell(*state, cxi, cyi, numi, deni, cxi, cyi) == Some(
                spec_sun_pixel(state.use_unicode_icons),
            ));
        }
        assert(g.cell(cxi, cyi) is Some);
    }
    g
}

/// One ring pass extends the ring layer by exactly the drawn body's
/// samples: afterward a cell holds the ring pixel exactly when a ring of
/// the first `k + 1` catalog bodies passes through it.
proof fn lemma_ring_layer_step(
    state: ViewState,
    pre: Grid,
    post: Grid,
    cx: int,
    cy: int,
    num: int,
    den: int,
    k: int,
    orbit: i64,
    r_milli: int,
)
    requires
        pre.wf(),
        post.wf(),
        post.w == pre.w,
        post.h == pre.h,
        0 <= k < spec_catalog().len(),
        spec_orbit_micro_au(spec_catalog()[k]) == Some(orbit),
        orbit <= spec_focus_radius_micro_au(state.focus_index as int),
        r_milli == spec_ring_radius_milli(orbit as int, num, den),
        forall|x: int, y: int|
            pre.in_bounds(x, y) ==> pre.cell(x, y) == (
            if ring_at_before(state, cx, cy, num, den, k, x, y) {
                Some(spec_ring_pixel())
            } else {
                None::<Pixel>
            }),
        r_milli < 1000 ==> post.cells@ == pre.cells@,
        r_milli >= 1000 ==> forall|x: int, y: int|
            pre.in_bounds(x, y) ==> post.cell(x, y) == (
            if is_ring_sample(cx, cy, r_milli, x, y) {
                composite(pre.cell(x, y), spec_ring_pixel())
            } else {
                pre.cell(x, y)
            }),
    ensures
        forall|x: int, y: int|
            post.in_bounds(x, y) ==> post.cell(x, y) == (
            if ring_at_before(state, cx, cy, num, den, k + 1, x, y) {
                Some(spec_ring_pixel())
            } else {
                None::<Pixel>
            }),
{
    assert forall|x: int, y: int| post.in_bounds(x, y) implies post.cell(x, y) == (
    if ring_at_before(state, cx, cy, num, den, k + 1, x, y) {
        Some(spec_ring_pixel())
    } else {
        None::<Pixel>
    }) by {
        assert(pre.in_bounds(x, y));
        lemma_ring_at_extend(state, cx, cy, num, den, k, x, y);
        if r_milli >= 1000 && is_ring_sample(cx, cy, r_milli, x, y) {
            assert(ring_sample_of(state, cx, cy, num, den, k, x, y));
            assert(post.cell(x, y) == composite(pre.cell(x, y), spec_ring_pixel()));
        } else {
            assert(post.cell(x, y) == pre.cell(x, y));
            if ring_at_before(state, cx, cy, num, den, k + 1, x, y) != ring_at_before(
                state,
                cx,
                cy,
                num,
                den,
                k,
                x,
                y,
            ) {
                assert(ring_sample_of(state, cx, cy, num, den, k, x, y));
                assert(false);
            }
        }
    }
}

/// Extending the catalog prefix by one body adds exactly that body's ring
/// samples to the ring layer.
proof fn lemma_ring_at_extend(
    state: ViewState,
    cx: int,
    cy: int,
    num: int,
    den: int,
    k: int,
    x: int,
    y: int,
)
    requires
        0 <= k,
    ensures
        ring_at_before(state, cx, cy, num, den, k + 1, x, y) == (ring_at_before(
            state,
            cx,
            cy,
            num,
            den,
            k,
            x,
            y,
        ) || ring_sample_of(state, cx, cy, num, den, k, x, y)),
{
    if ring_at_before(state, cx, cy, num, den, k + 1, x, y) {
        let j = choose|j: int|
            0 <= j < k + 1 && #[trigger] ring_sample_of(state, cx, cy, num, den, j, x, y);
        if j < k {
            assert(ring_at_before(state, cx, cy, num, den, k, x, y));
        }
    }
    if ring_at_before(state, cx, cy, num, den, k, x, y) {
        let j = choose|j: int|
            0 <= j < k && #[trigger] ring_sample_of(state, cx, cy, num, den, j, x, y);
        assert(ring_at_before(state, cx, cy, num, den, k + 1, x, y));
    }
    if ring_sample_of(state, cx, cy, num, den, k, x, y) {
        assert(ring_at_before(state, cx, cy, num, den, k + 1, x, y));
    }
}

/// One serialized cell: the glyph and its color, or a plain blank for an
/// empty cell.
#[derive(Clone, Copy, PartialEq, Eq, Structural, Debug)]
pub struct StyledCell {
    pub ch: char,
    pub color: Option<Color>,
}

/// How one grid cell serializes.
pub open spec fn spec_styled(c: Option<Pixel>) -> StyledCell {
    match c {
        Some(p) => StyledCell { ch: p.ch, color: Some(p.color) },
        None => StyledCell { ch: ' ', color: None },
    }
}

/// Serialize the completed grid into rows of styled glyphs: one styled cell
/// per grid cell, empty cells as unstyled blanks. A pure read of the grid.
pub fn styled_rows(g: &Grid) -> (rows: Vec<Vec<StyledCell>>)
    requires
        g.wf(),
    ensures
        rows@.len() == g.h,
        forall|y: int| 0 <= y < g.h ==> (#[trigger] rows@[y])@.len() == g.w,
        forall|x: int, y: int|
            g.in_bounds(x, y) ==> (#[trigger] rows@[y]@[x]) == spec_styled(g.cell(x, y)),
{
    let mut rows: Vec<Vec<StyledCell>> = Vec::new();
    let mut y: usize = 0;
    while y < g.h
        invariant
            g.wf(),
            y <= g.h,
            rows@.len() == y,
            forall|yy: int| 0 <= yy < y ==> (#[trigger] rows@[yy])@.len() == g.w,
            forall|x: int, yy: int|
                0 <= x < g.w && 0 <= yy < y ==> (#[trigger] rows@[yy]@[x]) == spec_styled(
                    g.cell(x, yy),
                ),
        decreases g.h - y,
    {
        let mut row: Vec<StyledCell> = Vec::new();
        let mut x: usize = 0;
        while x < g.w
            invariant
                g.wf(),
                y < g.h,
                x <= g.w,
                row@.len() == x,
                forall|xx: int|
                    0 <= xx < x ==> (#[trigger] row@[xx]) == spec_styled(g.cell(xx, y as int)),
            decreases g.w - x,
        {
            let sc = match g.cell_at(x, y) {
                Some(p) => StyledCell { ch: p.ch, color: Some(p.color) },
                None => StyledCell { ch: ' ', color: None },
            };
            row.push(sc);
            x = x + 1;
        }
        rows.push(row);
        y = y + 1;
    }
    rows
}

} // verus!
