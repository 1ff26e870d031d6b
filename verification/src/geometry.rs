use vstd::prelude::*;
use crate::trig::{TrigPair, SCALE, SCALE2, SCALE3, SCALE4};

verus! {

/// Screen and torus geometry, fixed for the lifetime of an animation.
///
/// `r1` is the minor radius (the revolved circle), `r2` the major radius
/// (distance of that circle's centre from the axis of revolution), and `k2`
/// the distance of the torus centre from the viewer along the depth axis.
#[derive(Clone, Copy, PartialEq, Eq, Structural)]
pub struct Config {
    pub width: usize,
    pub height: usize,
    pub r1: i64,
    pub r2: i64,
    pub k2: i64,
}

impl Config {
    /// Geometry precondition: the screen is non-degenerate and small enough
    /// for exact arithmetic, the radii are positive, and the viewer distance
    /// exceeds the torus's largest reach along the depth axis, so camera-space
    /// depth is strictly positive for every sample.
    pub open spec fn wf(self) -> bool {
        &&& 0 < self.width <= 1024
        &&& 0 < self.height <= 1024
        &&& 1 <= self.r1 <= self.r2
        &&& self.r1 + self.r2 <= 32
        &&& 2 * self.r1 + self.r2 < self.k2 <= 64
    }

    /// Validates the geometry once, up front; rendering never re-checks it.
    pub fn new(width: usize, height: usize, r1: i64, r2: i64, k2: i64) -> (r: Option<Config>)
        ensures
            match r {
                Some(cfg) => cfg == (Config { width, height, r1, r2, k2 }) && cfg.wf(),
                None => !(Config { width, height, r1, r2, k2 }).wf(),
            },
    {
        if 0 < width && width <= 1024 && 0 < height && height <= 1024 && 1 <= r1 && r1 <= r2
            && r2 <= 31 && r1 + r2 <= 32 && 0 < k2 && k2 <= 64 && 2 * r1 + r2 < k2 {
            Some(Config { width, height, r1, r2, k2 })
        } else {
            None
        }
    }

    /// Perspective scale: chosen from the screen width and the geometry so
    /// the projected torus fills a fixed fraction of the display width.
    pub open spec fn spec_k1(self) -> int {
        ((self.width as int) * (self.k2 as int) * 3) / (8 * (self.r1 + self.r2))
    }

    /// Computes the perspective scale constant.
    pub fn k1(&self) -> (r: i64)
        requires
            self.wf(),
        ensures
            r == self.spec_k1(),
            0 <= r <= 12288,
    {
        proof {
            lemma_abs_mul(self.width as int, self.k2 as int, 1024, 64);
        }
        let num: u64 = (self.width as u64) * (self.k2 as u64) * 3;
        let den: u64 = 8 * ((self.r1 + self.r2) as u64);
        proof {
            assert(num / den <= 12288 && num as int / den as int == num / den) by (nonlinear_arith)
                requires
                    16 <= den <= 256,
                    0 <= num <= 196608,
            ;
        }
        (num / den) as i64
    }
}

/// One surviving surface sample: a screen cell, an inverse-depth key and the
/// glyph its luminance selects.
#[derive(Clone, Copy, PartialEq, Eq, Structural)]
pub struct Sample {
    pub row: usize,
    pub col: usize,
    /// Inverse-depth key: strictly decreasing in camera-space depth, so a
    /// strictly greater key means strictly nearer to the viewer. It is
    /// positive for every projected sample; 0 is reserved for "empty cell".
    pub ooz: i64,
    pub glyph: u8,
}

/// Cross-section coordinates of the torus surface point for parameter theta,
/// at scale `SCALE`: the revolved circle of radius `r1` centred at `(r2, 0)`.
pub open spec fn circle_x(cfg: Config, t: TrigPair) -> int {
    cfg.r2 * SCALE + cfg.r1 * t.c
}

/// See `circle_x`.
pub open spec fn circle_y(cfg: Config, t: TrigPair) -> int {
    cfg.r1 * t.s
}

/// Revolution about the vertical axis by phi, applied to cross-section
/// coordinates `(cx, cy)` given at scale `SCALE`; results at scale `SCALE^2`.
pub open spec fn revolve_x(cx: int, p: TrigPair) -> int {
    cx * p.c
}

/// See `revolve_x`.
pub open spec fn revolve_y(cy: int) -> int {
    cy * SCALE
}

/// See `revolve_x`.
pub open spec fn revolve_z(cx: int, p: TrigPair) -> int {
    cx * p.s
}

/// First animation rotation, by angle A, acting on the (y, z) plane;
/// results at scale `SCALE^3`.
pub open spec fn tilt_y(cx: int, cy: int, p: TrigPair, ra: TrigPair) -> int {
    revolve_y(cy) * ra.c - revolve_z(cx, p) * ra.s
}

/// See `tilt_y`.
pub open spec fn tilt_z(cx: int, cy: int, p: TrigPair, ra: TrigPair) -> int {
    revolve_z(cx, p) * ra.c + revolve_y(cy) * ra.s
}

/// Second animation rotation, by angle B, acting on the (x, y) plane;
/// results at scale `SCALE^4`.
pub open spec fn spin_x(cx: int, cy: int, p: TrigPair, ra: TrigPair, rb: TrigPair) -> int {
    revolve_x(cx, p) * SCALE * rb.c - tilt_y(cx, cy, p, ra) * rb.s
}

/// See `spin_x`.
pub open spec fn spin_y(cx: int, cy: int, p: TrigPair, ra: TrigPair, rb: TrigPair) -> int {
    tilt_y(cx, cy, p, ra) * rb.c + revolve_x(cx, p) * SCALE * rb.s
}

/// Camera-space x of the rotated surface point, at scale `SCALE^4`.
pub open spec fn point_x(cfg: Config, t: TrigPair, p: TrigPair, ra: TrigPair, rb: TrigPair) -> int {
    spin_x(circle_x(cfg, t), circle_y(cfg, t), p, ra, rb)
}

/// Luminance of the sample, at scale `SCALE^4`: the rotated surface normal
/// dotted with the fixed light direction (0, 1, -1). The normal undergoes the
/// same revolution and rotations as the point, starting from the unit
/// cross-section direction `(t.c, t.s)`.
pub open spec fn luminance(t: TrigPair, p: TrigPair, ra: TrigPair, rb: TrigPair) -> int {
    spin_y(t.c as int, t.s as int, p, ra, rb) - tilt_z(t.c as int, t.s as int, p, ra) * SCALE
}

/// Camera-space y of the rotated surface point, at scale `SCALE^4`.
pub open spec fn point_y(cfg: Config, t: TrigPair, p: TrigPair, ra: TrigPair, rb: TrigPair) -> int {
    spin_y(circle_x(cfg, t), circle_y(cfg, t), p, ra, rb)
}

/// Camera-space depth of the rotated surface point, at scale `SCALE^4`:
/// the rotated point pushed away from the viewer by `k2`.
pub open spec fn point_z(cfg: Config, t: TrigPair, p: TrigPair, ra: TrigPair) -> int {
    cfg.k2 * SCALE4 + tilt_z(circle_x(cfg, t), circle_y(cfg, t), p, ra) * SCALE
}

/// Largest camera-space depth any sample of a well-formed geometry can have,
/// at scale `SCALE^4`. The inverse-depth key of a sample at depth `z` is
/// `depth_cap - z + 1`, which orders samples exactly as `1/z` does.
pub open spec fn depth_cap(cfg: Config) -> int {
    (cfg.k2 + 2 * cfg.r1 + cfg.r2) * SCALE4
}

/// The fixed 12-glyph luminance ramp, dimmest to brightest.
pub open spec fn spec_glyph(i: int) -> u8 {
    if i <= 0 { 46 }
    else if i == 1 { 44 }
    else if i == 2 { 45 }
    else if i == 3 { 126 }
    else if i == 4 { 58 }
    else if i == 5 { 59 }
    else if i == 6 { 61 }
    else if i == 7 { 33 }
    else if i == 8 { 42 }
    else if i == 9 { 35 }
    else if i == 10 { 36 }
    else { 64 }
}

/// Looks a luminance index up in the ramp.
pub fn glyph(i: i64) -> (r: u8)
    ensures
        r == spec_glyph(i as int),
{
    if i <= 0 { 46 }
    else if i == 1 { 44 }
    else if i == 2 { 45 }
    else if i == 3 { 126 }
    else if i == 4 { 58 }
    else if i == 5 { 59 }
    else if i == 6 { 61 }
    else if i == 7 { 33 }
    else if i == 8 { 42 }
    else if i == 9 { 35 }
    else if i == 10 { 36 }
    else { 64 }
}

/// The glyph a positive luminance selects: the ramp indexed by
/// `luminance * 8` at unit scale, clamped to the last ramp entry.
pub open spec fn spec_shade(lum: int) -> u8 {
    let i = (lum * 8) / (SCALE4 as int);
    if i > 11 { spec_glyph(11) } else { spec_glyph(i) }
}

/// What projecting one (theta, phi) sample under rotations (A, B) leaves for
/// the compositor: `None` when the surface faces away from the viewer
/// (luminance not positive) or when the projected cell falls outside the
/// grid; otherwise the cell, the inverse-depth key and the glyph.
pub open spec fn spec_project(
    cfg: Config,
    t: TrigPair,
    p: TrigPair,
    ra: TrigPair,
    rb: TrigPair,
) -> Option<Sample> {
    let lum = luminance(t, p, ra, rb);
    if lum <= 0 {
        None
    } else {
        let z = point_z(cfg, t, p, ra);
        let sxn = ((cfg.width as int) / 2) * z + cfg.spec_k1() * point_x(cfg, t, p, ra, rb);
        let syn = ((cfg.height as int) / 2) * z + cfg.spec_k1() * point_y(cfg, t, p, ra, rb);
        if sxn < 0 || syn < 0 {
            None
        } else {
            let col = sxn / z;
            let row = syn / z;
            if col >= cfg.width || row >= cfg.height {
                None
            } else {
                Some(Sample {
                    row: row as usize,
                    col: col as usize,
                    ooz: (depth_cap(cfg) - z + 1) as i64,
                    glyph: spec_shade(lum),
                })
            }
        }
    }
}

/// Product bound: factors bounded in magnitude give a bounded product.
pub proof fn lemma_abs_mul(a: int, b: int, ba: int, bb: int)
    by (nonlinear_arith)
    requires
        -ba <= a <= ba,
        -bb <= b <= bb,
    ensures
        -(ba * bb) <= a * b <= ba * bb,
{
}

/// Magnitude bounds of the rotated point and depth for a well-formed
/// geometry; in particular the camera-space depth is strictly positive and
/// never beyond `depth_cap`, so the inverse-depth key is always positive.
pub proof fn lemma_point_bounds(cfg: Config, t: TrigPair, p: TrigPair, ra: TrigPair, rb: TrigPair)
    requires
        cfg.wf(),
        t.wf(),
        p.wf(),
        ra.wf(),
        rb.wf(),
    ensures
        0 <= circle_x(cfg, t) <= (cfg.r1 + cfg.r2) * SCALE,
        -(cfg.r1 * SCALE) <= circle_y(cfg, t) <= cfg.r1 * SCALE,
        -140737488355328 <= point_x(cfg, t, p, ra, rb) <= 140737488355328,
        -140737488355328 <= point_y(cfg, t, p, ra, rb) <= 140737488355328,
        SCALE4 <= point_z(cfg, t, p, ra) <= depth_cap(cfg),
        -8796093022208 <= luminance(t, p, ra, rb) <= 8796093022208,
{
    let cx = circle_x(cfg, t);
    let cy = circle_y(cfg, t);
    lemma_abs_mul(cfg.r1 as int, t.c as int, cfg.r1 as int, SCALE as int);
    lemma_abs_mul(cfg.r1 as int, t.s as int, cfg.r1 as int, SCALE as int);
    assert(0 <= cx <= (cfg.r1 + cfg.r2) * SCALE);
    // the point pipeline, at most 32 * SCALE of cross-section magnitude
    lemma_abs_mul(cx, p.c as int, 32 * SCALE, SCALE as int);
    lemma_abs_mul(cx, p.s as int, 32 * SCALE, SCALE as int);
    lemma_abs_mul(revolve_y(cy), ra.c as int, 32 * SCALE2, SCALE as int);
    lemma_abs_mul(revolve_y(cy), ra.s as int, 32 * SCALE2, SCALE as int);
    lemma_abs_mul(revolve_z(cx, p), ra.c as int, 32 * SCALE2, SCALE as int);
    lemma_abs_mul(revolve_z(cx, p), ra.s as int, 32 * SCALE2, SCALE as int);
    lemma_abs_mul(tilt_y(cx, cy, p, ra), rb.c as int, 64 * SCALE3, SCALE as int);
    lemma_abs_mul(tilt_y(cx, cy, p, ra), rb.s as int, 64 * SCALE3, SCALE as int);
    lemma_abs_mul(revolve_x(cx, p) * SCALE, rb.c as int, 32 * SCALE3, SCALE as int);
    lemma_abs_mul(revolve_x(cx, p) * SCALE, rb.s as int, 32 * SCALE3, SCALE as int);
    assert(-(128 * SCALE4) <= point_x(cfg, t, p, ra, rb) <= 128 * SCALE4);
    assert(-(128 * SCALE4) <= point_y(cfg, t, p, ra, rb) <= 128 * SCALE4);
    // depth: the tilt stage swings by at most (2*r1 + r2) < k2 around k2
    lemma_abs_mul(cx, p.s as int, (cfg.r1 + cfg.r2) * SCALE, SCALE as int);
    lemma_abs_mul(revolve_y(cy), ra.c as int, cfg.r1 * SCALE2, SCALE as int);
    lemma_abs_mul(revolve_y(cy), ra.s as int, cfg.r1 * SCALE2, SCALE as int);
    lemma_abs_mul(revolve_z(cx, p), ra.c as int, (cfg.r1 + cfg.r2) * SCALE2, SCALE as int);
    lemma_abs_mul(revolve_z(cx, p), ra.s as int, (cfg.r1 + cfg.r2) * SCALE2, SCALE as int);
    assert(-((2 * cfg.r1 + cfg.r2) * SCALE3) <= tilt_z(cx, cy, p, ra)
        <= (2 * cfg.r1 + cfg.r2) * SCALE3);
    // the normal pipeline, at most SCALE of cross-section magnitude
    lemma_abs_mul(t.c as int, p.c as int, SCALE as int, SCALE as int);
    lemma_abs_mul(t.c as int, p.s as int, SCALE as int, SCALE as int);
    lemma_abs_mul(revolve_y(t.s as int), ra.c as int, SCALE2 as int, SCALE as int);
    lemma_abs_mul(revolve_y(t.s as int), ra.s as int, SCALE2 as int, SCALE as int);
    lemma_abs_mul(revolve_z(t.c as int, p), ra.c as int, SCALE2 as int, SCALE as int);
    lemma_abs_mul(revolve_z(t.c as int, p), ra.s as int, SCALE2 as int, SCALE as int);
    lemma_abs_mul(tilt_y(t.c as int, t.s as int, p, ra), rb.c as int, 2 * SCALE3, SCALE as int);
    lemma_abs_mul(tilt_y(t.c as int, t.s as int, p, ra), rb.s as int, 2 * SCALE3, SCALE as int);
    lemma_abs_mul(revolve_x(t.c as int, p) * SCALE, rb.c as int, SCALE3 as int, SCALE as int);
    lemma_abs_mul(revolve_x(t.c as int, p) * SCALE, rb.s as int, SCALE3 as int, SCALE as int);
    assert(-(8 * SCALE4) <= luminance(t, p, ra, rb) <= 8 * SCALE4);
}

/// Projects one (theta, phi) sample under the rotations (A, B): the
/// executable mirror of `spec_project`, exact in integer arithmetic.
pub fn project(cfg: &Config, t: TrigPair, p: TrigPair, ra: TrigPair, rb: TrigPair) -> (r: Option<
    Sample,
>)
    requires
        cfg.wf(),
        t.wf(),
        p.wf(),
        ra.wf(),
        rb.wf(),
    ensures
        r == spec_project(*cfg, t, p, ra, rb),
{
    proof {
        lemma_point_bounds(*cfg, t, p, ra, rb);
    }
    // luminance: the normal pipeline on the unit cross-section direction
    proof {
        lemma_abs_mul(t.c as int, p.c as int, SCALE as int, SCALE as int);
        lemma_abs_mul(t.c as int, p.s as int, SCALE as int, SCALE as int);
    }
    let n_rx: i64 = t.c * p.c;
    let n_ry: i64 = t.s * SCALE;
    let n_rz: i64 = t.c * p.s;
    proof {
        lemma_abs_mul(n_ry as int, ra.c as int, SCALE2 as int, SCALE as int);
        lemma_abs_mul(n_ry as int, ra.s as int, SCALE2 as int, SCALE as int);
        lemma_abs_mul(n_rz as int, ra.c as int, SCALE2 as int, SCALE as int);
        lemma_abs_mul(n_rz as int, ra.s as int, SCALE2 as int, SCALE as int);
    }
    let n_ty: i64 = n_ry * ra.c - n_rz * ra.s;
    let n_tz: i64 = n_rz * ra.c + n_ry * ra.s;
    proof {
        lemma_abs_mul(n_ty as int, rb.c as int, 2 * SCALE3, SCALE as int);
        lemma_abs_mul(n_rx * SCALE, rb.s as int, SCALE3 as int, SCALE as int);
    }
    let lum: i64 = n_ty * rb.c + (n_rx * SCALE) * rb.s - n_tz * SCALE;
    assert(lum == luminance(t, p, ra, rb));
    if lum <= 0 {
        return None;
    }
    // the point pipeline on the cross-section circle
    proof {
        lemma_abs_mul(cfg.r1 as int, t.c as int, cfg.r1 as int, SCALE as int);
        lemma_abs_mul(cfg.r1 as int, t.s as int, cfg.r1 as int, SCALE as int);
    }
    let cx: i64 = cfg.r2 * SCALE + cfg.r1 * t.c;
    let cy: i64 = cfg.r1 * t.s;
    proof {
        lemma_abs_mul(cx as int, p.c as int, 32 * SCALE, SCALE as int);
        lemma_abs_mul(cx as int, p.s as int, 32 * SCALE, SCALE as int);
    }
    let rx: i64 = cx * p.c;
    let ry: i64 = cy * SCALE;
    let rz: i64 = cx * p.s;
    proof {
        lemma_abs_mul(ry as int, ra.c as int, 32 * SCALE2, SCALE as int);
        lemma_abs_mul(ry as int, ra.s as int, 32 * SCALE2, SCALE as int);
        lemma_abs_mul(rz as int, ra.c as int, 32 * SCALE2, SCALE as int);
        lemma_abs_mul(rz as int, ra.s as int, 32 * SCALE2, SCALE as int);
    }
    let ty: i64 = ry * ra.c - rz * ra.s;
    let tz: i64 = rz * ra.c + ry * ra.s;
    proof {
        lemma_abs_mul(ty as int, rb.c as int, 64 * SCALE3, SCALE as int);
        lemma_abs_mul(ty as int, rb.s as int, 64 * SCALE3, SCALE as int);
        lemma_abs_mul(rx * SCALE, rb.c as int, 32 * SCALE3, SCALE as int);
        lemma_abs_mul(rx * SCALE, rb.s as int, 32 * SCALE3, SCALE as int);
    }
    let x4: i64 = (rx * SCALE) * rb.c - ty * rb.s;
    let y4: i64 = ty * rb.c + (rx * SCALE) * rb.s;
    let z4: i64 = cfg.k2 * SCALE4 + tz * SCALE;
    assert(x4 == point_x(*cfg, t, p, ra, rb));
    assert(y4 == point_y(*cfg, t, p, ra, rb));
    assert(z4 == point_z(*cfg, t, p, ra));
    let half_w: i64 = (cfg.width / 2) as i64;
    let half_h: i64 = (cfg.height / 2) as i64;
    let k1v: i64 = cfg.k1();
    proof {
        lemma_abs_mul(k1v as int, x4 as int, 12288, 128 * SCALE4);
        lemma_abs_mul(k1v as int, y4 as int, 12288, 128 * SCALE4);
        lemma_abs_mul(half_w as int, z4 as int, 512, 128 * SCALE4);
        lemma_abs_mul(half_h as int, z4 as int, 512, 128 * SCALE4);
    }
    let sxn: i64 = half_w * z4 + k1v * x4;
    let syn: i64 = half_h * z4 + k1v * y4;
    if sxn < 0 || syn < 0 {
        return None;
    }
    let col: i64 = ((sxn as u64) / (z4 as u64)) as i64;
    let row: i64 = ((syn as u64) / (z4 as u64)) as i64;
    proof {
        lemma_div_bounds(sxn as int, z4 as int);
        lemma_div_bounds(syn as int, z4 as int);
    }
    if col >= cfg.width as i64 || row >= cfg.height as i64 {
        return None;
    }
    let ooz: i64 = (cfg.k2 + 2 * cfg.r1 + cfg.r2) * SCALE4 - z4 + 1;
    let li_raw: i64 = ((lum * 8) as u64 / (SCALE4 as u64)) as i64;
    let li: i64 = if li_raw > 11 {
        11
    } else {
        li_raw
    };
    let g: u8 = glyph(li);
    assert(g == spec_shade(lum as int));
    Some(Sample { row: row as usize, col: col as usize, ooz, glyph: g })
}

/// A quotient of non-negative values is non-negative and no larger than the
/// dividend.
pub proof fn lemma_div_bounds(a: int, b: int)
    by (nonlinear_arith)
    requires
        0 <= a,
        1 <= b,
    ensures
        0 <= a / b <= a,
{
}

} // verus!
