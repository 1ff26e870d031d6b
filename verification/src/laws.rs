use vstd::prelude::*;
use crate::trig::{TrigPair, SCALE, norm_cap};
use crate::geometry::{Config, Sample, circle_x, circle_y, luminance, revolve_x, revolve_y, revolve_z, tilt_y, tilt_z, spin_y};
use crate::frame::{
    run, samples_ok, cell_of, cell_count, lemma_run_len, lemma_cell_in_range, BLANK,
};
use crate::render::spec_render;

verus! {

/// Whether this entry of the sample sequence lands on the given cell.
pub open spec fn hits_cell(o: Option<Sample>, cfg: Config, cell: int) -> bool {
    match o {
        Some(s) => cell_of(cfg, s) == cell,
        None => false,
    }
}

/// Depth-test invariant: after the compositor has run, every cell of the
/// depth buffer holds the greatest inverse-depth key among the samples that
/// hit that cell — so no sample ever displaced a strictly nearer one — and a
/// written cell shows the glyph of a sample achieving that greatest key,
/// while an untouched cell is blank.
pub proof fn lemma_depth_resolution(cfg: Config, ss: Seq<Option<Sample>>, cell: int)
    requires
        cfg.wf(),
        samples_ok(cfg, ss),
        0 <= cell < cell_count(cfg),
    ensures
        0 <= run(cfg, ss).0[cell],
        forall|k: int|
            0 <= k < ss.len() && hits_cell(#[trigger] ss[k], cfg, cell) ==> ss[k]->0.ooz <= run(
                cfg,
                ss,
            ).0[cell],
        run(cfg, ss).0[cell] != 0 ==> exists|k: int|
            0 <= k < ss.len() && hits_cell(#[trigger] ss[k], cfg, cell) && ss[k]->0.ooz == run(
                cfg,
                ss,
            ).0[cell] && ss[k]->0.glyph == run(cfg, ss).1[cell],
        run(cfg, ss).0[cell] == 0 ==> run(cfg, ss).1[cell] == BLANK,
    decreases ss.len(),
{
    lemma_run_len(cfg, ss);
    if ss.len() == 0 {
    } else {
        let prefix = ss.drop_last();
        assert(samples_ok(cfg, prefix)) by {
            assert forall|k: int|
                0 <= k < prefix.len() && (#[trigger] prefix[k]) is Some implies crate::frame::sample_ok(
                cfg,
                prefix[k]->0,
            ) by {
                assert(prefix[k] == ss[k]);
            }
        }
        lemma_depth_resolution(cfg, prefix, cell);
        lemma_run_len(cfg, prefix);
        let last = ss.last();
        let n = ss.len() - 1;
        match last {
            None => {
                assert(run(cfg, ss) == run(cfg, prefix));
                assert forall|k: int|
                    0 <= k < ss.len() && hits_cell(#[trigger] ss[k], cfg, cell) implies ss[k]->0.ooz
                    <= run(cfg, ss).0[cell] by {
                    if k < n {
                        assert(prefix[k] == ss[k]);
                    }
                }
                if run(cfg, ss).0[cell] != 0 {
                    let k = choose|k: int|
                        0 <= k < prefix.len() && hits_cell(#[trigger] prefix[k], cfg, cell)
                            && prefix[k]->0.ooz == run(cfg, prefix).0[cell] && prefix[k]->0.glyph
                            == run(cfg, prefix).1[cell];
                    assert(ss[k] == prefix[k]);
                    assert(hits_cell(ss[k], cfg, cell) && ss[k]->0.ooz == run(cfg, ss).0[cell]
                        && ss[k]->0.glyph == run(cfg, ss).1[cell]);
                }
            },
            Some(s) => {
                lemma_cell_in_range(cfg, s);
                let c2 = cell_of(cfg, s);
                let dprev = run(cfg, prefix).0;
                let gprev = run(cfg, prefix).1;
                assert forall|k: int|
                    0 <= k < ss.len() && hits_cell(#[trigger] ss[k], cfg, cell) implies ss[k]->0.ooz
                    <= run(cfg, ss).0[cell] by {
                    if k < n {
                        assert(prefix[k] == ss[k]);
                        assert(ss[k]->0.ooz <= dprev[cell]);
                    }
                }
                if run(cfg, ss).0[cell] != 0 {
                    if cell == c2 && s.ooz > dprev[c2] {
                        assert(hits_cell(ss[n], cfg, cell));
                        assert(ss[n]->0.ooz == run(cfg, ss).0[cell]);
                        assert(ss[n]->0.glyph == run(cfg, ss).1[cell]);
                    } else {
                        assert(run(cfg, ss).0[cell] == dprev[cell]);
                        assert(run(cfg, ss).1[cell] == gprev[cell]);
                        let k = choose|k: int|
                            0 <= k < prefix.len() && hits_cell(#[trigger] prefix[k], cfg, cell)
                                && prefix[k]->0.ooz == dprev[cell] && prefix[k]->0.glyph
                                == gprev[cell];
                        assert(ss[k] == prefix[k]);
                        assert(hits_cell(ss[k], cfg, cell) && ss[k]->0.ooz == run(cfg, ss).0[cell]
                            && ss[k]->0.glyph == run(cfg, ss).1[cell]);
                    }
                }
            },
        }
    }
}

/// The final depth values do not depend on the order samples were visited in:
/// running the compositor over the reversed sample sequence leaves the depth
/// buffer identical, cell for cell. (The chosen glyph may differ on exact
/// depth ties, where the visiting order breaks the tie.)
pub proof fn lemma_depth_order_independent(cfg: Config, ss: Seq<Option<Sample>>)
    requires
        cfg.wf(),
        samples_ok(cfg, ss),
    ensures
        run(cfg, ss.reverse()).0 == run(cfg, ss).0,
{
    let rev = ss.reverse();
    assert(samples_ok(cfg, rev)) by {
        assert forall|k: int|
            0 <= k < rev.len() && (#[trigger] rev[k]) is Some implies crate::frame::sample_ok(
            cfg,
            rev[k]->0,
        ) by {
            assert(rev[k] == ss[ss.len() - 1 - k]);
        }
    }
    lemma_run_len(cfg, ss);
    lemma_run_len(cfg, rev);
    assert forall|cell: int| 0 <= cell < cell_count(cfg) implies run(cfg, rev).0[cell] == run(
        cfg,
        ss,
    ).0[cell] by {
        lemma_depth_resolution(cfg, ss, cell);
        lemma_depth_resolution(cfg, rev, cell);
        let d1 = run(cfg, ss).0[cell];
        let d2 = run(cfg, rev).0[cell];
        if d1 != 0 {
            let k = choose|k: int|
                0 <= k < ss.len() && hits_cell(#[trigger] ss[k], cfg, cell) && ss[k]->0.ooz == d1
                    && ss[k]->0.glyph == run(cfg, ss).1[cell];
            assert(rev[ss.len() - 1 - k] == ss[k]);
            assert(hits_cell(rev[ss.len() - 1 - k], cfg, cell));
            assert(d1 <= d2);
        }
        if d2 != 0 {
            let k = choose|k: int|
                0 <= k < rev.len() && hits_cell(#[trigger] rev[k], cfg, cell) && rev[k]->0.ooz == d2
                    && rev[k]->0.glyph == run(cfg, rev).1[cell];
            assert(ss[ss.len() - 1 - k] == rev[k]);
            assert(hits_cell(ss[ss.len() - 1 - k], cfg, cell));
            assert(d2 <= d1);
        }
    }
    assert(run(cfg, rev).0 =~= run(cfg, ss).0);
}

/// Surface definition invariant: for every theta, the sampled pre-rotation
/// cross-section point lies on the circle of radius `r1` around
/// `(r2, 0)` — its squared distance from that centre is exactly
/// `r1^2 * (c^2 + s^2)`, hence exactly `(r1 * SCALE)^2` whenever the trig
/// pair sits exactly on the unit circle.
pub proof fn lemma_cross_section_on_circle(cfg: Config, t: TrigPair)
    ensures
        (circle_x(cfg, t) - cfg.r2 * SCALE) * (circle_x(cfg, t) - cfg.r2 * SCALE) + circle_y(
            cfg,
            t,
        ) * circle_y(cfg, t) == cfg.r1 * cfg.r1 * (t.c * t.c + t.s * t.s),
        t.is_unit() ==> (circle_x(cfg, t) - cfg.r2 * SCALE) * (circle_x(cfg, t) - cfg.r2 * SCALE)
            + circle_y(cfg, t) * circle_y(cfg, t) == (cfg.r1 * SCALE) * (cfg.r1 * SCALE),
{
    assert((cfg.r1 * t.c) * (cfg.r1 * t.c) + (cfg.r1 * t.s) * (cfg.r1 * t.s) == cfg.r1 * cfg.r1 * (
    t.c * t.c + t.s * t.s)) by (nonlinear_arith);
    assert(cfg.r1 * cfg.r1 * (SCALE * SCALE) == (cfg.r1 * SCALE) * (cfg.r1 * SCALE))
        by (nonlinear_arith);
}

/// Expansion of a squared difference.
proof fn lemma_sq_expand_sub(a: int, b: int)
    by (nonlinear_arith)
    ensures
        (a - b) * (a - b) == a * a - 2 * (a * b) + b * b,
{
}

/// Expansion of a squared sum.
proof fn lemma_sq_expand_add(a: int, b: int)
    by (nonlinear_arith)
    ensures
        (a + b) * (a + b) == a * a + 2 * (a * b) + b * b,
{
}

/// The square of a product is the product of the squares.
proof fn lemma_mul_sq(a: int, b: int)
    by (nonlinear_arith)
    ensures
        (a * b) * (a * b) == (a * a) * (b * b),
{
}

/// Swapping factors across a product of products.
proof fn lemma_mul4_swap(a: int, b: int, c: int, d: int)
    by (nonlinear_arith)
    ensures
        (a * b) * (c * d) == (c * b) * (a * d),
{
}

/// Multiplication commutes.
proof fn lemma_mul_comm(a: int, b: int)
    by (nonlinear_arith)
    ensures
        a * b == b * a,
{
}

/// Multiplication distributes from the left.
proof fn lemma_mul_distrib_left(a: int, b: int, c: int)
    by (nonlinear_arith)
    ensures
        a * (b + c) == a * b + a * c,
{
}

/// A plane rotation by a fixed-point cosine/sine pair scales the squared norm
/// of the plane it acts on by the pair's squared norm.
pub proof fn lemma_rot_norm(u: int, v: int, r: TrigPair)
    ensures
        (u * r.c - v * r.s) * (u * r.c - v * r.s) + (v * r.c + u * r.s) * (v * r.c + u * r.s) == (
        r.c * r.c + r.s * r.s) * (u * u + v * v),
{
    let c = r.c as int;
    let s = r.s as int;
    lemma_sq_expand_sub(u * c, v * s);
    lemma_sq_expand_add(v * c, u * s);
    lemma_mul_sq(u, c);
    lemma_mul_sq(v, s);
    lemma_mul_sq(v, c);
    lemma_mul_sq(u, s);
    lemma_mul4_swap(u, c, v, s);
    lemma_mul_distrib(c * c, s * s, (u * u + v * v) as int);
    lemma_mul_distrib_left(c * c, u * u, v * v);
    lemma_mul_distrib_left(s * s, u * u, v * v);
    lemma_mul_comm(u * u, c * c);
    lemma_mul_comm(v * v, c * c);
    lemma_mul_comm(u * u, s * s);
    lemma_mul_comm(v * v, s * s);
}

/// The square of any value is non-negative.
pub proof fn lemma_sq_nonneg(a: int)
    by (nonlinear_arith)
    ensures
        0 <= a * a,
{
}

/// Multiplying an inequality by a non-negative factor on the right keeps it.
pub proof fn lemma_mul_le_right(a: int, b: int, c: int)
    by (nonlinear_arith)
    requires
        a <= b,
        0 <= c,
    ensures
        a * c <= b * c,
{
}

/// Multiplying an inequality by a non-negative factor on the left keeps it.
pub proof fn lemma_mul_le_left(c: int, a: int, b: int)
    by (nonlinear_arith)
    requires
        a <= b,
        0 <= c,
    ensures
        c * a <= c * b,
{
}

/// Multiplication distributes over a sum of two terms.
pub proof fn lemma_mul_distrib(a: int, b: int, c: int)
    by (nonlinear_arith)
    ensures
        (a + b) * c == a * c + b * c,
{
}

/// The squared difference is at most twice the sum of the squares.
pub proof fn lemma_diff_sq(x: int, y: int)
    by (nonlinear_arith)
    ensures
        (x - y) * (x - y) <= 2 * (x * x) + 2 * (y * y),
{
}

/// Core of the luminance bound, for any common bound `u` on the squared
/// norms of the four trig pairs: the revolution and the two rotations each
/// scale the normal's squared norm by at most `u`, and dotting with the light
/// direction (0, 1, -1) at most doubles the square.
proof fn lemma_lum_sq(t: TrigPair, p: TrigPair, ra: TrigPair, rb: TrigPair, u: int)
    requires
        SCALE * SCALE <= u,
        t.c * t.c + t.s * t.s <= u,
        p.c * p.c + p.s * p.s <= u,
        ra.c * ra.c + ra.s * ra.s <= u,
        rb.c * rb.c + rb.s * rb.s <= u,
    ensures
        luminance(t, p, ra, rb) * luminance(t, p, ra, rb) <= 2 * (u * u * u * u),
{
    let tc = t.c as int;
    let ts = t.s as int;
    let nx2 = revolve_x(tc, p);
    let ny2 = revolve_y(ts);
    let nz2 = revolve_z(tc, p);
    let a2 = nx2 * nx2 + ny2 * ny2 + nz2 * nz2;
    assert(0 <= u);
    lemma_sq_nonneg(tc);
    lemma_sq_nonneg(ts);
    lemma_sq_nonneg(nx2);
    lemma_sq_nonneg(ny2);
    lemma_sq_nonneg(nz2);
    // squared norm after the revolution: at most u^2
    assert(nx2 * nx2 + nz2 * nz2 == (tc * tc) * (p.c * p.c + p.s * p.s)) by (nonlinear_arith)
        requires
            nx2 == tc * p.c,
            nz2 == tc * p.s,
    ;
    assert(ny2 * ny2 == (ts * ts) * (SCALE * SCALE)) by (nonlinear_arith)
        requires
            ny2 == ts * SCALE,
    ;
    lemma_mul_le_left(tc * tc, p.c * p.c + p.s * p.s, u);
    lemma_mul_le_left(ts * ts, SCALE * SCALE, u);
    lemma_mul_distrib(tc * tc, ts * ts, u);
    lemma_mul_le_right(tc * tc + ts * ts, u, u);
    assert(a2 <= u * u);
    // squared norm after the first rotation: at most u^3
    let ny3 = tilt_y(tc, ts, p, ra);
    let nz3 = tilt_z(tc, ts, p, ra);
    let nx3 = nx2 * SCALE;
    let a3 = nx3 * nx3 + ny3 * ny3 + nz3 * nz3;
    lemma_rot_norm(ny2, nz2, ra);
    assert(ny3 * ny3 + nz3 * nz3 == (ra.c * ra.c + ra.s * ra.s) * (ny2 * ny2 + nz2 * nz2));
    assert(nx3 * nx3 == (nx2 * nx2) * (SCALE * SCALE)) by (nonlinear_arith)
        requires
            nx3 == nx2 * SCALE,
    ;
    lemma_mul_le_right(ra.c * ra.c + ra.s * ra.s, u, ny2 * ny2 + nz2 * nz2);
    lemma_mul_le_left(nx2 * nx2, SCALE * SCALE, u);
    lemma_mul_distrib(nx2 * nx2, ny2 * ny2 + nz2 * nz2, u);
    assert(u * (ny2 * ny2 + nz2 * nz2) == (ny2 * ny2 + nz2 * nz2) * u) by (nonlinear_arith);
    lemma_mul_le_right(a2, u * u, u);
    assert(a3 <= (u * u) * u);
    // squared norm after the second rotation: at most u^4
    let ny4 = spin_y(tc, ts, p, ra, rb);
    let nx4 = nx3 * rb.c - ny3 * rb.s;
    let nz4 = nz3 * SCALE;
    lemma_sq_nonneg(nx3);
    lemma_sq_nonneg(ny3);
    lemma_sq_nonneg(nz3);
    lemma_sq_nonneg(nx4);
    lemma_rot_norm(nx3, ny3, rb);
    assert(nx4 * nx4 + ny4 * ny4 == (rb.c * rb.c + rb.s * rb.s) * (nx3 * nx3 + ny3 * ny3));
    lemma_mul_le_right(rb.c * rb.c + rb.s * rb.s, u, nx3 * nx3 + ny3 * ny3);
    assert(nz4 * nz4 == (nz3 * nz3) * (SCALE * SCALE)) by (nonlinear_arith)
        requires
            nz4 == nz3 * SCALE,
    ;
    lemma_mul_le_left(nz3 * nz3, SCALE * SCALE, u);
    lemma_mul_distrib(nx3 * nx3 + ny3 * ny3, nz3 * nz3, u);
    assert(u * (nx3 * nx3 + ny3 * ny3) == (nx3 * nx3 + ny3 * ny3) * u) by (nonlinear_arith);
    lemma_mul_le_right(a3, (u * u) * u, u);
    assert(ny4 * ny4 + nz4 * nz4 <= ((u * u) * u) * u);
    // dotting the rotated normal with (0, 1, -1)
    let lum = luminance(t, p, ra, rb);
    assert(lum == ny4 - nz4);
    lemma_diff_sq(ny4, nz4);
    assert(u * u * u * u == ((u * u) * u) * u);
    assert(lum * lum <= 2 * (u * u * u * u));
}

/// Bounded-range invariant for luminance: for any theta, phi and rotation
/// angles the squared luminance never exceeds twice the fourth power of the
/// pairs' squared-norm bound. At scale `SCALE^4` and with `norm_cap()` the
/// bound of well-formed (rounded) pairs, this is the fixed-point reading of
/// "luminance lies in [-sqrt(2) - eps, sqrt(2) + eps]"; for pairs exactly on
/// the unit circle the epsilon vanishes and the bound is exactly
/// `2 * SCALE^8`, that is, |luminance| <= sqrt(2) at unit scale.
pub proof fn lemma_luminance_bounded(t: TrigPair, p: TrigPair, ra: TrigPair, rb: TrigPair)
    requires
        t.wf(),
        p.wf(),
        ra.wf(),
        rb.wf(),
    ensures
        luminance(t, p, ra, rb) * luminance(t, p, ra, rb) <= 2 * (norm_cap() * norm_cap()
            * norm_cap() * norm_cap()),
        t.is_unit() && p.is_unit() && ra.is_unit() && rb.is_unit() ==> luminance(t, p, ra, rb)
            * luminance(t, p, ra, rb) <= 2 * ((SCALE * SCALE) * (SCALE * SCALE) * (SCALE * SCALE)
            * (SCALE * SCALE)),
{
    lemma_lum_sq(t, p, ra, rb, norm_cap());
    if t.is_unit() && p.is_unit() && ra.is_unit() && rb.is_unit() {
        lemma_lum_sq(t, p, ra, rb, SCALE * SCALE);
    }
}

/// Idempotence of the pipeline: the finished grid is a pure function of the
/// geometry, the two sweep tables and the two rotation angles, so two renders
/// with identical inputs produce byte-identical character grids. Together
/// with `render_frame`'s postcondition this pins down both calls.
pub proof fn lemma_render_idempotent(
    cfg: Config,
    tt: Seq<TrigPair>,
    pt: Seq<TrigPair>,
    ra: TrigPair,
    rb: TrigPair,
    first: Seq<u8>,
    second: Seq<u8>,
)
    requires
        first == spec_render(cfg, tt, pt, ra, rb),
        second == spec_render(cfg, tt, pt, ra, rb),
    ensures
        first == second,
{
}

} // verus!
