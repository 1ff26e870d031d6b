use vstd::prelude::*;
use crate::trig::TrigPair;
use crate::trig::wf_table;
use crate::trig::SCALE4;
use crate::geometry::{Config, Sample, spec_project, project, lemma_point_bounds};
use crate::frame::{Frame, run, samples_ok, sample_ok, cell_count, lemma_run_step};
use vstd::arithmetic::div_mod::lemma_fundamental_div_mod_converse;

verus! {

/// The samples of one frame, in sweep order: theta-major, phi-minor, exactly
/// the order the nested sweep visits them in — the order that settles depth
/// ties.
pub open spec fn sample_seq(
    cfg: Config,
    tt: Seq<TrigPair>,
    pt: Seq<TrigPair>,
    ra: TrigPair,
    rb: TrigPair,
) -> Seq<Option<Sample>> {
    Seq::new(
        tt.len() * pt.len(),
        |k: int|
            spec_project(cfg, tt[k / (pt.len() as int)], pt[k % (pt.len() as int)], ra, rb),
    )
}

/// The finished character grid of one frame, row-major: what rendering with
/// these tables, rotations and geometry must return.
pub open spec fn spec_render(
    cfg: Config,
    tt: Seq<TrigPair>,
    pt: Seq<TrigPair>,
    ra: TrigPair,
    rb: TrigPair,
) -> Seq<u8> {
    run(cfg, sample_seq(cfg, tt, pt, ra, rb)).1
}

/// Multiplying both sides of an inequality by a non-negative factor keeps it.
pub proof fn lemma_mul_le(a: int, b: int, c: int)
    by (nonlinear_arith)
    requires
        a <= b,
        0 <= c,
    ensures
        a * c <= b * c,
{
}

/// A flat sweep index splits into its theta and phi indices.
pub proof fn lemma_flat_index(tlen: int, plen: int, i: int, j: int)
    requires
        0 <= i < tlen,
        0 <= j < plen,
    ensures
        0 <= i * plen + j < tlen * plen,
        (i * plen + j) / plen == i,
        (i * plen + j) % plen == j,
{
    lemma_fundamental_div_mod_converse(i * plen + j, plen, i, j);
    assert(0 <= i * plen + j < tlen * plen) by (nonlinear_arith)
        requires
            0 <= i < tlen,
            0 <= j < plen,
    ;
}

/// Every sample the projector keeps is acceptable to the compositor: its
/// cell is on the grid and its inverse-depth key is positive.
pub proof fn lemma_project_ok(cfg: Config, t: TrigPair, p: TrigPair, ra: TrigPair, rb: TrigPair)
    requires
        cfg.wf(),
        t.wf(),
        p.wf(),
        ra.wf(),
        rb.wf(),
    ensures
        spec_project(cfg, t, p, ra, rb) is Some ==> sample_ok(
            cfg,
            spec_project(cfg, t, p, ra, rb)->0,
        ),
{
    lemma_point_bounds(cfg, t, p, ra, rb);
    let lum = crate::geometry::luminance(t, p, ra, rb);
    if lum > 0 {
        let z = crate::geometry::point_z(cfg, t, p, ra);
        let sxn = ((cfg.width as int) / 2) * z + cfg.spec_k1() * crate::geometry::point_x(
            cfg,
            t,
            p,
            ra,
            rb,
        );
        let syn = ((cfg.height as int) / 2) * z + cfg.spec_k1() * crate::geometry::point_y(
            cfg,
            t,
            p,
            ra,
            rb,
        );
        if sxn >= 0 && syn >= 0 {
            crate::geometry::lemma_div_bounds(sxn, z);
            crate::geometry::lemma_div_bounds(syn, z);
        }
        assert(z <= crate::geometry::depth_cap(cfg));
        assert(SCALE4 <= z);
        lemma_mul_le(cfg.k2 + 2 * cfg.r1 + cfg.r2, 112, SCALE4 as int);
        assert(1 <= crate::geometry::depth_cap(cfg) - z + 1 <= 140737488355328);
        assert((crate::geometry::depth_cap(cfg) - z + 1) as i64 >= 1);
    }
}

/// Every present entry of a frame's sample sequence is acceptable to the
/// compositor.
pub proof fn lemma_sample_seq_ok(
    cfg: Config,
    tt: Seq<TrigPair>,
    pt: Seq<TrigPair>,
    ra: TrigPair,
    rb: TrigPair,
)
    requires
        cfg.wf(),
        wf_table(tt),
        wf_table(pt),
        ra.wf(),
        rb.wf(),
    ensures
        samples_ok(cfg, sample_seq(cfg, tt, pt, ra, rb)),
{
    let ss = sample_seq(cfg, tt, pt, ra, rb);
    assert forall|k: int| 0 <= k < ss.len() && (#[trigger] ss[k]) is Some implies sample_ok(
        cfg,
        ss[k]->0,
    ) by {
        let plen = pt.len() as int;
        let tlen = tt.len() as int;
        assert(0 <= k < tlen * plen);
        assert(0 < plen) by (nonlinear_arith)
            requires
                0 <= k < tlen * plen,
                0 <= tlen,
                0 <= plen,
        ;
        lemma_div_mod_in_range(tlen, plen, k);
        lemma_project_ok(cfg, tt[k / plen], pt[k % plen], ra, rb);
    }
}

/// Division and remainder of a flat sweep index stay inside the two tables.
pub proof fn lemma_div_mod_in_range(tlen: int, plen: int, k: int)
    by (nonlinear_arith)
    requires
        0 < plen,
        0 <= k < tlen * plen,
    ensures
        0 <= k / plen < tlen,
        0 <= k % plen < plen,
{
}

/// Renders one frame: sweeps the two parameter tables in order, projects
/// each sample under the rotations (A, B), resolves overlaps by the depth
/// test, and returns the finished row-major character grid.
///
/// The grid is a pure function of the arguments: rendering twice with the
/// same tables, geometry and rotations returns byte-identical grids.
pub fn render_frame(
    cfg: &Config,
    theta_tab: &Vec<TrigPair>,
    phi_tab: &Vec<TrigPair>,
    rot_a: TrigPair,
    rot_b: TrigPair,
) -> (grid: Vec<u8>)
    requires
        cfg.wf(),
        wf_table(theta_tab@),
        wf_table(phi_tab@),
        rot_a.wf(),
        rot_b.wf(),
    ensures
        grid@.len() == cell_count(*cfg),
        grid@ == spec_render(*cfg, theta_tab@, phi_tab@, rot_a, rot_b),
{
    let ghost ss = sample_seq(*cfg, theta_tab@, phi_tab@, rot_a, rot_b);
    proof {
        lemma_sample_seq_ok(*cfg, theta_tab@, phi_tab@, rot_a, rot_b);
    }
    let tlen: usize = theta_tab.len();
    let plen: usize = phi_tab.len();
    let mut fr = Frame::new(cfg);
    proof {
        assert(ss.take(0) =~= Seq::<Option<Sample>>::empty());
    }
    let mut i: usize = 0;
    while i < tlen
        invariant
            i <= tlen,
            tlen == theta_tab@.len(),
            plen == phi_tab@.len(),
            cfg.wf(),
            wf_table(theta_tab@),
            wf_table(phi_tab@),
            rot_a.wf(),
            rot_b.wf(),
            ss == sample_seq(*cfg, theta_tab@, phi_tab@, rot_a, rot_b),
            samples_ok(*cfg, ss),
            fr.wf(*cfg),
            fr.depth@ == run(*cfg, ss.take(i * plen)).0,
            fr.glyphs@ == run(*cfg, ss.take(i * plen)).1,
        decreases tlen - i,
    {
        let t: TrigPair = theta_tab[i];
        let mut j: usize = 0;
        while j < plen
            invariant
                j <= plen,
                i < tlen,
                tlen == theta_tab@.len(),
                plen == phi_tab@.len(),
                t == theta_tab@[i as int],
                cfg.wf(),
                wf_table(theta_tab@),
                wf_table(phi_tab@),
                rot_a.wf(),
                rot_b.wf(),
                ss == sample_seq(*cfg, theta_tab@, phi_tab@, rot_a, rot_b),
                samples_ok(*cfg, ss),
                fr.wf(*cfg),
                fr.depth@ == run(*cfg, ss.take(i * plen + j)).0,
                fr.glyphs@ == run(*cfg, ss.take(i * plen + j)).1,
            decreases plen - j,
        {
            let ghost k: int = i * plen + j;
            proof {
                lemma_flat_index(tlen as int, plen as int, i as int, j as int);
            }
            let pv: TrigPair = phi_tab[j];
            let res: Option<Sample> = project(cfg, t, pv, rot_a, rot_b);
            proof {
                assert(ss[k] == res);
                lemma_run_step(*cfg, ss, k);
            }
            match res {
                Some(s) => {
                    proof {
                        assert(ss[k] is Some && ss[k]->0 == s);
                        assert(sample_ok(*cfg, s));
                    }
                    fr.deposit(cfg, s);
                },
                None => {},
            }
            j = j + 1;
            proof {
                assert(i * plen + j == k + 1);
            }
        }
        i = i + 1;
        proof {
            assert(i * plen == (i - 1) * plen + plen) by (nonlinear_arith);
        }
    }
    proof {
        assert(tlen * plen == ss.len());
        assert(ss.take(ss.len() as int) =~= ss);
    }
    fr.glyphs
}

} // verus!
