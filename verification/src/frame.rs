use vstd::prelude::*;
use crate::geometry::{Config, Sample};

verus! {

/// The per-frame buffers: one inverse-depth key and one glyph per screen
/// cell, both row-major and rebuilt from scratch every frame.
pub struct Frame {
    pub depth: Vec<i64>,
    pub glyphs: Vec<u8>,
}

/// The glyph of a cell nothing has been drawn to.
pub const BLANK: u8 = 32;

/// Row-major cell index of a sample.
pub open spec fn cell_of(cfg: Config, s: Sample) -> int {
    s.row * cfg.width + s.col
}

/// Number of cells of a frame.
pub open spec fn cell_count(cfg: Config) -> int {
    (cfg.height as int) * (cfg.width as int)
}

/// A sample the compositor accepts: its cell is on the grid and its
/// inverse-depth key is positive, so a written cell can never read as empty.
pub open spec fn sample_ok(cfg: Config, s: Sample) -> bool {
    s.row < cfg.height && s.col < cfg.width && s.ooz >= 1
}

/// Every present sample of the sequence is acceptable.
pub open spec fn samples_ok(cfg: Config, ss: Seq<Option<Sample>>) -> bool {
    forall|k: int| 0 <= k < ss.len() && (#[trigger] ss[k]) is Some ==> sample_ok(cfg, ss[k]->0)
}

/// The depth buffer before any sample is drawn: every cell empty.
pub open spec fn blank_depth(cfg: Config) -> Seq<i64> {
    Seq::new(cell_count(cfg) as nat, |i: int| 0i64)
}

/// The character grid before any sample is drawn: every cell blank.
pub open spec fn blank_glyphs(cfg: Config) -> Seq<u8> {
    Seq::new(cell_count(cfg) as nat, |i: int| BLANK)
}

/// The depth test applied to one sample: a strictly greater inverse-depth key
/// (strictly nearer) overwrites; ties and farther samples leave the cell as
/// it is, so the first writer of a given depth wins.
pub open spec fn step_depth(cfg: Config, d: Seq<i64>, s: Sample) -> Seq<i64> {
    if s.ooz > d[cell_of(cfg, s)] {
        d.update(cell_of(cfg, s), s.ooz)
    } else {
        d
    }
}

/// The glyph write paired with `step_depth`: the glyph moves exactly when the
/// depth test passes.
pub open spec fn step_glyphs(cfg: Config, d: Seq<i64>, g: Seq<u8>, s: Sample) -> Seq<u8> {
    if s.ooz > d[cell_of(cfg, s)] {
        g.update(cell_of(cfg, s), s.glyph)
    } else {
        g
    }
}

/// The compositor run over a whole frame's samples, in sampling order:
/// the final depth buffer and character grid. An absent sample (one the
/// projector dropped) leaves both buffers unchanged.
pub open spec fn run(cfg: Config, ss: Seq<Option<Sample>>) -> (Seq<i64>, Seq<u8>)
    decreases ss.len(),
{
    if ss.len() == 0 {
        (blank_depth(cfg), blank_glyphs(cfg))
    } else {
        let prev = run(cfg, ss.drop_last());
        match ss.last() {
            Some(s) => (step_depth(cfg, prev.0, s), step_glyphs(cfg, prev.0, prev.1, s)),
            None => prev,
        }
    }
}

impl Frame {
    /// Both buffers cover the grid, cell for cell.
    pub open spec fn wf(self, cfg: Config) -> bool {
        &&& self.depth@.len() == cell_count(cfg)
        &&& self.glyphs@.len() == cell_count(cfg)
    }

    /// A fresh frame: everything empty and blank.
    pub fn new(cfg: &Config) -> (f: Frame)
        requires
            cfg.wf(),
        ensures
            f.wf(*cfg),
            f.depth@ == blank_depth(*cfg),
            f.glyphs@ == blank_glyphs(*cfg),
    {
        proof {
            lemma_cell_count_small(*cfg);
        }
        let n: usize = cfg.height * cfg.width;
        let mut depth: Vec<i64> = Vec::new();
        let mut glyphs: Vec<u8> = Vec::new();
        let mut i: usize = 0;
        while i < n
            invariant
                i <= n,
                depth@ =~= Seq::new(i as nat, |k: int| 0i64),
                glyphs@ =~= Seq::new(i as nat, |k: int| BLANK),
            decreases n - i,
        {
            depth.push(0i64);
            glyphs.push(BLANK);
            i = i + 1;
        }
        let f = Frame { depth, glyphs };
        proof {
            assert(f.depth@ =~= blank_depth(*cfg));
            assert(f.glyphs@ =~= blank_glyphs(*cfg));
        }
        f
    }

    /// Draws one sample through the depth test.
    pub fn deposit(&mut self, cfg: &Config, s: Sample)
        requires
            cfg.wf(),
            old(self).wf(*cfg),
            sample_ok(*cfg, s),
        ensures
            final(self).wf(*cfg),
            final(self).depth@ == step_depth(*cfg, old(self).depth@, s),
            final(self).glyphs@ == step_glyphs(*cfg, old(self).depth@, old(self).glyphs@, s),
    {
        proof {
            lemma_cell_in_range(*cfg, s);
        }
        let idx: usize = s.row * cfg.width + s.col;
        let cur: i64 = self.depth[idx];
        if s.ooz > cur {
            self.depth[idx] = s.ooz;
            self.glyphs[idx] = s.glyph;
        }
    }
}

/// An acceptable sample's cell index lies inside the buffers, and a frame
/// never has more cells than a 1024 by 1024 screen.
pub proof fn lemma_cell_in_range(cfg: Config, s: Sample)
    by (nonlinear_arith)
    requires
        cfg.wf(),
        sample_ok(cfg, s),
    ensures
        0 <= cell_of(cfg, s) < cell_count(cfg),
        cell_count(cfg) <= 1048576,
{
}

/// See `lemma_cell_in_range`.
pub proof fn lemma_cell_count_small(cfg: Config)
    by (nonlinear_arith)
    requires
        cfg.wf(),
    ensures
        0 < cell_count(cfg) <= 1048576,
{
}

/// Lifts a list of already-projected, kept samples into the compositor's
/// input shape.
pub open spec fn lift(s: Seq<Sample>) -> Seq<Option<Sample>> {
    Seq::new(s.len(), |i: int| Some(s[i]))
}

/// Every sample of the list is acceptable.
pub open spec fn list_ok(cfg: Config, s: Seq<Sample>) -> bool {
    forall|i: int| 0 <= i < s.len() ==> sample_ok(cfg, #[trigger] s[i])
}

/// Runs the depth-resolution stage alone, over an explicit sample list, in
/// list order.
pub fn composite_samples(cfg: &Config, samples: &Vec<Sample>) -> (f: Frame)
    requires
        cfg.wf(),
        list_ok(*cfg, samples@),
    ensures
        f.wf(*cfg),
        f.depth@ == run(*cfg, lift(samples@)).0,
        f.glyphs@ == run(*cfg, lift(samples@)).1,
{
    let ghost ss = lift(samples@);
    let mut fr = Frame::new(cfg);
    proof {
        assert(ss.take(0) =~= Seq::<Option<Sample>>::empty());
    }
    let mut i: usize = 0;
    while i < samples.len()
        invariant
            i <= samples@.len(),
            cfg.wf(),
            list_ok(*cfg, samples@),
            ss == lift(samples@),
            fr.wf(*cfg),
            fr.depth@ == run(*cfg, ss.take(i as int)).0,
            fr.glyphs@ == run(*cfg, ss.take(i as int)).1,
        decreases samples@.len() - i,
    {
        let s: Sample = samples[i];
        proof {
            lemma_run_step(*cfg, ss, i as int);
            assert(ss[i as int] == Some(s));
        }
        fr.deposit(cfg, s);
        i = i + 1;
    }
    proof {
        assert(ss.take(samples@.len() as int) =~= ss);
    }
    fr
}

/// One compositor step, phrased over prefixes of the sample sequence.
pub proof fn lemma_run_step(cfg: Config, ss: Seq<Option<Sample>>, k: int)
    requires
        0 <= k < ss.len(),
    ensures
        run(cfg, ss.take(k + 1)) == (match ss[k] {
            Some(s) => (
                step_depth(cfg, run(cfg, ss.take(k)).0, s),
                step_glyphs(cfg, run(cfg, ss.take(k)).0, run(cfg, ss.take(k)).1, s),
            ),
            None => run(cfg, ss.take(k)),
        }),
{
    assert(ss.take(k + 1).drop_last() =~= ss.take(k));
    assert(ss.take(k + 1).last() == ss[k]);
}

/// Running the compositor keeps the buffers exactly one cell per grid cell.
pub proof fn lemma_run_len(cfg: Config, ss: Seq<Option<Sample>>)
    requires
        cfg.wf(),
        samples_ok(cfg, ss),
    ensures
        run(cfg, ss).0.len() == cell_count(cfg),
        run(cfg, ss).1.len() == cell_count(cfg),
    decreases ss.len(),
{
    if ss.len() > 0 {
        lemma_run_len(cfg, ss.drop_last());
        if ss.last() is Some {
            lemma_cell_in_range(cfg, ss.last()->0);
        }
    }
}

} // verus!
