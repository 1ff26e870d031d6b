use torus_render::frame::{composite_samples, BLANK};
use torus_render::geometry::{glyph, project, Config, Sample};
use torus_render::render::render_frame;
use torus_render::trig::{TrigPair, SCALE};

const WIDTH: usize = 20;
const HEIGHT: usize = 10;

fn fixed(x: f64) -> i64 {
    let v = (x * (SCALE as f64)).round() as i64;
    if v > SCALE {
        SCALE
    } else if v < -SCALE {
        -SCALE
    } else {
        v
    }
}

fn pair(angle: f64) -> TrigPair {
    TrigPair::new(fixed(angle.cos()), fixed(angle.sin())).expect("a rounded unit vector is well-formed")
}

fn sweep_table(spacing: f64) -> Vec<TrigPair> {
    let mut t = Vec::new();
    let mut a = 0.0_f64;
    while a < 2.0 * std::f64::consts::PI {
        t.push(pair(a));
        a += spacing;
    }
    t
}

fn base_config() -> Config {
    Config::new(WIDTH, HEIGHT, 1, 2, 5).expect("this geometry is valid")
}

fn render(a: f64, b: f64) -> Vec<u8> {
    let cfg = base_config();
    render_frame(&cfg, &sweep_table(0.07), &sweep_table(0.02), pair(a), pair(b))
}

fn written_columns(grid: &[u8], row: usize) -> Vec<usize> {
    (0..WIDTH).filter(|&c| grid[row * WIDTH + c] != BLANK).collect()
}

#[test]
fn trig_pair_accepts_rounded_unit_vectors() {
    let t = TrigPair::new(SCALE, 0).expect("cosine 1");
    assert_eq!(t.c, SCALE);
    assert_eq!(t.s, 0);
    for i in 0..100 {
        let a = (i as f64) * 0.0628;
        let p = pair(a);
        assert!(p.c * p.c + p.s * p.s <= SCALE * SCALE + 2 * SCALE);
    }
}

#[test]
fn trig_pair_rejects_out_of_range_values() {
    assert!(TrigPair::new(SCALE + 1, 0).is_none());
    assert!(TrigPair::new(0, -SCALE - 1).is_none());
    assert!(TrigPair::new(SCALE, SCALE).is_none());
}

#[test]
fn config_accepts_the_standard_geometry() {
    assert!(Config::new(WIDTH, HEIGHT, 1, 2, 5).is_some());
    let cfg = base_config();
    assert_eq!(cfg.k1(), 12);
}

#[test]
fn config_rejects_bad_geometry() {
    // radii out of order
    assert!(Config::new(WIDTH, HEIGHT, 2, 1, 5).is_none());
    // viewer too close: depth could reach zero
    assert!(Config::new(WIDTH, HEIGHT, 1, 2, 4).is_none());
    // degenerate screen
    assert!(Config::new(0, HEIGHT, 1, 2, 5).is_none());
    // radii too large for exact arithmetic
    assert!(Config::new(WIDTH, HEIGHT, 16, 17, 64).is_none());
}

#[test]
fn glyph_ramp_exact_values() {
    assert_eq!(glyph(0), b'.');
    assert_eq!(glyph(1), b',');
    assert_eq!(glyph(5), b';');
    assert_eq!(glyph(8), b'*');
    assert_eq!(glyph(11), b'@');
    // out-of-range indices clamp to the ends of the ramp
    assert_eq!(glyph(-3), b'.');
    assert_eq!(glyph(20), b'@');
}

// Surface definition invariant on concrete values: with minor radius 1 the
// sampled pre-rotation point is (r2*SCALE + c, s), whose squared distance
// from (r2*SCALE, 0) is c^2 + s^2 — within rounding of (1 * SCALE)^2.
#[test]
fn cross_section_points_lie_on_the_minor_circle() {
    for i in 0..200 {
        let t = pair((i as f64) * 0.0314);
        let d2 = t.c * t.c + t.s * t.s;
        assert!(d2 <= SCALE * SCALE + 2 * SCALE);
        assert!(d2 >= SCALE * SCALE - 2 * SCALE);
    }
}

// Bounded-luminance invariant on concrete values: whatever the angles, every
// written glyph comes from the 12-entry ramp — the shading index never
// escapes [0, 11].
#[test]
fn every_written_glyph_comes_from_the_ramp() {
    let ramp = b".,-~:;=!*#$@";
    for (a, b) in [(0.0, 0.0), (0.7, 0.3), (2.5, 4.1), (31.4, 15.9)] {
        let grid = render(a, b);
        for &g in &grid {
            assert!(g == BLANK || ramp.contains(&g));
        }
    }
}

// One exact projection, computed by hand in integer arithmetic: theta = 0,
// phi = 3*pi/2, no rotation. The sample sits two units from the viewer at
// the screen centre, with luminance exactly 1 (glyph index 8).
#[test]
fn projector_exact_value() {
    let cfg = base_config();
    let t = TrigPair::new(SCALE, 0).unwrap();
    let p = TrigPair::new(0, -SCALE).unwrap();
    let id = TrigPair::new(SCALE, 0).unwrap();
    let s = project(&cfg, t, p, id, id).expect("front-facing sample");
    assert_eq!(s.row, 5);
    assert_eq!(s.col, 10);
    assert_eq!(s.ooz, 7_696_581_394_433);
    assert_eq!(s.glyph, b'*');
}

#[test]
fn projector_drops_back_facing_samples() {
    let cfg = base_config();
    let t = TrigPair::new(SCALE, 0).unwrap();
    let p = TrigPair::new(0, SCALE).unwrap();
    let id = TrigPair::new(SCALE, 0).unwrap();
    assert!(project(&cfg, t, p, id, id).is_none());
}

// Depth-test invariant: re-running the compositor with the samples in
// reverse order leaves the depth buffer identical; the chosen glyph may
// differ only on exact depth ties, where the first writer wins.
#[test]
fn depth_values_ignore_sample_order() {
    let cfg = base_config();
    let samples = vec![
        Sample { row: 2, col: 3, ooz: 500, glyph: b'#' },
        Sample { row: 2, col: 3, ooz: 700, glyph: b'*' },
        Sample { row: 2, col: 3, ooz: 700, glyph: b'$' },
        Sample { row: 0, col: 0, ooz: 1, glyph: b'.' },
        Sample { row: 9, col: 19, ooz: 42, glyph: b'@' },
    ];
    let mut reversed = samples.clone();
    reversed.reverse();
    let forward = composite_samples(&cfg, &samples);
    let backward = composite_samples(&cfg, &reversed);
    assert_eq!(forward.depth, backward.depth);
    // the nearest sample owns the cell; its depth is the maximum seen
    assert_eq!(forward.depth[2 * WIDTH + 3], 700);
    // on the exact tie at 700 the first writer wins, so the glyph differs
    assert_eq!(forward.glyphs[2 * WIDTH + 3], b'*');
    assert_eq!(backward.glyphs[2 * WIDTH + 3], b'$');
    // untied cells keep the same glyph either way
    assert_eq!(forward.glyphs[0], b'.');
    assert_eq!(backward.glyphs[0], b'.');
    assert_eq!(forward.glyphs[9 * WIDTH + 19], b'@');
    assert_eq!(backward.glyphs[9 * WIDTH + 19], b'@');
    // a lower sample never overwrites: the 500 glyph is nowhere
    assert!(!forward.glyphs.contains(&b'#'));
    assert!(!backward.glyphs.contains(&b'#'));
}

#[test]
fn compositor_leaves_unhit_cells_blank() {
    let cfg = base_config();
    let samples = vec![Sample { row: 4, col: 7, ooz: 9, glyph: b'@' }];
    let f = composite_samples(&cfg, &samples);
    assert_eq!(f.depth.len(), WIDTH * HEIGHT);
    assert_eq!(f.glyphs.len(), WIDTH * HEIGHT);
    for i in 0..WIDTH * HEIGHT {
        if i == 4 * WIDTH + 7 {
            assert_eq!(f.glyphs[i], b'@');
            assert_eq!(f.depth[i], 9);
        } else {
            assert_eq!(f.glyphs[i], BLANK);
            assert_eq!(f.depth[i], 0);
        }
    }
}

// Idempotence: identical angles render byte-identical grids.
#[test]
fn identical_angles_render_identical_frames() {
    assert_eq!(render(0.0, 0.0), render(0.0, 0.0));
    assert_eq!(render(0.7, 0.3), render(0.7, 0.3));
}

// Boundary: with no rotation the torus is symmetric about its vertical
// axis, so each row's written span is left-right symmetric about the screen
// centre, within one cell of discrete-sampling slack.
#[test]
fn zero_rotation_silhouette_is_left_right_symmetric() {
    let grid = render(0.0, 0.0);
    let mut any = false;
    for row in 0..HEIGHT {
        let cols = written_columns(&grid, row);
        if let (Some(&l), Some(&r)) = (cols.first(), cols.last()) {
            any = true;
            let sum = l + r;
            assert!(sum >= (WIDTH - 1) - 1 && sum <= (WIDTH - 1) + 1);
        }
    }
    assert!(any);
}

// End-to-end scenario: screen 20x10, radii (1, 2), viewer distance 5 and no
// rotation give a non-empty silhouette, roughly centred at column 10 and
// row 5, and (by construction of the grid) nothing outside 20x10.
#[test]
fn zero_rotation_frame_scenario() {
    let grid = render(0.0, 0.0);
    assert_eq!(grid.len(), WIDTH * HEIGHT);
    let written: Vec<usize> = (0..WIDTH * HEIGHT).filter(|&i| grid[i] != BLANK).collect();
    assert!(!written.is_empty());
    // centred: writes appear both left and right of the centre column, and
    // both above and below the centre row
    assert!(written.iter().any(|i| i % WIDTH < WIDTH / 2));
    assert!(written.iter().any(|i| i % WIDTH > WIDTH / 2));
    assert!(written.iter().any(|i| i / WIDTH < HEIGHT / 2));
    assert!(written.iter().any(|i| i / WIDTH > HEIGHT / 2));
    // the topmost row stays clear of glyphs at these constants
    assert!(written_columns(&grid, 0).is_empty());
}

// Regression: one driver tick (a += 0.07, b += 0.03) must change the frame.
#[test]
fn first_tick_changes_the_frame() {
    let before = render(0.0, 0.0);
    let after = render(0.07, 0.03);
    assert_eq!(before.len(), after.len());
    assert_ne!(before, after);
}
