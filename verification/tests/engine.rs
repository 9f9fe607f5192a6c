use tickfx::color::{lerp_channel, lerp_color, Color};
use tickfx::curve::{ease, isqrt, Interpolation};
use tickfx::effect::{progress, Effect};
use tickfx::filter::CellFilter;
use tickfx::grid::{Cell, Grid, Region};

fn cell(ch: char) -> Cell {
    Cell { ch, fg: Color { r: 9, g: 9, b: 9 }, bg: Color { r: 7, g: 7, b: 7 } }
}

fn full_region() -> Region {
    Region { x: 0, y: 0, width: 100, height: 100 }
}

fn black() -> Color {
    Color { r: 0, g: 0, b: 0 }
}

#[test]
fn lerp_channel_endpoints_and_midpoints() {
    assert_eq!(lerp_channel(0, 200, 0), 0);
    assert_eq!(lerp_channel(0, 200, 1000), 200);
    assert_eq!(lerp_channel(0, 200, 250), 50);
    assert_eq!(lerp_channel(200, 0, 500), 100);
    assert_eq!(lerp_channel(17, 17, 431), 17);
}

#[test]
fn lerp_color_componentwise() {
    let a = Color { r: 0, g: 100, b: 200 };
    let b = Color { r: 200, g: 100, b: 0 };
    let m = lerp_color(a, b, 500);
    assert_eq!(m, Color { r: 100, g: 100, b: 100 });
}

#[test]
fn isqrt_exact_values() {
    assert_eq!(isqrt(0), 0);
    assert_eq!(isqrt(1), 1);
    assert_eq!(isqrt(999999), 999);
    assert_eq!(isqrt(1000000), 1000);
    assert_eq!(isqrt(750000), 866);
}

#[test]
fn ease_linear_is_identity() {
    assert_eq!(ease(Interpolation::Linear, 0), 0);
    assert_eq!(ease(Interpolation::Linear, 431), 431);
    assert_eq!(ease(Interpolation::Linear, 1000), 1000);
}

#[test]
fn ease_quad_in_squares_progress() {
    assert_eq!(ease(Interpolation::QuadIn, 0), 0);
    assert_eq!(ease(Interpolation::QuadIn, 500), 250);
    assert_eq!(ease(Interpolation::QuadIn, 1000), 1000);
}

#[test]
fn ease_quad_out_values() {
    assert_eq!(ease(Interpolation::QuadOut, 0), 0);
    assert_eq!(ease(Interpolation::QuadOut, 250), 438);
    assert_eq!(ease(Interpolation::QuadOut, 500), 750);
    assert_eq!(ease(Interpolation::QuadOut, 1000), 1000);
}

#[test]
fn ease_circ_in_values() {
    assert_eq!(ease(Interpolation::CircIn, 0), 0);
    assert_eq!(ease(Interpolation::CircIn, 500), 134);
    assert_eq!(ease(Interpolation::CircIn, 1000), 1000);
}

#[test]
fn progress_clamps_and_divides() {
    assert_eq!(progress(0, 900), 0);
    assert_eq!(progress(450, 900), 500);
    assert_eq!(progress(900, 900), 1000);
    assert_eq!(progress(901, 900), 1000);
    assert_eq!(progress(5, 0), 1000);
}

#[test]
fn quad_in_scenario_halfway() {
    // A fade from A to B over 900 with QuadIn, after 450 elapsed, paints
    // lerp(A, B, QuadIn(1/2)) = lerp(A, B, 1/4), not lerp(A, B, 1/2).
    let a = black();
    let b = Color { r: 200, g: 100, b: 40 };
    let mut e = Effect::fade(a, a, b, b, 900, Interpolation::QuadIn);
    e.advance(450);
    let mut g = Grid::new(3, 2, cell('x'));
    e.paint(&mut g, full_region());
    let eased = Color { r: 50, g: 25, b: 10 };
    let naive = Color { r: 100, g: 50, b: 20 };
    assert_eq!(g.cell(0, 0).fg, eased);
    assert_eq!(g.cell(2, 1).bg, eased);
    assert_ne!(g.cell(0, 0).fg, naive);
}

#[test]
fn paint_is_idempotent_without_advance() {
    let a = Color { r: 10, g: 20, b: 30 };
    let b = Color { r: 200, g: 150, b: 100 };
    let mut e = Effect::fade(a, a, b, b, 700, Interpolation::CircIn);
    e.advance(123);
    let mut g1 = Grid::new(4, 3, cell('y'));
    e.paint(&mut g1, full_region());
    let snapshot: Vec<Cell> = g1.cells.clone();
    e.paint(&mut g1, full_region());
    assert_eq!(g1.cells, snapshot);
}

#[test]
fn fade_completion_boundary() {
    let b = Color { r: 11, g: 22, b: 33 };
    let mut e = Effect::fade(black(), black(), b, b, 300, Interpolation::Linear);
    assert!(!e.is_complete());
    e.advance(299);
    assert!(!e.is_complete());
    e.advance(1);
    assert!(e.is_complete());
    // At exactly elapsed == duration the painted color is the end color.
    let mut g = Grid::new(2, 2, cell('z'));
    e.paint(&mut g, full_region());
    assert_eq!(g.cell(1, 1).fg, b);
    assert_eq!(g.cell(1, 1).bg, b);
}

#[test]
fn zero_duration_fade_paints_end_state() {
    let b = Color { r: 5, g: 6, b: 7 };
    let mut e = Effect::fade(black(), black(), b, b, 0, Interpolation::QuadIn);
    assert!(e.is_complete());
    e.advance(16);
    let mut g = Grid::new(2, 1, cell('q'));
    e.paint(&mut g, full_region());
    assert_eq!(g.cell(0, 0).fg, b);
    assert_eq!(g.cell(1, 0).bg, b);
}

#[test]
fn linear_fade_moves_monotonically_toward_end() {
    let b = Color { r: 200, g: 0, b: 200 };
    let from = Color { r: 0, g: 200, b: 0 };
    let mut e = Effect::fade(from, from, b, b, 400, Interpolation::Linear);
    let mut g = Grid::new(1, 1, cell('m'));
    e.advance(100);
    e.paint(&mut g, full_region());
    let first = g.cell(0, 0).fg;
    e.advance(100);
    e.paint(&mut g, full_region());
    let second = g.cell(0, 0).fg;
    assert_eq!(first, Color { r: 50, g: 150, b: 50 });
    assert_eq!(second, Color { r: 100, g: 100, b: 100 });
    assert!(first.r <= second.r && second.r <= 200);
    assert!(first.g >= second.g && second.g >= 0);
}

#[test]
fn text_filter_touches_only_nonblank_cells() {
    let b = Color { r: 90, g: 90, b: 90 };
    let mut e = Effect::fade(black(), black(), b, b, 100, Interpolation::Linear)
        .with_filter(CellFilter::Text);
    e.advance(100);
    let mut g = Grid::new(2, 1, cell(' '));
    g.set_cell(1, 0, cell('A'));
    let before_blank = g.cell(0, 0);
    e.paint(&mut g, full_region());
    assert_eq!(g.cell(0, 0), before_blank);
    assert_eq!(g.cell(1, 0).fg, b);
    assert_eq!(g.cell(1, 0).ch, 'A');
}

#[test]
fn region_filter_and_clipping() {
    let b = Color { r: 40, g: 40, b: 40 };
    let mut e = Effect::fade(black(), black(), b, b, 50, Interpolation::Linear)
        .with_filter(CellFilter::Within(Region { x: 1, y: 0, width: 1, height: 1 }));
    e.advance(50);
    let mut g = Grid::new(2, 2, cell('r'));
    let before = g.cell(0, 0);
    // The target region reaches far outside the 2x2 grid: the overflow
    // is clipped silently.
    e.paint(&mut g, Region { x: 0, y: 0, width: 500, height: 500 });
    assert_eq!(g.cell(0, 0), before);
    assert_eq!(g.cell(1, 0).fg, b);
    assert_eq!(g.cell(0, 1), before);
}

#[test]
fn out_of_grid_region_is_a_no_op() {
    let b = Color { r: 77, g: 0, b: 0 };
    let mut e = Effect::fade(black(), black(), b, b, 10, Interpolation::Linear);
    e.advance(10);
    let mut g = Grid::new(3, 3, cell('n'));
    let snapshot: Vec<Cell> = g.cells.clone();
    e.paint(&mut g, Region { x: 50, y: 50, width: 10, height: 10 });
    assert_eq!(g.cells, snapshot);
}

#[test]
fn sequence_orders_children_and_drops_leftover() {
    let b = Color { r: 1, g: 2, b: 3 };
    let first = Effect::fade(black(), black(), b, b, 100, Interpolation::Linear);
    let second = Effect::fade(black(), black(), b, b, 200, Interpolation::Linear);
    let mut e = Effect::sequence(vec![first, second]);
    e.advance(100);
    match &e {
        Effect::Sequence(s) => {
            // The finished first child stays current until the next
            // tick, so it still gets its final paint.
            assert_eq!(s.index, 0);
            assert!(matches!(&s.children[0], Effect::Fade(f) if f.elapsed == 100));
        },
        _ => panic!("expected a sequence"),
    }
    e.advance(30);
    match &e {
        Effect::Sequence(s) => {
            assert_eq!(s.index, 1);
            // The second child accumulated exactly 30, not 130.
            assert!(matches!(&s.children[1], Effect::Fade(f) if f.elapsed == 30));
        },
        _ => panic!("expected a sequence"),
    }
    assert!(!e.is_complete());
    e.advance(170);
    assert!(!e.is_complete());
    e.advance(16);
    assert!(e.is_complete());
}

#[test]
fn sequence_single_tick_does_not_carry_over() {
    let b = Color { r: 1, g: 2, b: 3 };
    let first = Effect::fade(black(), black(), b, b, 100, Interpolation::Linear);
    let second = Effect::fade(black(), black(), b, b, 200, Interpolation::Linear);
    let mut e = Effect::sequence(vec![first, second]);
    e.advance(130);
    match &e {
        Effect::Sequence(s) => {
            // The surplus 30 of the tick that finished the first child
            // is not forwarded to the second.
            assert_eq!(s.index, 0);
            assert!(matches!(&s.children[0], Effect::Fade(f) if f.elapsed == 130));
            assert!(matches!(&s.children[1], Effect::Fade(f) if f.elapsed == 0));
        },
        _ => panic!("expected a sequence"),
    }
    e.advance(40);
    match &e {
        Effect::Sequence(s) => {
            assert_eq!(s.index, 1);
            assert!(matches!(&s.children[1], Effect::Fade(f) if f.elapsed == 40));
        },
        _ => panic!("expected a sequence"),
    }
}

#[test]
fn empty_sequence_is_complete_at_once() {
    let e = Effect::sequence(Vec::new());
    assert!(e.is_complete());
}

#[test]
fn parallel_completes_only_when_all_children_do() {
    let b = Color { r: 60, g: 60, b: 60 };
    let quick = Effect::fade(black(), black(), b, b, 100, Interpolation::Linear);
    let slow = Effect::fade(black(), black(), b, b, 300, Interpolation::Linear);
    let mut e = Effect::parallel(vec![quick, slow]);
    e.advance(150);
    assert!(!e.is_complete());
    e.advance(150);
    assert!(e.is_complete());
}

#[test]
fn parallel_keeps_repainting_finished_children() {
    let b = Color { r: 123, g: 45, b: 67 };
    let quick = Effect::fade(black(), black(), b, b, 100, Interpolation::Linear);
    // The slow partner never touches anything: the grid holds no text.
    let slow = Effect::fade(black(), black(), b, b, 300, Interpolation::Linear)
        .with_filter(CellFilter::Text);
    let mut e = Effect::parallel(vec![quick, slow]);
    e.advance(150);
    let mut g = Grid::new(2, 1, cell(' '));
    e.paint(&mut g, full_region());
    assert_eq!(g.cell(0, 0).fg, b);
    // Disturb a cell: the finished child is still asked to paint, so
    // its terminal state is restored.
    let mut disturbed = g.cell(0, 0);
    disturbed.fg = Color { r: 1, g: 1, b: 1 };
    g.set_cell(0, 0, disturbed);
    e.paint(&mut g, full_region());
    assert_eq!(g.cell(0, 0).fg, b);
}

#[test]
fn prolong_start_is_silent_during_delay() {
    let b = Color { r: 9, g: 8, b: 7 };
    let child = Effect::fade(black(), black(), b, b, 100, Interpolation::Linear);
    let mut e = Effect::prolong_start(300, child);
    e.advance(100);
    assert!(!e.is_complete());
    let mut g = Grid::new(2, 2, cell('d'));
    let snapshot: Vec<Cell> = g.cells.clone();
    e.paint(&mut g, full_region());
    assert_eq!(g.cells, snapshot);
    match &e {
        Effect::ProlongStart(d) => {
            assert_eq!(d.remaining, 200);
            assert!(matches!(&*d.child, Effect::Fade(f) if f.elapsed == 0));
        },
        _ => panic!("expected a delayed effect"),
    }
}

#[test]
fn prolong_start_carries_leftover_through_boundary() {
    let b = Color { r: 9, g: 8, b: 7 };
    let child = Effect::fade(black(), black(), b, b, 100, Interpolation::Linear);
    let mut e = Effect::prolong_start(300, child);
    e.advance(350);
    match &e {
        Effect::ProlongStart(d) => {
            assert_eq!(d.remaining, 0);
            // The 50 beyond the delay lands in the fade in the same tick.
            assert!(matches!(&*d.child, Effect::Fade(f) if f.elapsed == 50));
        },
        _ => panic!("expected a delayed effect"),
    }
    assert!(!e.is_complete());
    e.advance(50);
    assert!(e.is_complete());
}

#[test]
fn fade_clock_saturates_instead_of_wrapping() {
    let b = Color { r: 1, g: 1, b: 1 };
    let mut e = Effect::fade(black(), black(), b, b, 10, Interpolation::Linear);
    e.advance(u32::MAX);
    e.advance(u32::MAX);
    assert!(e.is_complete());
    match &e {
        Effect::Fade(f) => assert_eq!(f.elapsed, u32::MAX),
        _ => panic!("expected a fade"),
    }
}

#[test]
fn sequence_paints_finished_child_end_state_before_moving_on() {
    let b = Color { r: 210, g: 120, b: 30 };
    let first = Effect::fade(black(), black(), b, b, 100, Interpolation::Linear);
    let second = Effect::fade(black(), black(), b, b, 200, Interpolation::Linear)
        .with_filter(CellFilter::Text);
    let mut e = Effect::sequence(vec![first, second]);
    let mut g = Grid::new(2, 1, cell(' '));
    e.advance(100);
    e.paint(&mut g, full_region());
    // The tick that finishes the first child still paints it, at its
    // exact end colors.
    assert_eq!(g.cell(0, 0).fg, b);
    assert_eq!(g.cell(0, 0).bg, b);
}
