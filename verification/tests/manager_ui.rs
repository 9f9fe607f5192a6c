use tickfx::color::Color;
use tickfx::curve::Interpolation;
use tickfx::effect::Effect;
use tickfx::filter::CellFilter;
use tickfx::grid::{Cell, Grid, Region};
use tickfx::manager::EffectManager;
use tickfx::ui::{fire_effect, handle_key, KeyInput};

fn cell(ch: char) -> Cell {
    Cell { ch, fg: Color { r: 9, g: 9, b: 9 }, bg: Color { r: 7, g: 7, b: 7 } }
}

fn full_region() -> Region {
    Region { x: 0, y: 0, width: 100, height: 100 }
}

fn black() -> Color {
    Color { r: 0, g: 0, b: 0 }
}

#[test]
fn manager_advances_paints_and_evicts() {
    let b = Color { r: 33, g: 66, b: 99 };
    let mut mgr = EffectManager::new();
    mgr.add_effect(Effect::fade(black(), black(), b, b, 100, Interpolation::Linear));
    let mut g = Grid::new(2, 2, cell('e'));
    mgr.process_effects(100, &mut g, full_region());
    // The single tick completed the fade: it painted its end state and
    // was evicted.
    assert_eq!(g.cell(0, 0).fg, b);
    assert_eq!(mgr.effects.len(), 0);
}

#[test]
fn evicted_effect_is_never_repainted() {
    let b = Color { r: 33, g: 66, b: 99 };
    let sentinel = Color { r: 250, g: 1, b: 2 };
    let mut mgr = EffectManager::new();
    mgr.add_effect(Effect::fade(black(), black(), b, b, 100, Interpolation::Linear));
    let mut g = Grid::new(2, 2, cell('e'));
    mgr.process_effects(100, &mut g, full_region());
    // Disturb a painted cell; a further tick must not paint it back.
    let mut probe = g.cell(0, 0);
    probe.fg = sentinel;
    g.set_cell(0, 0, probe);
    mgr.process_effects(16, &mut g, full_region());
    assert_eq!(g.cell(0, 0).fg, sentinel);
}

#[test]
fn later_added_effect_paints_over_earlier_one() {
    let b1 = Color { r: 10, g: 10, b: 10 };
    let b2 = Color { r: 240, g: 240, b: 240 };
    let mut mgr = EffectManager::new();
    mgr.add_effect(Effect::fade(black(), black(), b1, b1, 50, Interpolation::Linear));
    mgr.add_effect(Effect::fade(black(), black(), b2, b2, 50, Interpolation::Linear));
    let mut g = Grid::new(1, 1, cell('o'));
    mgr.process_effects(50, &mut g, full_region());
    assert_eq!(g.cell(0, 0).fg, b2);
}

#[test]
fn incomplete_effects_stay_active_in_order() {
    let b = Color { r: 5, g: 5, b: 5 };
    let mut mgr = EffectManager::new();
    mgr.add_effect(Effect::fade(black(), black(), b, b, 30, Interpolation::Linear));
    mgr.add_effect(Effect::fade(black(), black(), b, b, 500, Interpolation::Linear));
    mgr.add_effect(Effect::fade(black(), black(), b, b, 400, Interpolation::Linear));
    let mut g = Grid::new(1, 1, cell('k'));
    mgr.process_effects(100, &mut g, full_region());
    assert_eq!(mgr.effects.len(), 2);
    assert!(matches!(&mgr.effects[0], Effect::Fade(f) if f.duration == 500));
    assert!(matches!(&mgr.effects[1], Effect::Fade(f) if f.duration == 400));
}

#[test]
fn zero_length_sequence_is_evicted_on_first_tick() {
    let mut mgr = EffectManager::new();
    mgr.add_effect(Effect::sequence(Vec::new()));
    let mut g = Grid::new(1, 1, cell('s'));
    let snapshot = g.cell(0, 0);
    mgr.process_effects(16, &mut g, full_region());
    assert_eq!(mgr.effects.len(), 0);
    assert_eq!(g.cell(0, 0), snapshot);
}

#[test]
fn counter_saturates_at_both_ends() {
    assert_eq!(handle_key(0, KeyInput::Left), (0, false));
    assert_eq!(handle_key(5, KeyInput::Left), (4, false));
    assert_eq!(handle_key(255, KeyInput::Right), (255, false));
    assert_eq!(handle_key(5, KeyInput::Right), (6, false));
}

#[test]
fn only_the_fire_key_triggers_the_effect() {
    assert_eq!(handle_key(9, KeyInput::Char('f')), (9, true));
    assert_eq!(handle_key(9, KeyInput::Char('g')), (9, false));
    assert_eq!(handle_key(9, KeyInput::Other), (9, false));
}

#[test]
fn fire_effect_has_the_expected_shape() {
    let e = fire_effect();
    let d = match &e {
        Effect::ProlongStart(d) => d,
        _ => panic!("expected a delayed effect"),
    };
    assert_eq!(d.remaining, 300);
    let s = match &*d.child {
        Effect::Sequence(s) => s,
        _ => panic!("expected a sequence"),
    };
    assert_eq!(s.index, 0);
    assert_eq!(s.children.len(), 2);
    match &s.children[0] {
        Effect::Fade(f) => {
            assert_eq!(f.duration, 300);
            assert_eq!(f.curve, Interpolation::CircIn);
            assert_eq!(f.filter, CellFilter::All);
            assert_eq!(f.from_fg, Color { r: 0x1D, g: 0x20, b: 0x21 });
        },
        _ => panic!("expected the boot fade"),
    }
    let p = match &s.children[1] {
        Effect::Parallel(p) => p,
        _ => panic!("expected the parallel stage"),
    };
    assert_eq!(p.children.len(), 2);
    assert!(matches!(&p.children[0],
        Effect::Fade(f) if f.duration == 300 && f.curve == Interpolation::Linear));
    assert!(matches!(&p.children[1],
        Effect::Fade(f) if f.duration == 900 && f.curve == Interpolation::QuadIn
            && f.filter == CellFilter::Text));
}

#[test]
fn fire_effect_runs_to_completion_under_ticks() {
    let mut mgr = EffectManager::new();
    mgr.add_effect(fire_effect());
    let mut g = Grid::new(8, 4, cell(' '));
    g.set_cell(3, 1, cell('T'));
    // Delay 300, boot fade 300, then the 900 glow dominates: after
    // 1500 in 16-unit ticks everything is done and evicted.
    let mut spent: u32 = 0;
    while spent < 1600 {
        mgr.process_effects(16, &mut g, full_region());
        spent += 16;
    }
    assert_eq!(mgr.effects.len(), 0);
    // The glow's end palette: white on black.
    assert_eq!(g.cell(3, 1).fg, Color { r: 255, g: 255, b: 255 });
    assert_eq!(g.cell(3, 1).bg, Color { r: 0, g: 0, b: 0 });
    assert_eq!(g.cell(3, 1).ch, 'T');
}
