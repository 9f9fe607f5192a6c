//! The demo application's own logic: a bounded counter driven by key
//! presses, and the composite fire effect a key press triggers.

use crate::color::Color;
use crate::curve::Interpolation;
use crate::effect::{Effect, Fade};
use crate::filter::CellFilter;
use vstd::prelude::*;

verus! {

/// A key press, reduced to what the logic reads of it.
#[derive(Clone, Copy, Debug, PartialEq, Eq, Structural)]
pub enum KeyInput {
    /// The left arrow key.
    Left,
    /// The right arrow key.
    Right,
    /// A printable character key.
    Char(char),
    /// Any other key.
    Other,
}

/// The counter after a key press: left decrements, right increments,
/// both saturating; anything else leaves it alone.
pub open spec fn counter_after(counter: u8, key: KeyInput) -> u8 {
    match key {
        KeyInput::Left => if counter == 0 {
            0
        } else {
            (counter - 1) as u8
        },
        KeyInput::Right => if counter == 255 {
            255
        } else {
            (counter + 1) as u8
        },
        _ => counter,
    }
}

/// Whether a key press triggers the fire effect.
pub open spec fn triggers_fire(key: KeyInput) -> bool {
    key == KeyInput::Char('f')
}

/// Apply one key press to the counter; the second component reports
/// whether the fire effect should be triggered.
pub fn handle_key(counter: u8, key: KeyInput) -> (r: (u8, bool))
    ensures
        r.0 == counter_after(counter, key),
        r.1 == triggers_fire(key),
{
    match key {
        KeyInput::Left => (if counter == 0 { 0 } else { counter - 1 }, false),
        KeyInput::Right => (if counter == 255 { 255 } else { counter + 1 }, false),
        KeyInput::Char(c) => (counter, c == 'f'),
        KeyInput::Other => (counter, false),
    }
}

/// The dark backdrop color the fire effect fades up from.
pub open spec fn screen_bg() -> Color {
    Color { r: 0x1D, g: 0x20, b: 0x21 }
}

/// The foreground color of the rendered text.
pub open spec fn ui_fg() -> Color {
    Color { r: 0xFF, g: 0xFF, b: 0xFF }
}

/// The background color of the rendered text.
pub open spec fn ui_bg() -> Color {
    Color { r: 0x00, g: 0x00, b: 0x00 }
}

/// The fresh fire fade with the given duration, curve and filter:
/// from the backdrop pair up to the UI palette.
pub open spec fn fire_fade(duration: u32, curve: Interpolation, filter: CellFilter) -> Fade {
    Fade {
        elapsed: 0,
        duration,
        curve,
        filter,
        from_fg: screen_bg(),
        to_fg: ui_fg(),
        from_bg: screen_bg(),
        to_bg: ui_bg(),
    }
}

/// Build the composite fire effect: after a 300 delay, a 300 circular
/// boot fade, then in parallel a 300 linear flash over all cells and a
/// 900 quadratic glow over text cells only.
pub fn fire_effect() -> (r: Effect)
    ensures
        (r matches Effect::ProlongStart(d) && d.remaining == 300 && (*d.child
            matches Effect::Sequence(s) && s.index == 0 && s.children@.len() == 2
            && s.children@[0] == Effect::Fade(
            fire_fade(300, Interpolation::CircIn, CellFilter::All),
        ) && (s.children@[1] matches Effect::Parallel(p) && p.children@.len() == 2
            && p.children@[0] == Effect::Fade(
            fire_fade(300, Interpolation::Linear, CellFilter::All),
        ) && p.children@[1] == Effect::Fade(
            fire_fade(900, Interpolation::QuadIn, CellFilter::Text),
        )))),
{
    let sb = Color { r: 0x1D, g: 0x20, b: 0x21 };
    let fg = Color { r: 0xFF, g: 0xFF, b: 0xFF };
    let bg = Color { r: 0x00, g: 0x00, b: 0x00 };
    let boot = Effect::fade(sb, sb, fg, bg, 300, Interpolation::CircIn);
    let flash = Effect::fade(sb, sb, fg, bg, 300, Interpolation::Linear);
    let glow = Effect::fade(sb, sb, fg, bg, 900, Interpolation::QuadIn).with_filter(
        CellFilter::Text,
    );
    let mut concurrent: Vec<Effect> = Vec::new();
    concurrent.push(flash);
    concurrent.push(glow);
    let main_stage = Effect::parallel(concurrent);
    let mut stages: Vec<Effect> = Vec::new();
    stages.push(boot);
    stages.push(main_stage);
    Effect::prolong_start(300, Effect::sequence(stages))
}

} // verus!
