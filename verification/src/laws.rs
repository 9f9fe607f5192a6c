//! Engine-wide laws, stated and proved over the paint and advance
//! specifications.

use crate::color::{lemma_lerp_channel_bounds, lemma_lerp_channel_monotone, SCALE};
use crate::curve::{lemma_ease_bounds, Interpolation};
use crate::effect::{
    children_paint, effect_advanced, effect_complete, effect_paint, fade_advanced, fade_cell,
    fade_paint, fade_touches, progress_spec, sat_add, lemma_children_all_complete, Effect, Fade,
    Parallel,
};
use crate::grid::{Cell, Region};
use vstd::arithmetic::div_mod::{lemma_div_is_ordered, lemma_multiply_divide_lt};
use vstd::arithmetic::mul::lemma_mul_inequality;
use vstd::prelude::*;

verus! {

/// Raising elapsed time never lowers the progress fraction, and the
/// fraction stays in `[0, SCALE]`.
pub proof fn lemma_progress_monotone(e1: u32, e2: u32, d: u32)
    requires
        e1 <= e2,
    ensures
        progress_spec(e1, d) <= progress_spec(e2, d) <= SCALE,
{
    let s = SCALE as int;
    if e2 < d {
        assert(0 <= e2 * s && e2 * s < (d as int) * s) by (nonlinear_arith)
            requires 0 <= e2 < d, s > 0;
        lemma_multiply_divide_lt(e2 * s, d as int, s);
        lemma_div_is_ordered(0, e2 * s, d as int);
        lemma_mul_inequality(e1 as int, e2 as int, s);
        lemma_div_is_ordered(e1 * s, e2 * s, d as int);
    } else if e1 < d {
        assert(0 <= e1 * s && e1 * s < (d as int) * s) by (nonlinear_arith)
            requires 0 <= e1 < d, s > 0;
        lemma_multiply_divide_lt(e1 * s, d as int, s);
        lemma_div_is_ordered(0, e1 * s, d as int);
    }
}

/// Painting never changes a cell's character, nor the number of cells.
pub proof fn lemma_paint_preserves_ch(e: Effect, cells: Seq<Cell>, w: u16, r: Region)
    ensures
        effect_paint(e, cells, w, r).len() == cells.len(),
        forall|i: int|
            0 <= i < cells.len() ==> #[trigger] effect_paint(e, cells, w, r)[i].ch == cells[i].ch,
    decreases e, 0int,
{
    match e {
        Effect::Fade(f) => {},
        Effect::Sequence(s) => {
            if s.index < s.children@.len() {
                lemma_paint_preserves_ch(s.children@[s.index as int], cells, w, r);
            }
        },
        Effect::Parallel(p) => {
            lemma_children_paint_preserves_ch(p.children@, cells, w, r);
        },
        Effect::ProlongStart(d) => {
            if d.remaining == 0 {
                lemma_paint_preserves_ch(*d.child, cells, w, r);
            }
        },
    }
}

/// As `lemma_paint_preserves_ch`, for a sequence of effects painting
/// in order.
pub proof fn lemma_children_paint_preserves_ch(s: Seq<Effect>, cells: Seq<Cell>, w: u16, r: Region)
    ensures
        children_paint(s, cells, w, r).len() == cells.len(),
        forall|i: int|
            0 <= i < cells.len() ==> #[trigger] children_paint(s, cells, w, r)[i].ch
                == cells[i].ch,
    decreases s, 1int,
{
    if s.len() > 0 {
        lemma_children_paint_preserves_ch(s.drop_last(), cells, w, r);
        lemma_paint_preserves_ch(s.last(), children_paint(s.drop_last(), cells, w, r), w, r);
    }
}

/// At position `i`, either the two painted results agree, or each kept
/// its own original cell.
pub open spec fn agree_or_kept(
    r1: Seq<Cell>,
    r2: Seq<Cell>,
    c1: Seq<Cell>,
    c2: Seq<Cell>,
    i: int,
) -> bool {
    r1[i] == r2[i] || (r1[i] == c1[i] && r2[i] == c2[i])
}

/// Painting reads nothing of a cell but its character: on two cell
/// sequences with the same characters, each position is either painted
/// to the same value in both, or left untouched in both.
pub proof fn lemma_paint_reads_only_ch(
    e: Effect,
    c1: Seq<Cell>,
    c2: Seq<Cell>,
    w: u16,
    r: Region,
    i: int,
)
    requires
        c1.len() == c2.len(),
        forall|j: int| 0 <= j < c1.len() ==> c1[j].ch == #[trigger] c2[j].ch,
        0 <= i < c1.len(),
    ensures
        agree_or_kept(effect_paint(e, c1, w, r), effect_paint(e, c2, w, r), c1, c2, i),
    decreases e, 0int,
{
    let r1 = effect_paint(e, c1, w, r);
    let r2 = effect_paint(e, c2, w, r);
    match e {
        Effect::Fade(f) => {
            assert(fade_touches(f, c1, w, r, i) == fade_touches(f, c2, w, r, i));
            if fade_touches(f, c1, w, r, i) {
                assert(fade_cell(f, c1[i]) == fade_cell(f, c2[i]));
                assert(r1[i] == r2[i]);
            } else {
                assert(r1[i] == c1[i] && r2[i] == c2[i]);
            }
        },
        Effect::Sequence(s) => {
            if s.index < s.children@.len() {
                lemma_paint_reads_only_ch(s.children@[s.index as int], c1, c2, w, r, i);
            }
        },
        Effect::Parallel(p) => {
            lemma_children_paint_reads_only_ch(p.children@, c1, c2, w, r, i);
        },
        Effect::ProlongStart(d) => {
            if d.remaining == 0 {
                lemma_paint_reads_only_ch(*d.child, c1, c2, w, r, i);
            }
        },
    }
}

/// As `lemma_paint_reads_only_ch`, for a sequence of effects painting
/// in order.
pub proof fn lemma_children_paint_reads_only_ch(
    s: Seq<Effect>,
    c1: Seq<Cell>,
    c2: Seq<Cell>,
    w: u16,
    r: Region,
    i: int,
)
    requires
        c1.len() == c2.len(),
        forall|j: int| 0 <= j < c1.len() ==> c1[j].ch == #[trigger] c2[j].ch,
        0 <= i < c1.len(),
    ensures
        agree_or_kept(children_paint(s, c1, w, r), children_paint(s, c2, w, r), c1, c2, i),
    decreases s, 1int,
{
    if s.len() > 0 {
        let m1 = children_paint(s.drop_last(), c1, w, r);
        let m2 = children_paint(s.drop_last(), c2, w, r);
        lemma_children_paint_reads_only_ch(s.drop_last(), c1, c2, w, r, i);
        lemma_children_paint_preserves_ch(s.drop_last(), c1, w, r);
        lemma_children_paint_preserves_ch(s.drop_last(), c2, w, r);
        lemma_paint_reads_only_ch(s.last(), m1, m2, w, r, i);
        assert(agree_or_kept(children_paint(s, c1, w, r), children_paint(s, c2, w, r), m1, m2, i));
        assert(agree_or_kept(m1, m2, c1, c2, i));
    }
}

/// Idempotent paint: repainting an effect at the same elapsed time
/// changes nothing beyond the first paint.
pub proof fn lemma_paint_idempotent(e: Effect, cells: Seq<Cell>, w: u16, r: Region)
    ensures
        effect_paint(e, effect_paint(e, cells, w, r), w, r) == effect_paint(e, cells, w, r),
{
    let g1 = effect_paint(e, cells, w, r);
    let g2 = effect_paint(e, g1, w, r);
    lemma_paint_preserves_ch(e, cells, w, r);
    lemma_paint_preserves_ch(e, g1, w, r);
    assert forall|i: int| 0 <= i < g1.len() implies g2[i] == g1[i] by {
        lemma_paint_reads_only_ch(e, cells, g1, w, r, i);
        assert(agree_or_kept(g1, g2, cells, g1, i));
    }
    assert(g2 =~= g1);
}

/// A fade that has reached its duration paints every selected cell with
/// exactly its end colors.
pub proof fn lemma_complete_fade_paints_end(f: Fade, cells: Seq<Cell>, w: u16, r: Region)
    requires
        f.elapsed >= f.duration,
    ensures
        forall|i: int|
            0 <= i < cells.len() && fade_touches(f, cells, w, r, i)
                ==> #[trigger] fade_paint(f, cells, w, r)[i] == (Cell {
                ch: cells[i].ch,
                fg: f.to_fg,
                bg: f.to_bg,
            }),
{
    lemma_ease_bounds(f.curve, SCALE as nat);
    let e = (SCALE as nat);
    lemma_lerp_channel_bounds(f.from_fg.r, f.to_fg.r, e);
    lemma_lerp_channel_bounds(f.from_fg.g, f.to_fg.g, e);
    lemma_lerp_channel_bounds(f.from_fg.b, f.to_fg.b, e);
    lemma_lerp_channel_bounds(f.from_bg.r, f.to_bg.r, e);
    lemma_lerp_channel_bounds(f.from_bg.g, f.to_bg.g, e);
    lemma_lerp_channel_bounds(f.from_bg.b, f.to_bg.b, e);
}

/// Whether `v1` and then `v2` lie in order on the way from `a` to `b`.
pub open spec fn toward(a: u8, b: u8, v1: int, v2: int) -> bool {
    if a <= b {
        v1 <= v2
    } else {
        v1 >= v2
    }
}

/// Progress monotonicity under the Linear curve: advancing a linear
/// fade moves every painted color channel monotonically toward its end
/// color, never away from it.
pub proof fn lemma_linear_fade_monotone(f: Fade, e1: u32, e2: u32, c: Cell)
    requires
        f.curve == Interpolation::Linear,
        e1 <= e2 <= f.duration,
    ensures
        ({
            let c1 = fade_cell(Fade { elapsed: e1, ..f }, c);
            let c2 = fade_cell(Fade { elapsed: e2, ..f }, c);
            &&& toward(f.from_fg.r, f.to_fg.r, c1.fg.r as int, c2.fg.r as int)
            &&& toward(f.from_fg.g, f.to_fg.g, c1.fg.g as int, c2.fg.g as int)
            &&& toward(f.from_fg.b, f.to_fg.b, c1.fg.b as int, c2.fg.b as int)
            &&& toward(f.from_bg.r, f.to_bg.r, c1.bg.r as int, c2.bg.r as int)
            &&& toward(f.from_bg.g, f.to_bg.g, c1.bg.g as int, c2.bg.g as int)
            &&& toward(f.from_bg.b, f.to_bg.b, c1.bg.b as int, c2.bg.b as int)
        }),
{
    lemma_progress_monotone(e1, e2, f.duration);
    let t1 = progress_spec(e1, f.duration);
    let t2 = progress_spec(e2, f.duration);
    lemma_lerp_channel_monotone(f.from_fg.r, f.to_fg.r, t1, t2);
    lemma_lerp_channel_monotone(f.from_fg.g, f.to_fg.g, t1, t2);
    lemma_lerp_channel_monotone(f.from_fg.b, f.to_fg.b, t1, t2);
    lemma_lerp_channel_monotone(f.from_bg.r, f.to_bg.r, t1, t2);
    lemma_lerp_channel_monotone(f.from_bg.g, f.to_bg.g, t1, t2);
    lemma_lerp_channel_monotone(f.from_bg.b, f.to_bg.b, t1, t2);
    lemma_lerp_channel_bounds(f.from_fg.r, f.to_fg.r, t1);
    lemma_lerp_channel_bounds(f.from_fg.g, f.to_fg.g, t1);
    lemma_lerp_channel_bounds(f.from_fg.b, f.to_fg.b, t1);
    lemma_lerp_channel_bounds(f.from_bg.r, f.to_bg.r, t1);
    lemma_lerp_channel_bounds(f.from_bg.g, f.to_bg.g, t1);
    lemma_lerp_channel_bounds(f.from_bg.b, f.to_bg.b, t1);
    lemma_lerp_channel_bounds(f.from_fg.r, f.to_fg.r, t2);
    lemma_lerp_channel_bounds(f.from_fg.g, f.to_fg.g, t2);
    lemma_lerp_channel_bounds(f.from_fg.b, f.to_fg.b, t2);
    lemma_lerp_channel_bounds(f.from_bg.r, f.to_bg.r, t2);
    lemma_lerp_channel_bounds(f.from_bg.g, f.to_bg.g, t2);
    lemma_lerp_channel_bounds(f.from_bg.b, f.to_bg.b, t2);
}

/// Completion boundary of a fade: incomplete strictly below its
/// duration, complete from the duration on.
pub proof fn lemma_fade_completion_boundary(f: Fade)
    ensures
        effect_complete(Effect::Fade(f)) <==> f.elapsed >= f.duration,
{
}

/// A parallel effect is complete exactly when each of its children is.
pub proof fn lemma_parallel_complete(p: Parallel)
    ensures
        effect_complete(Effect::Parallel(p)) <==> (forall|i: int|
            0 <= i < p.children@.len() ==> effect_complete(#[trigger] p.children@[i])),
{
    lemma_children_all_complete(p.children@);
}

/// Sequence ordering: in a two-fade sequence advanced first by exactly
/// the first fade's duration and then by `eps` less than the second's,
/// the first child ends complete and the second has accumulated exactly
/// `eps` of elapsed time.
pub proof fn lemma_sequence_two_fades(
    f1: Fade,
    f2: Fade,
    eps: u32,
    s0: Effect,
    s1: Effect,
    s2: Effect,
)
    requires
        f1.elapsed == 0,
        f1.duration > 0,
        f2.elapsed == 0,
        eps < f2.duration,
        (s0 matches Effect::Sequence(s) && s.index == 0 && s.children@.len() == 2
            && s.children@[0] == Effect::Fade(f1) && s.children@[1] == Effect::Fade(f2)),
        effect_advanced(s0, f1.duration, s1),
        effect_advanced(s1, eps, s2),
    ensures
        (s2 matches Effect::Sequence(q) && q.index == 1 && effect_complete(q.children@[0])
            && q.children@[1] == Effect::Fade(Fade { elapsed: eps, ..f2 })),
{
    let d1 = f1.duration;
    assert(!effect_complete(Effect::Fade(f1)));
    assert(s1 matches Effect::Sequence(_));
    let q1 = s1->Sequence_0;
    assert(q1.index == 0);
    assert(effect_advanced(Effect::Fade(f1), d1, q1.children@[0]));
    assert(q1.children@[0] == Effect::Fade(fade_advanced(f1, d1)));
    assert(sat_add(0, d1) == d1);
    assert(effect_complete(q1.children@[0]));
    assert(q1.children@.len() == 2);
    assert(q1.children@[1] == Effect::Fade(f2));
    assert(s2 matches Effect::Sequence(_));
    let q2 = s2->Sequence_0;
    assert(q2.index == 1);
    assert(effect_advanced(Effect::Fade(f2), eps, q2.children@[1]));
    assert(q2.children@[1] == Effect::Fade(fade_advanced(f2, eps)));
    assert(sat_add(0, eps) == eps);
    assert(!effect_complete(q2.children@[1]));
    assert(q2.children@[0] == q1.children@[0]);
}

/// Delay boundary carry-through: a delayed fade advanced in one tick
/// past the end of its delay receives exactly the leftover time.
pub proof fn lemma_prolong_start_carry(f: Fade, delay: u32, delta: u32, p0: Effect, p1: Effect)
    requires
        f.elapsed == 0,
        delta >= delay,
        (p0 matches Effect::ProlongStart(d) && d.remaining == delay && *d.child == Effect::Fade(
            f,
        )),
        effect_advanced(p0, delta, p1),
    ensures
        (p1 matches Effect::ProlongStart(d2) && d2.remaining == 0 && *d2.child == Effect::Fade(
            Fade { elapsed: (delta - delay) as u32, ..f },
        )),
{
    let leftover = (delta - delay) as u32;
    assert(p1 matches Effect::ProlongStart(_));
    let d2 = p1->ProlongStart_0;
    assert(effect_advanced(Effect::Fade(f), leftover, *d2.child));
    assert(*d2.child == Effect::Fade(fade_advanced(f, leftover)));
    assert(sat_add(0, leftover) == leftover);
}

} // verus!
