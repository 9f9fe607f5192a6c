//! Effects: time-driven transformations of a region of grid cells.
//!
//! An effect is advanced by per-frame time deltas, paints into a grid,
//! and reports completion.  Leaf effects are color fades; combinators
//! run children in order, concurrently, or after a fixed delay.

use crate::color::{lerp_color, lerp_color_spec, Color, SCALE};
use crate::curve::{ease, ease_spec, Interpolation};
use crate::filter::{filter_applies, CellFilter};
use crate::grid::{Cell, Grid, Region};
use vstd::prelude::*;

verus! {

/// A leaf effect: interpolates the colors of the selected cells from a
/// start pair to an end pair over its duration.
pub struct Fade {
    /// Accumulated elapsed time.
    pub elapsed: u32,
    /// Total running time; the fade is complete once `elapsed >= duration`.
    pub duration: u32,
    /// Easing curve applied to the progress fraction.
    pub curve: Interpolation,
    /// Restricts which cells of the target region are painted.
    pub filter: CellFilter,
    /// Foreground color at progress `0`.
    pub from_fg: Color,
    /// Foreground color at progress `1`.
    pub to_fg: Color,
    /// Background color at progress `0`.
    pub from_bg: Color,
    /// Background color at progress `1`.
    pub to_bg: Color,
}

/// Runs its children one at a time, in order.
pub struct Sequence {
    /// The ordered children.
    pub children: Vec<Effect>,
    /// Index of the currently active child; past the end once all are done.
    pub index: usize,
}

/// Runs all of its children concurrently.
pub struct Parallel {
    /// The concurrent children.
    pub children: Vec<Effect>,
}

/// Wraps a child effect behind a leading silent delay.
pub struct ProlongStart {
    /// Delay time not yet consumed; the child runs once this reaches zero.
    pub remaining: u32,
    /// The delayed effect.
    pub child: Box<Effect>,
}

/// The closed set of effect shapes.
pub enum Effect {
    Fade(Fade),
    Sequence(Sequence),
    Parallel(Parallel),
    ProlongStart(ProlongStart),
}

/// Whether effect `e` reports completion.
pub open spec fn effect_complete(e: Effect) -> bool
    decreases e,
{
    match e {
        Effect::Fade(f) => f.elapsed >= f.duration,
        Effect::Sequence(s) => s.index >= s.children@.len(),
        Effect::Parallel(p) => children_all_complete(p.children@),
        Effect::ProlongStart(d) => d.remaining == 0 && effect_complete(*d.child),
    }
}

/// Whether every effect in `s` reports completion.
pub open spec fn children_all_complete(s: Seq<Effect>) -> bool
    decreases s,
{
    s.len() == 0 || (effect_complete(s.last()) && children_all_complete(s.drop_last()))
}

/// `children_all_complete` holds exactly when each child is complete.
pub proof fn lemma_children_all_complete(s: Seq<Effect>)
    ensures
        children_all_complete(s) <==> (forall|i: int|
            0 <= i < s.len() ==> effect_complete(s[i])),
    decreases s,
{
    if s.len() > 0 {
        lemma_children_all_complete(s.drop_last());
        assert(forall|i: int| 0 <= i < s.len() - 1 ==> s.drop_last()[i] == s[i]);
    }
}

/// `a + b`, saturating at the largest `u32`.
pub open spec fn sat_add(a: u32, b: u32) -> u32 {
    if a + b <= u32::MAX {
        (a + b) as u32
    } else {
        u32::MAX
    }
}

/// A fade advances by accumulating elapsed time; nothing else changes.
pub open spec fn fade_advanced(f: Fade, delta: u32) -> Fade {
    Fade { elapsed: sat_add(f.elapsed, delta), ..f }
}

/// How one `advance(delta)` call turns effect `pre` into effect `post`.
pub open spec fn effect_advanced(pre: Effect, delta: u32, post: Effect) -> bool
    decreases pre, 0int,
{
    match pre {
        Effect::Fade(f) => post == Effect::Fade(fade_advanced(f, delta)),
        Effect::Sequence(s) => match post {
            Effect::Sequence(s2) => {
                if s.index >= s.children@.len() {
                    s2 == s
                } else {
                    // A finished child is stepped past at the start of
                    // the tick; the whole fresh delta then goes to the
                    // child that is now active.
                    let active = if effect_complete(s.children@[s.index as int]) {
                        s.index + 1
                    } else {
                        s.index as int
                    };
                    &&& s2.index == active
                    &&& s2.children@.len() == s.children@.len()
                    &&& forall|j: int|
                        0 <= j < s.children@.len() && j != active ==> s2.children@[j]
                            == s.children@[j]
                    &&& active < s.children@.len() ==> effect_advanced(
                        s.children@[active],
                        delta,
                        s2.children@[active],
                    )
                    &&& active >= s.children@.len() ==> s2.children@ == s.children@
                }
            },
            _ => false,
        },
        Effect::Parallel(p) => match post {
            Effect::Parallel(p2) => children_advanced(p.children@, delta, p2.children@),
            _ => false,
        },
        Effect::ProlongStart(d) => match post {
            Effect::ProlongStart(d2) => {
                if delta < d.remaining {
                    d2.remaining == d.remaining - delta && d2.child == d.child
                } else {
                    &&& d2.remaining == 0
                    &&& effect_advanced(*d.child, (delta - d.remaining) as u32, *d2.child)
                }
            },
            _ => false,
        },
    }
}

/// One advance step of a single concurrent child: a finished child is
/// left untouched, an unfinished one is advanced.
pub open spec fn advanced_or_kept(pre: Effect, delta: u32, post: Effect) -> bool
    decreases pre, 1int,
{
    if effect_complete(pre) {
        post == pre
    } else {
        effect_advanced(pre, delta, post)
    }
}

/// How one `advance(delta)` call turns the concurrent children `pre`
/// into the children `post`.
pub open spec fn children_advanced(pre: Seq<Effect>, delta: u32, post: Seq<Effect>) -> bool
    decreases pre, 0int,
{
    &&& pre.len() == post.len()
    &&& (pre.len() == 0 || {
        &&& advanced_or_kept(pre.last(), delta, post.last())
        &&& children_advanced(pre.drop_last(), delta, post.drop_last())
    })
}

/// `children_advanced` holds exactly when it holds child by child.
pub proof fn lemma_children_advanced_pointwise(pre: Seq<Effect>, delta: u32, post: Seq<Effect>)
    requires
        pre.len() == post.len(),
        forall|j: int| 0 <= j < pre.len() ==> advanced_or_kept(pre[j], delta, #[trigger] post[j]),
    ensures
        children_advanced(pre, delta, post),
    decreases pre,
{
    if pre.len() > 0 {
        assert(forall|j: int|
            0 <= j < pre.len() - 1 ==> advanced_or_kept(
                pre.drop_last()[j],
                delta,
                #[trigger] post.drop_last()[j],
            )) by {
            assert(forall|j: int| 0 <= j < pre.len() - 1 ==> pre.drop_last()[j] == pre[j]);
            assert(forall|j: int| 0 <= j < post.len() - 1 ==> post.drop_last()[j] == post[j]);
        }
        lemma_children_advanced_pointwise(pre.drop_last(), delta, post.drop_last());
    }
}

/// Raw progress fraction of a fade clock: `elapsed / duration`, clamped
/// to `[0, SCALE]`.  A zero duration counts as full progress.
pub open spec fn progress_spec(elapsed: u32, duration: u32) -> nat {
    if elapsed >= duration {
        SCALE as nat
    } else {
        (elapsed * SCALE / (duration as int)) as nat
    }
}

/// Eased progress fraction of a fade.
pub open spec fn fade_eased(f: Fade) -> nat {
    ease_spec(f.curve, progress_spec(f.elapsed, f.duration))
}

/// How a fade repaints one selected cell: colors interpolated, the
/// character kept.
pub open spec fn fade_cell(f: Fade, c: Cell) -> Cell {
    Cell {
        ch: c.ch,
        fg: lerp_color_spec(f.from_fg, f.to_fg, fade_eased(f)),
        bg: lerp_color_spec(f.from_bg, f.to_bg, fade_eased(f)),
    }
}

/// Whether a fade touches position `i` of a row-major cell sequence:
/// the position lies in the target region (clipped to the grid) and the
/// fade's filter selects the cell.
pub open spec fn fade_touches(f: Fade, cells: Seq<Cell>, w: u16, r: Region, i: int) -> bool {
    let x = i % (w as int);
    let y = i / (w as int);
    r.contains(x, y) && filter_applies(f.filter, x, y, cells[i])
}

/// The cells after a fade paints: selected cells repainted, the rest
/// untouched.
pub open spec fn fade_paint(f: Fade, cells: Seq<Cell>, w: u16, r: Region) -> Seq<Cell> {
    Seq::new(
        cells.len(),
        |i: int|
            if fade_touches(f, cells, w, r, i) {
                fade_cell(f, cells[i])
            } else {
                cells[i]
            },
    )
}

/// The cells after effect `e` paints into a grid of width `w`,
/// restricted to region `r`.
pub open spec fn effect_paint(e: Effect, cells: Seq<Cell>, w: u16, r: Region) -> Seq<Cell>
    decreases e,
{
    match e {
        Effect::Fade(f) => fade_paint(f, cells, w, r),
        Effect::Sequence(s) => if s.index < s.children@.len() {
            effect_paint(s.children@[s.index as int], cells, w, r)
        } else {
            cells
        },
        Effect::Parallel(p) => children_paint(p.children@, cells, w, r),
        Effect::ProlongStart(d) => if d.remaining > 0 {
            cells
        } else {
            effect_paint(*d.child, cells, w, r)
        },
    }
}

/// The cells after the effects of `s` paint one after the other, in
/// order: later effects overwrite earlier ones where they overlap.
pub open spec fn children_paint(s: Seq<Effect>, cells: Seq<Cell>, w: u16, r: Region) -> Seq<Cell>
    decreases s,
{
    if s.len() == 0 {
        cells
    } else {
        effect_paint(s.last(), children_paint(s.drop_last(), cells, w, r), w, r)
    }
}

/// Clamped progress fraction, executable form.
pub fn progress(elapsed: u32, duration: u32) -> (t: u32)
    ensures
        t == progress_spec(elapsed, duration),
        t <= SCALE,
{
    if elapsed >= duration {
        SCALE
    } else {
        proof {
            let e = elapsed as int;
            let d = duration as int;
            let s = SCALE as int;
            vstd::arithmetic::mul::lemma_mul_inequality(e, d, s);
            assert(e * s == s * e && d * s == s * d) by (nonlinear_arith);
            vstd::arithmetic::div_mod::lemma_div_is_ordered(0, e * s, d);
            vstd::arithmetic::div_mod::lemma_div_is_ordered(e * s, d * s, d);
            vstd::arithmetic::div_mod::lemma_div_multiples_vanish(s, d);
        }
        let p: u64 = elapsed as u64 * SCALE as u64 / duration as u64;
        p as u32
    }
}

impl Effect {
    /// Accumulate `delta` of elapsed time, executable form.
    #[verifier::loop_isolation(false)]
    pub fn advance(&mut self, delta: u32)
        ensures
            effect_advanced(*old(self), delta, *final(self)),
        decreases *old(self),
    {
        match self {
            Effect::Fade(f) => {
                f.elapsed = if f.elapsed <= u32::MAX - delta {
                    f.elapsed + delta
                } else {
                    u32::MAX
                };
            },
            Effect::Sequence(s) => {
                let len = s.children.len();
                if s.index < len {
                    let mut idx = s.index;
                    let done = s.children[idx].is_complete();
                    if done {
                        idx = idx + 1;
                        s.index = idx;
                    }
                    if idx < len {
                        let child = &mut s.children[idx];
                        child.advance(delta);
                    }
                }
            },
            Effect::Parallel(p) => {
                let ghost pre = p.children@;
                let mut i: usize = 0;
                while i < p.children.len()
                    invariant
                        p.children@.len() == pre.len(),
                        i <= pre.len(),
                        forall|j: int|
                            0 <= j < i ==> advanced_or_kept(pre[j], delta, #[trigger] p.children@[j]),
                        forall|j: int| i <= j < pre.len() ==> p.children@[j] == pre[j],
                    decreases pre.len() - i,
                {
                    let done = p.children[i].is_complete();
                    if !done {
                        proof {
                            assert(pre == (*old(self))->Parallel_0.children@);
                            assert(decreases_to!(
                                *old(self) => (*old(self))->Parallel_0.children@[i as int]));
                        }
                        let c = &mut p.children[i];
                        c.advance(delta);
                    }
                    i = i + 1;
                }
                proof {
                    lemma_children_advanced_pointwise(pre, delta, p.children@);
                }
            },
            Effect::ProlongStart(d) => {
                if delta < d.remaining {
                    d.remaining = d.remaining - delta;
                } else {
                    let leftover = delta - d.remaining;
                    d.remaining = 0;
                    d.child.advance(leftover);
                }
            },
        }
    }

    /// Paint into `grid`, restricted to `region`, executable form.
    ///
    /// Positions outside the grid are clipped silently; the characters
    /// of the cells are never changed.
    #[verifier::loop_isolation(false)]
    pub fn paint(&self, grid: &mut Grid, region: Region)
        requires
            old(grid).wf(),
        ensures
            final(grid).wf(),
            final(grid).width == old(grid).width,
            final(grid).height == old(grid).height,
            final(grid).cells@ == effect_paint(*self, old(grid).cells@, old(grid).width, region),
        decreases self,
    {
        match self {
            Effect::Fade(f) => {
                let w: u16 = grid.width;
                let len: usize = grid.cells.len();
                let ghost orig = grid.cells@;
                let ghost target = fade_paint(*f, orig, w, region);
                let t = progress(f.elapsed, f.duration);
                let e = ease(f.curve, t);
                let fg = lerp_color(f.from_fg, f.to_fg, e);
                let bg = lerp_color(f.from_bg, f.to_bg, e);
                let mut idx: usize = 0;
                while idx < len
                    invariant
                        grid.cells@.len() == len,
                        grid.width == w,
                        grid.height == old(grid).height,
                        idx <= len,
                        forall|j: int| idx <= j < len ==> grid.cells@[j] == orig[j],
                        forall|j: int| 0 <= j < idx ==> grid.cells@[j] == target[j],
                    decreases len - idx,
                {
                    proof {
                        let h = old(grid).height;
                        assert(w > 0) by (nonlinear_arith)
                            requires
                                w as int * h as int == len as int,
                                len > 0;
                        vstd::arithmetic::div_mod::lemma_mod_division_less_than_divisor(
                            idx as int,
                            w as int,
                        );
                        vstd::arithmetic::div_mod::lemma_div_pos_is_pos(idx as int, w as int);
                        assert(w as int * h as int == h as int * w as int) by (nonlinear_arith);
                        vstd::arithmetic::div_mod::lemma_multiply_divide_lt(
                            idx as int,
                            w as int,
                            h as int,
                        );
                    }
                    let x: usize = idx % w as usize;
                    let y: usize = idx / w as usize;
                    let c: Cell = grid.cells[idx];
                    let touched = region.contains_pos(x as u16, y as u16)
                        && f.filter.applies(x as u16, y as u16, &c);
                    if touched {
                        grid.cells[idx] = Cell { ch: c.ch, fg, bg };
                    }
                    idx = idx + 1;
                }
                proof {
                    assert(grid.cells@ =~= target);
                }
            },
            Effect::Sequence(s) => {
                if s.index < s.children.len() {
                    let child = &s.children[s.index];
                    child.paint(grid, region);
                }
            },
            Effect::Parallel(p) => {
                let w: u16 = grid.width;
                let ghost orig = grid.cells@;
                let ghost s = p.children@;
                let mut i: usize = 0;
                while i < p.children.len()
                    invariant
                        grid.wf(),
                        grid.width == w,
                        grid.height == old(grid).height,
                        i <= s.len(),
                        grid.cells@ == children_paint(s.take(i as int), orig, w, region),
                    decreases s.len() - i,
                {
                    let child = &p.children[i];
                    child.paint(grid, region);
                    proof {
                        assert(s.take(i + 1).drop_last() =~= s.take(i as int));
                        assert(s.take(i + 1).last() == s[i as int]);
                    }
                    i = i + 1;
                }
                proof {
                    assert(s.take(s.len() as int) =~= s);
                }
            },
            Effect::ProlongStart(d) => {
                if d.remaining == 0 {
                    d.child.paint(grid, region);
                }
            },
        }
    }

    /// A fresh fade over the whole region: colors move from the first
    /// pair to the second pair over `duration`, eased by `curve`.
    pub fn fade(
        from_fg: Color,
        from_bg: Color,
        to_fg: Color,
        to_bg: Color,
        duration: u32,
        curve: Interpolation,
    ) -> (r: Effect)
        ensures
            r == Effect::Fade(
                Fade {
                    elapsed: 0,
                    duration,
                    curve,
                    filter: CellFilter::All,
                    from_fg,
                    to_fg,
                    from_bg,
                    to_bg,
                },
            ),
    {
        Effect::Fade(
            Fade {
                elapsed: 0,
                duration,
                curve,
                filter: CellFilter::All,
                from_fg,
                to_fg,
                from_bg,
                to_bg,
            },
        )
    }

    /// Run `children` one after the other.
    pub fn sequence(children: Vec<Effect>) -> (r: Effect)
        ensures
            (r matches Effect::Sequence(s) && s.index == 0 && s.children@ == children@),
    {
        Effect::Sequence(Sequence { children, index: 0 })
    }

    /// Run `children` concurrently.
    pub fn parallel(children: Vec<Effect>) -> (r: Effect)
        ensures
            (r matches Effect::Parallel(p) && p.children@ == children@),
    {
        Effect::Parallel(Parallel { children })
    }

    /// Run `child` after a silent delay of `delay`.
    pub fn prolong_start(delay: u32, child: Effect) -> (r: Effect)
        ensures
            (r matches Effect::ProlongStart(d) && d.remaining == delay && *d.child == child),
    {
        Effect::ProlongStart(ProlongStart { remaining: delay, child: Box::new(child) })
    }

    /// Restrict a fade to the cells selected by `f`; any other effect
    /// is returned unchanged.
    pub fn with_filter(self, f: CellFilter) -> (r: Effect)
        ensures
            (self matches Effect::Fade(fd) ==> r == Effect::Fade(Fade { filter: f, ..fd })),
            !(self matches Effect::Fade(_)) ==> r == self,
    {
        match self {
            Effect::Fade(fd) => Effect::Fade(Fade { filter: f, ..fd }),
            other => other,
        }
    }

    /// Completion test, executable form.
    #[verifier::loop_isolation(false)]
    pub fn is_complete(&self) -> (b: bool)
        ensures
            b == effect_complete(*self),
        decreases self,
    {
        match self {
            Effect::Fade(f) => f.elapsed >= f.duration,
            Effect::Sequence(s) => s.index >= s.children.len(),
            Effect::Parallel(p) => {
                proof {
                    lemma_children_all_complete(p.children@);
                }
                let mut i: usize = 0;
                let mut all: bool = true;
                while i < p.children.len()
                    invariant
                        i <= p.children@.len(),
                        all == (forall|j: int|
                            0 <= j < i ==> effect_complete(p.children@[j])),
                    decreases p.children@.len() - i,
                {
                    let done = p.children[i].is_complete();
                    all = all && done;
                    i = i + 1;
                }
                all
            },
            Effect::ProlongStart(d) => d.remaining == 0 && d.child.is_complete(),
        }
    }
}

} // verus!
