//! The display-mode state machine.
//!
//! The controller holds the active mode — project a sample's value or its
//! derivative — and a one-shot flag that tells the next render pass to
//! refit the plot bounds. The flag is raised exactly when the mode
//! changes, and consumed by the render pass that reads it.

use vstd::prelude::*;

use crate::parser::{Sample, SampleView};

verus! {

/// Which quantity of each sample is projected: the value `y` or its
/// derivative `y'`.
#[derive(Clone, Copy, PartialEq, Eq, Structural, Debug)]
pub enum Mode {
    Value,
    Derivative,
}

/// The controller's whole state: the active mode and the one-shot
/// bounds-reset flag.
pub struct ViewState {
    pub mode: Mode,
    pub pending_bounds_reset: bool,
}

/// What a mode switch does: a new mode takes effect and raises the
/// bounds-reset flag; switching to the mode already active changes
/// nothing.
pub open spec fn spec_set_mode(v: ViewState, m: Mode) -> ViewState {
    if m != v.mode {
        ViewState { mode: m, pending_bounds_reset: true }
    } else {
        v
    }
}

/// What consuming the flag does: it hands the flag out and lowers it; the
/// mode stays.
pub open spec fn spec_consume(v: ViewState) -> (bool, ViewState) {
    (v.pending_bounds_reset, ViewState { mode: v.mode, pending_bounds_reset: false })
}

/// The points a layer contributes to the plot: under `Value` each sample's
/// `(x, y)`, under `Derivative` its `(x, y')`, in sample order.
pub open spec fn spec_project(m: Mode, samples: Seq<SampleView>) -> Seq<
    (Seq<u8>, Seq<u8>),
> {
    samples.map_values(
        |s: SampleView|
            if m == Mode::Value {
                (s.x, s.y)
            } else {
                (s.x, s.yp)
            },
    )
}

/// Holds the display mode and the pending bounds-reset flag.
pub struct ViewController {
    mode: Mode,
    pending_bounds_reset: bool,
}

impl View for ViewController {
    type V = ViewState;

    closed spec fn view(&self) -> ViewState {
        ViewState { mode: self.mode, pending_bounds_reset: self.pending_bounds_reset }
    }
}

impl ViewController {
    /// A fresh controller: `Value` mode, no reset pending.
    pub fn new() -> (c: ViewController)
        ensures
            c@.mode == Mode::Value,
            !c@.pending_bounds_reset,
    {
        ViewController { mode: Mode::Value, pending_bounds_reset: false }
    }

    /// The active mode.
    pub fn mode(&self) -> (m: Mode)
        ensures
            m == self@.mode,
    {
        self.mode
    }

    /// Switches the display mode. A change of mode raises the bounds-reset
    /// flag; asking for the mode already active is a no-op and never
    /// raises it.
    pub fn set_mode(&mut self, m: Mode)
        ensures
            final(self)@ == spec_set_mode(old(self)@, m),
    {
        if m != self.mode {
            self.mode = m;
            self.pending_bounds_reset = true;
        }
    }

    /// Hands out the bounds-reset flag and lowers it, so a raised flag is
    /// seen by exactly one render pass.
    pub fn consume_bounds_reset(&mut self) -> (r: bool)
        ensures
            r == spec_consume(old(self)@).0,
            final(self)@ == spec_consume(old(self)@).1,
    {
        let r = self.pending_bounds_reset;
        self.pending_bounds_reset = false;
        r
    }

    /// The points of one layer under the active mode: `(x, y)` token pairs
    /// under `Value`, `(x, y')` under `Derivative`, in sample order and
    /// count.
    pub fn project_layer(&self, samples: &Vec<Sample>) -> (pts: Vec<(Vec<u8>, Vec<u8>)>)
        ensures
            pts.deep_view() == spec_project(self@.mode, samples.deep_view()),
    {
        let derivative = match self.mode {
            Mode::Value => false,
            Mode::Derivative => true,
        };
        let n = samples.len();
        let mut pts: Vec<(Vec<u8>, Vec<u8>)> = Vec::new();
        let mut i: usize = 0;
        while i < n
            invariant
                i <= n,
                n == samples@.len(),
                derivative == (self@.mode == Mode::Derivative),
                pts.deep_view() =~= spec_project(self@.mode, samples.deep_view()).subrange(
                    0,
                    i as int,
                ),
            decreases n - i,
        {
            let s = &samples[i];
            let x = crate::parser::clone_bytes(&s.x);
            let second = if derivative {
                crate::parser::clone_bytes(&s.yp)
            } else {
                crate::parser::clone_bytes(&s.y)
            };
            let ghost old_pts = pts.deep_view();
            pts.push((x, second));
            proof {
                assert(samples.deep_view()[i as int] == samples@[i as int]@);
                assert(pts.deep_view() =~~= old_pts.push(
                    spec_project(self@.mode, samples.deep_view())[i as int],
                ));
                assert(pts.deep_view() =~= spec_project(self@.mode, samples.deep_view()).subrange(
                    0,
                    i + 1,
                ));
            }
            i = i + 1;
        }
        proof {
            assert(pts.deep_view() =~= spec_project(self@.mode, samples.deep_view()));
        }
        pts
    }
}

/// Switching to a mode and then to the same mode again never raises the
/// bounds-reset flag on the second switch; switching to a different mode
/// always raises it.
pub proof fn lemma_set_mode_twice(v: ViewState, x: Mode, y: Mode)
    ensures
        spec_set_mode(spec_set_mode(v, x), x).pending_bounds_reset == spec_set_mode(
            v,
            x,
        ).pending_bounds_reset,
        x != y ==> spec_set_mode(spec_set_mode(v, x), y).pending_bounds_reset,
{
}

/// The bounds-reset flag is handed out at most once: whatever the state,
/// a second consecutive consumption returns false.
pub proof fn lemma_consume_at_most_once(v: ViewState)
    ensures
        !spec_consume(spec_consume(v).1).0,
{
}

} // verus!
