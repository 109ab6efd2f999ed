//! Blinking of the text cursor of an input.
//!
//! Timers and repaint requests belong to the embedding UI: each transition returns
//! the `BlinkEffects` it asks for, and a timer that fires is reported back with the
//! generation it was scheduled for.
use vstd::prelude::*;

verus! {

/// Default interval for cursor blinking, in milliseconds.
pub const DEFAULT_BLINK_INTERVAL_MS: u64 = 500;

/// Marker for types that render a text cursor.
pub trait Cursor {}

/// What the embedding UI has to do after a blink transition.
#[derive(Clone, Copy, Debug, PartialEq, Eq, Structural)]
pub struct BlinkEffects {
    /// Request a repaint.
    pub notify: bool,
    /// Start a timer of one interval that reports back with this generation.
    pub schedule: Option<usize>,
}

/// The mathematical content of a blink state.
pub ghost struct BlinkView {
    pub interval_ms: int,
    pub generation: int,
    pub visible: bool,
    pub active: bool,
    pub paused: bool,
}

/// The next generation: the counter wraps around.
pub open spec fn next_generation(g: int) -> int {
    if g == usize::MAX {
        0
    } else {
        g + 1
    }
}

impl BlinkView {
    /// One blink: when blinking is active and not paused, visibility flips and the next
    /// tick is scheduled under a new generation.
    pub open spec fn ticked(self) -> (BlinkView, BlinkEffects) {
        if !self.active || self.paused {
            (self, BlinkEffects { notify: false, schedule: None })
        } else {
            let g = next_generation(self.generation);
            (
                BlinkView { visible: !self.visible, generation: g, ..self },
                BlinkEffects { notify: true, schedule: Some(g as usize) },
            )
        }
    }

    /// A pause: while blinking is active, the cursor becomes visible and a timer to
    /// resume is scheduled under a new generation. A cursor whose blinking is not active
    /// is left as it is (a disabled cursor stays hidden until it is enabled).
    pub open spec fn paused_now(self) -> (BlinkView, BlinkEffects) {
        if !self.active {
            (self, BlinkEffects { notify: false, schedule: None })
        } else {
            let g = next_generation(self.generation);
            (
                BlinkView { visible: true, paused: true, generation: g, ..self },
                BlinkEffects { notify: !self.visible, schedule: Some(g as usize) },
            )
        }
    }
}

/// The state of an input's cursor blinking. While active, the cursor's visibility changes at some interval.
/// This blinking can be temporarily paused (e.g. during typing).
pub struct CursorBlink {
    interval_ms: u64,
    generation: usize,
    visible: bool,
    active: bool,
    paused: bool,
}

impl View for CursorBlink {
    type V = BlinkView;

    closed spec fn view(&self) -> BlinkView {
        BlinkView {
            interval_ms: self.interval_ms as int,
            generation: self.generation as int,
            visible: self.visible,
            active: self.active,
            paused: self.paused,
        }
    }
}

impl CursorBlink {
    /// Initializes the cursor blinking with the cursor already being visible.
    pub fn new(interval_ms: u64) -> (r: Self)
        ensures
            r@ == (BlinkView {
                interval_ms: interval_ms as int,
                generation: 0,
                visible: true,
                active: false,
                paused: false,
            }),
    {
        CursorBlink { interval_ms, generation: 0, visible: true, active: false, paused: false }
    }

    /// A hidden, inactive cursor (as a caret starts out).
    pub(crate) fn hidden(interval_ms: u64) -> (r: Self)
        ensures
            r@ == (BlinkView {
                interval_ms: interval_ms as int,
                generation: 0,
                visible: false,
                active: false,
                paused: false,
            }),
    {
        CursorBlink { interval_ms, generation: 0, visible: false, active: false, paused: false }
    }

    /// The same state with another blink interval.
    pub(crate) fn with_interval(self, interval_ms: u64) -> (r: Self)
        ensures
            r@ == (BlinkView { interval_ms: interval_ms as int, ..self@ }),
    {
        let mut this = self;
        this.interval_ms = interval_ms;
        this
    }

    /// The blink interval in milliseconds.
    pub fn interval_ms(&self) -> (r: u64)
        ensures
            r == self@.interval_ms,
    {
        self.interval_ms
    }

    /// Returns whether the cursor should currently be rendered.
    pub fn visible(&self) -> (r: bool)
        ensures
            r == self@.visible,
    {
        self.visible
    }

    /// Activates cursor blinking. Has no effect if already active.
    pub fn enable(&mut self) -> (r: BlinkEffects)
        ensures
            old(self)@.active ==> final(self)@ == old(self)@ && r == (BlinkEffects {
                notify: false,
                schedule: None,
            }),
            !old(self)@.active ==> (final(self)@, r) == (BlinkView {
                active: true,
                visible: false,
                paused: false,
                ..old(self)@
            }).ticked(),
    {
        if self.active {
            return BlinkEffects { notify: false, schedule: None };
        }
        self.active = true;
        self.visible = false;
        self.paused = false;
        self.spawn_ticker()
    }

    /// Deactivates cursor blinking and hides the cursor until `enable` is called.
    pub fn disable(&mut self) -> (r: BlinkEffects)
        ensures
            final(self)@ == (BlinkView { active: false, visible: false, paused: false, ..old(self)@ }),
            r == (BlinkEffects { notify: true, schedule: None }),
    {
        self.active = false;
        self.visible = false;
        self.paused = false;
        BlinkEffects { notify: true, schedule: None }
    }

    /// Temporarily pauses blinking and leaves the cursor visible; blinking resumes when
    /// the scheduled timer reports back to `resume_after_pause`. A cursor whose blinking
    /// is not active (such as a disabled one) is left unchanged.
    pub fn pause_blinking(&mut self) -> (r: BlinkEffects)
        ensures
            (final(self)@, r) == old(self)@.paused_now(),
    {
        if !self.active {
            return BlinkEffects { notify: false, schedule: None };
        }
        let notify = !self.visible;
        if !self.visible {
            self.visible = true;
        }
        self.paused = true;
        self.generation = self.generation.wrapping_add(1);
        BlinkEffects { notify, schedule: Some(self.generation) }
    }

    /// The pause timer scheduled under `generation` has fired: unless a later pause or
    /// tick superseded it, blinking resumes.
    pub fn resume_after_pause(&mut self, generation: usize) -> (r: BlinkEffects)
        ensures
            old(self)@.generation == generation ==> (final(self)@, r) == (BlinkView {
                paused: false,
                ..old(self)@
            }).ticked(),
            old(self)@.generation != generation ==> final(self)@ == old(self)@ && r == (BlinkEffects {
                notify: false,
                schedule: None,
            }),
    {
        if self.generation == generation {
            self.paused = false;
            self.spawn_ticker()
        } else {
            BlinkEffects { notify: false, schedule: None }
        }
    }

    /// The blink timer scheduled under `generation` has fired: unless superseded, the
    /// cursor blinks once more.
    pub fn tick(&mut self, generation: usize) -> (r: BlinkEffects)
        ensures
            old(self)@.generation == generation ==> (final(self)@, r) == old(self)@.ticked(),
            old(self)@.generation != generation ==> final(self)@ == old(self)@ && r == (BlinkEffects {
                notify: false,
                schedule: None,
            }),
    {
        if self.generation == generation {
            self.spawn_ticker()
        } else {
            BlinkEffects { notify: false, schedule: None }
        }
    }

    fn spawn_ticker(&mut self) -> (r: BlinkEffects)
        ensures
            (final(self)@, r) == old(self)@.ticked(),
    {
        if !self.active || self.paused {
            return BlinkEffects { notify: false, schedule: None };
        }
        self.visible = !self.visible;
        self.generation = self.generation.wrapping_add(1);
        BlinkEffects { notify: true, schedule: Some(self.generation) }
    }
}

/// Once a pause or a blink has scheduled a new generation, a timer scheduled before it
/// reports back without effect.
pub proof fn lemma_stale_timer_ignored(v: BlinkView, stale: int)
    requires
        0 <= v.generation <= usize::MAX,
        stale != next_generation(v.generation),
    ensures
        v.active ==> v.paused_now().0.generation != stale,
        v.active && !v.paused ==> v.ticked().0.generation != stale,
{
}

/// A disabled cursor stays hidden: no tick or pause changes it or schedules a timer.
pub proof fn lemma_disabled_cursor_stays_hidden(v: BlinkView)
    ensures
        ({
            let d = BlinkView { active: false, visible: false, paused: false, ..v };
            &&& d.ticked().0 == d
            &&& d.ticked().1 == (BlinkEffects { notify: false, schedule: None })
            &&& d.paused_now().0 == d
            &&& d.paused_now().1 == (BlinkEffects { notify: false, schedule: None })
        }),
{
}

/// A pause of an active cursor leaves it visible, and ticks change nothing until the
/// pause ends.
pub proof fn lemma_paused_cursor_stays_visible(v: BlinkView)
    requires
        v.active,
    ensures
        v.paused_now().0.visible,
        v.paused_now().0.ticked().0 == v.paused_now().0,
        v.paused_now().0.ticked().1 == (BlinkEffects { notify: false, schedule: None }),
{
}

/// While blinking is active and not paused, two ticks bring visibility back to where it was.
pub proof fn lemma_two_ticks_restore_visibility(v: BlinkView)
    requires
        v.active,
        !v.paused,
        0 <= v.generation <= usize::MAX,
    ensures
        v.ticked().0.ticked().0.visible == v.visible,
        v.ticked().0.ticked().1.schedule is Some,
{
}

} // verus!
