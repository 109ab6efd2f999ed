//! The caret of an editable text: blinking while its element has focus.
use vstd::prelude::*;
use crate::cursor::{BlinkEffects, BlinkView, CursorBlink, DEFAULT_BLINK_INTERVAL_MS};

verus! {

/// Notifications a text state sends to its caret.
#[derive(Clone, Copy, Debug, PartialEq, Eq, Structural)]
pub enum CaretNotify {
    /// The user acted: keep the caret visible for a while.
    PauseBlinking,
}

/// The blink state of a caret, and whether its element was focused at the last update.
/// An interval of zero means the caret does not blink.
pub struct Caret {
    blink: CursorBlink,
    /// Tracks whether we were focused on the last update.
    was_focused: bool,
}

impl View for Caret {
    type V = (BlinkView, bool);

    closed spec fn view(&self) -> (BlinkView, bool) {
        (self.blink@, self.was_focused)
    }
}

impl Default for Caret {
    /// A hidden caret that does not blink.
    fn default() -> (r: Self)
        ensures
            r@ == (
                BlinkView {
                    interval_ms: 0,
                    generation: 0,
                    visible: false,
                    active: false,
                    paused: false,
                },
                false,
            ),
    {
        Caret { blink: CursorBlink::hidden(0), was_focused: false }
    }
}

impl Caret {
    /// The caret blinks at the default interval.
    pub fn blink_interval_default(self) -> (r: Self)
        ensures
            r@ == (BlinkView { interval_ms: DEFAULT_BLINK_INTERVAL_MS as int, ..self@.0 }, self@.1),
    {
        self.blink_interval(DEFAULT_BLINK_INTERVAL_MS)
    }

    /// The caret blinks at the given interval (0: it does not blink).
    pub fn blink_interval(self, interval_ms: u64) -> (r: Self)
        ensures
            r@ == (BlinkView { interval_ms: interval_ms as int, ..self@.0 }, self@.1),
    {
        Caret { blink: self.blink.with_interval(interval_ms), was_focused: self.was_focused }
    }

    /// Whether the caret is currently drawn.
    pub fn visible(&self) -> (r: bool)
        ensures
            r == self@.0.visible,
    {
        self.blink.visible()
    }

    /// Processes the focus state during prepaint: blinking starts when focus is gained
    /// and stops when it is lost. Returns whether the caret is visible, and what the UI
    /// has to do.
    pub fn update_focus(&mut self, is_focused: bool) -> (r: (bool, BlinkEffects))
        ensures
            final(self)@.1 == is_focused,
            old(self)@.0.interval_ms == 0 ==> final(self)@.0 == old(self)@.0 && r == (
                true,
                BlinkEffects { notify: false, schedule: None },
            ),
            old(self)@.0.interval_ms != 0 && is_focused && !old(self)@.1 ==> ({
                let (w, e) = if old(self)@.0.active {
                    (old(self)@.0, BlinkEffects { notify: false, schedule: None })
                } else {
                    (BlinkView { active: true, visible: false, paused: false, ..old(self)@.0 }).ticked()
                };
                final(self)@.0 == w && r == (true, e)
            }),
            old(self)@.0.interval_ms != 0 && !is_focused && old(self)@.1 ==> final(self)@.0 == (
            BlinkView { active: false, visible: false, paused: false, ..old(self)@.0 }) && r == (
                false,
                BlinkEffects { notify: true, schedule: None },
            ),
            old(self)@.0.interval_ms != 0 && is_focused == old(self)@.1 ==> final(self)@.0 == old(
                self,
            )@.0 && r == (old(self)@.0.visible, BlinkEffects { notify: false, schedule: None }),
    {
        let was_focused = self.was_focused;
        self.was_focused = is_focused;
        if self.blink.interval_ms() == 0 {
            (true, BlinkEffects { notify: false, schedule: None })
        } else if is_focused && !was_focused {
            let e = self.blink.enable();
            (true, e)
        } else if !is_focused && was_focused {
            let e = self.blink.disable();
            (false, e)
        } else {
            (self.blink.visible(), BlinkEffects { notify: false, schedule: None })
        }
    }

    /// Handles a notification from the text state: a pause keeps a blinking caret visible.
    pub fn on_notify(&mut self, event: CaretNotify) -> (r: BlinkEffects)
        ensures
            old(self)@.0.interval_ms == 0 ==> final(self)@ == old(self)@ && r == (BlinkEffects {
                notify: false,
                schedule: None,
            }),
            old(self)@.0.interval_ms != 0 ==> final(self)@.1 == old(self)@.1 && final(self)@.0
                == old(self)@.0.paused_now().0 && r == (BlinkEffects {
                notify: true,
                schedule: old(self)@.0.paused_now().1.schedule,
            }),
    {
        match event {
            CaretNotify::PauseBlinking => {
                if self.blink.interval_ms() != 0 {
                    let e = self.blink.pause_blinking();
                    BlinkEffects { notify: true, schedule: e.schedule }
                } else {
                    BlinkEffects { notify: false, schedule: None }
                }
            },
        }
    }

    /// The pause timer scheduled under `generation` has fired.
    pub fn resume_after_pause(&mut self, generation: usize) -> (r: BlinkEffects)
        ensures
            final(self)@.1 == old(self)@.1,
            old(self)@.0.generation == generation ==> (final(self)@.0, r) == (BlinkView {
                paused: false,
                ..old(self)@.0
            }).ticked(),
            old(self)@.0.generation != generation ==> final(self)@ == old(self)@ && r == (BlinkEffects {
                notify: false,
                schedule: None,
            }),
    {
        self.blink.resume_after_pause(generation)
    }

    /// The blink timer scheduled under `generation` has fired.
    pub fn tick(&mut self, generation: usize) -> (r: BlinkEffects)
        ensures
            final(self)@.1 == old(self)@.1,
            old(self)@.0.generation == generation ==> (final(self)@.0, r) == old(self)@.0.ticked(),
            old(self)@.0.generation != generation ==> final(self)@ == old(self)@ && r == (BlinkEffects {
                notify: false,
                schedule: None,
            }),
    {
        self.blink.tick(generation)
    }
}

} // verus!
