//! Keyboard front-end decisions: which chords are live while something else
//! owns the keyboard, and whether a Space press was a tap (repeat the last
//! command) or a hold (pan).

use vstd::prelude::*;

verus! {

/// Space held at least this long (nanoseconds) is a hold, not a tap.
pub const SPACE_TAP_MAX_NANOS: u64 = 250_000_000;

/// What one frame of input says about Space and the pointer.
#[derive(Debug, Clone, Copy, PartialEq, Eq, Structural)]
pub struct SpaceInput {
    /// Space went down this frame.
    pub pressed: bool,
    /// Space came up this frame.
    pub released: bool,
    /// A pointer button is down this frame.
    pub pointer_down: bool,
    /// Something else owns the keyboard: a text field wants it, a text node
    /// is being edited, or the palette is open.
    pub blocked: bool,
    /// The frame's time on a monotonic clock, in nanoseconds.
    pub now_nanos: u64,
}

/// A live Space press, so release can tell a tap from a hold.
#[derive(Debug, Clone, Copy)]
pub struct SpaceTap {
    pressed_at: Option<u64>,
    /// A pointer button went down while Space was held: a pan chord.
    pointer_used: bool,
}

impl SpaceTap {
    /// When the current press began, if Space is held.
    pub closed spec fn held_since(self) -> Option<u64> {
        self.pressed_at
    }

    /// Whether the pointer was used during the current press.
    pub closed spec fn pointer_was_used(self) -> bool {
        self.pointer_used
    }
}

/// When the press that is live after this frame's key-down began.
pub open spec fn armed_at(t: SpaceTap, i: SpaceInput) -> Option<u64> {
    if i.pressed && t.held_since() is None && !i.blocked {
        Some(i.now_nanos)
    } else {
        t.held_since()
    }
}

/// Whether the pointer has been used during that press, this frame included.
pub open spec fn used_during(t: SpaceTap, i: SpaceInput) -> bool {
    let fresh = i.pressed && t.held_since() is None && !i.blocked;
    let before = if fresh {
        i.pointer_down
    } else {
        t.pointer_was_used()
    };
    before || (armed_at(t, i) is Some && i.pointer_down)
}

/// Whether a release after holding since `at`, at `now`, was quick enough.
pub open spec fn quick(at: u64, now: u64) -> bool {
    (if now >= at {
        now - at
    } else {
        0
    }) < SPACE_TAP_MAX_NANOS
}

impl SpaceTap {
    /// No press in progress.
    pub fn idle() -> (t: Self)
        ensures
            t.held_since() is None,
            !t.pointer_was_used(),
    {
        SpaceTap { pressed_at: None, pointer_used: false }
    }

    /// Feed one frame. Returns whether Space was tapped: released quickly,
    /// with no pointer use during the press, while nothing else owns the
    /// keyboard. A tap repeats the last command.
    pub fn frame(&mut self, input: SpaceInput) -> (tapped: bool)
        ensures
            tapped == (input.released && armed_at(*old(self), input) is Some && quick(
                armed_at(*old(self), input)->0,
                input.now_nanos,
            ) && !used_during(*old(self), input) && !input.blocked),
            input.released ==> (final(self).held_since() is None
                && !final(self).pointer_was_used()),
            !input.released ==> (final(self).held_since() == armed_at(*old(self), input)
                && final(self).pointer_was_used() == used_during(*old(self), input)),
    {
        if input.pressed && self.pressed_at.is_none() && !input.blocked {
            self.pressed_at = Some(input.now_nanos);
            self.pointer_used = input.pointer_down;
        }
        if self.pressed_at.is_some() && input.pointer_down {
            self.pointer_used = true;
        }
        let mut tapped = false;
        if input.released {
            if let Some(at) = self.pressed_at {
                let held = input.now_nanos.saturating_sub(at);
                if held < SPACE_TAP_MAX_NANOS && !self.pointer_used && !input.blocked {
                    tapped = true;
                }
            }
            self.pressed_at = None;
            self.pointer_used = false;
        }
        tapped
    }
}

impl Default for SpaceTap {
    fn default() -> (t: Self)
        ensures
            t.held_since() is None,
            !t.pointer_was_used(),
    {
        SpaceTap::idle()
    }
}

/// Tap or hold: a release less than a quarter second after the press is
/// quick, one a quarter second or more after is a hold; an earlier release of
/// the same press is quick whenever a later one is; and a clean press (seen
/// begin, no pointer, keyboard free) released quickly is a tap.
pub proof fn a_quick_clean_release_is_a_tap(t: SpaceTap, i: SpaceInput, at: u64, earlier: u64)
    ensures
        i.now_nanos >= at && i.now_nanos - at < 250_000_000 ==> quick(at, i.now_nanos),
        i.now_nanos >= at + 250_000_000 ==> !quick(at, i.now_nanos),
        quick(at, i.now_nanos) && at <= earlier <= i.now_nanos ==> quick(at, earlier),
        t.held_since() == Some(at) && !t.pointer_was_used() && i.released && !i.pointer_down
            && !i.blocked && quick(at, i.now_nanos) ==> armed_at(t, i) == Some(at) && !used_during(
            t,
            i,
        ),
{
}

/// Space with a drag stays a pan: once the pointer is used during a press,
/// no later frame of that press reports a tap, and the press keeps that mark
/// until Space comes up.
pub proof fn a_drag_during_the_hold_is_never_a_tap(t: SpaceTap, i: SpaceInput)
    requires
        t.held_since() is Some,
        t.pointer_was_used(),
    ensures
        used_during(t, i),
        armed_at(t, i) == t.held_since(),
{
}

/// A tap is only reported for a press that this library saw begin: a
/// release with no press in progress, and no press this frame, is no tap.
pub proof fn a_release_without_a_press_is_no_tap(t: SpaceTap, i: SpaceInput)
    requires
        t.held_since() is None,
        !i.pressed,
    ensures
        armed_at(t, i) is None,
{
}

/// Whether a chord is held back because something else owns the keyboard.
/// The palette owns every key; F-keys stay live otherwise; a Ctrl chord is
/// held back only while a text field wants the keyboard; any other key also
/// while a text node is being edited.
pub open spec fn suppressed_spec(
    fkey: bool,
    ctrl: bool,
    wants_kb: bool,
    editing: bool,
    palette_open: bool,
) -> bool {
    if palette_open {
        true
    } else if fkey {
        false
    } else if ctrl {
        wants_kb
    } else {
        wants_kb || editing
    }
}

/// Who owns the keyboard, chord by chord:
/// - the open palette holds back every key;
/// - otherwise an F-key always fires;
/// - any other key is held back while a text field wants the keyboard;
/// - a bare key (no Ctrl) is also held back while a text node is edited,
///   but a Ctrl chord still fires then;
/// - with the palette closed, no text field wanting the keyboard and no text
///   edit, every key fires.
pub proof fn the_keyboard_owner_holds_keys_back(
    fkey: bool,
    ctrl: bool,
    wants_kb: bool,
    editing: bool,
    palette_open: bool,
)
    ensures
        palette_open ==> suppressed_spec(fkey, ctrl, wants_kb, editing, palette_open),
        !palette_open && fkey ==> !suppressed_spec(fkey, ctrl, wants_kb, editing, palette_open),
        !fkey && wants_kb ==> suppressed_spec(fkey, ctrl, wants_kb, editing, palette_open),
        !fkey && !ctrl && editing ==> suppressed_spec(fkey, ctrl, wants_kb, editing, palette_open),
        !palette_open && ctrl && !wants_kb ==> !suppressed_spec(
            fkey,
            ctrl,
            wants_kb,
            editing,
            palette_open,
        ),
        !palette_open && !wants_kb && !editing ==> !suppressed_spec(
            fkey,
            ctrl,
            wants_kb,
            editing,
            palette_open,
        ),
{
}

/// `suppressed_spec` for a chord on an F-key (`fkey`) or with Ctrl (`ctrl`).
pub fn suppressed(fkey: bool, ctrl: bool, wants_kb: bool, editing: bool, palette_open: bool) -> (r:
    bool)
    ensures
        r == suppressed_spec(fkey, ctrl, wants_kb, editing, palette_open),
{
    if palette_open {
        return true;
    }
    if fkey {
        return false;
    }
    if ctrl {
        return wants_kb;
    }
    wants_kb || editing
}

} // verus!
