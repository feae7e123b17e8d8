use slate::board_properties::Panel;
use slate::board_snap::{effective_ortho, GuideAxis, ResizeSnapEdges};
use slate::board_trim::{sort_ids, TrimHover, TrimPhase, TrimSession, TrimStep};
use slate::board_video::{StripLru, TokenCounter, MAX_STRIPS};
use slate::chrome::{ReadoutPanel, ToolPanel};
use slate::dispatch::{suppressed, SpaceInput, SpaceTap, SPACE_TAP_MAX_NANOS};

#[test]
fn effective_ortho_truth_table() {
    assert!(!effective_ortho(false, false));
    assert!(effective_ortho(false, true)); // one-shot Shift
    assert!(effective_ortho(true, false)); // persistent F8
    assert!(!effective_ortho(true, true)); // Shift inverts (Rhino)
}

#[test]
fn each_resize_handle_snaps_only_the_edges_it_moves() {
    let nw = ResizeSnapEdges::for_handle(0);
    assert_eq!(nw, ResizeSnapEdges { left: true, right: false, top: true, bottom: false });
    let e = ResizeSnapEdges::for_handle(3);
    assert_eq!(e, ResizeSnapEdges { left: false, right: true, top: false, bottom: false });
    let s = ResizeSnapEdges::for_handle(5);
    assert_eq!(s, ResizeSnapEdges { left: false, right: false, top: false, bottom: true });
    let w = ResizeSnapEdges::for_handle(7);
    assert_eq!(w, ResizeSnapEdges { left: true, right: false, top: false, bottom: false });
    for h in 0..=8u8 {
        let edges = ResizeSnapEdges::for_handle(h);
        assert!(!(edges.left && edges.right), "handle {h}");
        assert!(!(edges.top && edges.bottom), "handle {h}");
    }
    assert_ne!(GuideAxis::Vertical, GuideAxis::Horizontal);
    assert_ne!(Panel::Fill, Panel::Stroke);
}

#[test]
fn chrome_panels_have_their_labels() {
    assert_eq!(ReadoutPanel::Metrics.label(), "Metrics");
    assert_eq!(ReadoutPanel::LinkHealth.label(), "Link health");
    assert_eq!(ReadoutPanel::ALL.len(), 2);
    assert_eq!(ToolPanel::Selection, ToolPanel::Selection);
}

#[test]
fn arming_trim_sorts_the_selected_cutters() {
    let s = TrimSession::armed(&vec![9, 3, 7, 3]);
    assert_eq!(s.cutters, vec![3, 3, 7, 9]);
    assert_eq!(s.phase, TrimPhase::TrimParts);
    assert!(s.hover.is_none());
    let empty = TrimSession::armed(&Vec::new());
    assert_eq!(empty.phase, TrimPhase::PickCutters);
    assert_eq!(sort_ids(&vec![5, 1, 4]), vec![1, 4, 5]);
}

#[test]
fn enter_and_escape_walk_the_trim_phases() {
    let mut s = TrimSession::default();
    assert_eq!(s.enter(), TrimStep::Handled); // no cutters yet: stays
    assert_eq!(s.phase, TrimPhase::PickCutters);
    s.add_cutter(4);
    s.add_cutter(4);
    assert_eq!(s.cutters, vec![4]);
    s.set_hover(Some(TrimHover::Cutter(4)));
    assert_eq!(s.enter(), TrimStep::Handled);
    assert_eq!(s.phase, TrimPhase::TrimParts);
    assert!(s.hover.is_none());
    assert!(s.live_draft());
    assert_eq!(s.cancel_step(), TrimStep::Handled);
    assert_eq!(s.phase, TrimPhase::PickCutters);
    assert_eq!(s.cutters, vec![4]);
    assert!(!s.live_draft());
    assert_eq!(s.cancel_step(), TrimStep::Disarm);
    s.enter();
    assert_eq!(s.enter(), TrimStep::Disarm);
}

#[test]
fn tokens_count_up_and_skip_zero() {
    let mut c = TokenCounter::new();
    assert_eq!(c.next_token(), 1);
    assert_eq!(c.next_token(), 2);
    assert_eq!(c.next_token(), 3);
}

#[test]
fn the_oldest_idle_strips_are_evicted_first() {
    let mut lru = StripLru::new();
    for id in [1u64, 2, 3, 4] {
        lru.touch(id);
    }
    lru.touch(1); // order now 2, 3, 4, 1
    // Four resident, one more coming: two must go; 2 is playing.
    let victims = lru.evict(4, 9, Some(2), None);
    assert_eq!(victims, vec![3, 4]);
    // Below the cap nothing goes.
    assert!(lru.evict(MAX_STRIPS - 1, 9, None, None).is_empty());
    // Everything protected: nothing can go.
    let mut one = StripLru::new();
    one.touch(5);
    assert!(one.evict(3, 5, None, None).is_empty());
    one.forget(5);
    assert!(one.evict(3, 0, None, None).is_empty());
}

fn frame(pressed: bool, released: bool, pointer_down: bool, now_nanos: u64) -> SpaceInput {
    SpaceInput { pressed, released, pointer_down, blocked: false, now_nanos }
}

#[test]
fn a_quick_space_tap_repeats_and_a_hold_or_drag_does_not() {
    let mut t = SpaceTap::default();
    assert!(!t.frame(frame(true, false, false, 1_000)));
    assert!(t.frame(frame(false, true, false, 1_000 + SPACE_TAP_MAX_NANOS - 1)));

    let mut held = SpaceTap::idle();
    held.frame(frame(true, false, false, 0));
    assert!(!held.frame(frame(false, true, false, SPACE_TAP_MAX_NANOS)));

    let mut drag = SpaceTap::idle();
    drag.frame(frame(true, false, false, 0));
    drag.frame(frame(false, false, true, 10));
    drag.frame(frame(false, false, false, 20));
    assert!(!drag.frame(frame(false, true, false, 30)));

    let mut typing = SpaceTap::idle();
    let mut f = frame(true, false, false, 0);
    f.blocked = true;
    typing.frame(f);
    assert!(!typing.frame(frame(false, true, false, 5)));
}

#[test]
fn chords_yield_to_whatever_owns_the_keyboard() {
    // Palette owns everything.
    assert!(suppressed(true, false, false, false, true));
    // F-keys stay live while typing.
    assert!(!suppressed(true, false, true, true, false));
    // Ctrl chords only yield to a text field.
    assert!(suppressed(false, true, true, false, false));
    assert!(!suppressed(false, true, false, true, false));
    // Bare keys yield to typing and editing.
    assert!(suppressed(false, false, false, true, false));
    assert!(!suppressed(false, false, false, false, false));
}
