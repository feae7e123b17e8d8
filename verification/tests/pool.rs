use slate::web_pool::{admission_order, admit_to_pool, Candidate, LIVE_POOL};
use slate::web_pump::{plan_liveness, LiveAction};

/// Below this on-screen height a portal is not worth a live webview.
const LIVE_MIN_PX: f32 = 160.0;

/// An order key for a non-negative pixel area: the bits of a positive `f32`
/// order as the values do.
fn area_key(area: f32) -> u64 {
    if area > 0.0 {
        u64::from(area.to_bits())
    } else {
        0
    }
}

fn candidate(id: u64, height: f32, area: f32) -> Candidate {
    Candidate {
        id,
        area_rank: area_key(area),
        on_screen: true,
        focused: false,
        last_focus: None,
        renderable: true,
        was_live: false,
        lod_eligible: height >= LIVE_MIN_PX,
        has_height: height > 0.0,
    }
}

#[test]
fn a_hundred_tiled_pages_admit_only_the_pool() {
    let all: Vec<Candidate> =
        (0..100).map(|i| candidate(i, 400.0, 400.0 * (i as f32 + 1.0))).collect();
    let admitted = admit_to_pool(&all, LIVE_POOL);
    assert_eq!(admitted.len(), LIVE_POOL);
    // Biggest on screen win.
    assert_eq!(admitted[0], 99);
    assert_eq!(admitted[LIVE_POOL - 1], 100 - LIVE_POOL as u64);
}

#[test]
fn zoomed_out_or_off_screen_pages_run_nothing() {
    let tiny: Vec<Candidate> = (0..100).map(|i| candidate(i, 60.0, 3600.0)).collect();
    assert!(admit_to_pool(&tiny, LIVE_POOL).is_empty());
    let offscreen: Vec<Candidate> = (0..10)
        .map(|i| Candidate { on_screen: false, ..candidate(i, 600.0, 400_000.0) })
        .collect();
    assert!(admit_to_pool(&offscreen, LIVE_POOL).is_empty());
}

#[test]
fn input_focus_always_keeps_its_slot() {
    let mut all: Vec<Candidate> =
        (0..20).map(|i| candidate(i, 500.0, 500.0 * (i as f32 + 1.0))).collect();
    // The smallest portal on the board, but the one being typed into.
    all[0].focused = true;
    let admitted = admit_to_pool(&all, LIVE_POOL);
    assert_eq!(admitted[0], 0);
}

#[test]
fn oscillating_height_around_the_live_gate_does_not_evict() {
    let mut was_live = false;
    let mut evicts = 0;
    for height in [161.0, 159.0, 161.0, 159.0, 150.0] {
        let mut c = candidate(1, height, 10_000.0);
        c.was_live = was_live;
        let now_live = !admit_to_pool(&vec![c], LIVE_POOL).is_empty();
        if was_live && !now_live {
            evicts += 1;
        }
        was_live = now_live;
    }
    assert_eq!(evicts, 0, "Schmitt trigger must hold the slot across 160 px");
    let mut demoted = candidate(1, 120.0, 10_000.0);
    demoted.was_live = true;
    assert!(
        !admit_to_pool(&vec![demoted], LIVE_POOL).is_empty(),
        "zoom alone must not destroy the running browser"
    );
}

#[test]
fn a_portal_that_cannot_render_never_takes_a_slot() {
    let blocked: Vec<Candidate> = (0..3)
        .map(|i| Candidate { renderable: false, ..candidate(i, 600.0, 400_000.0) })
        .collect();
    assert!(admit_to_pool(&blocked, LIVE_POOL).is_empty());
}

#[test]
fn ties_go_to_the_latest_focus_then_to_listing_order() {
    let mut a = candidate(1, 400.0, 1000.0);
    let mut b = candidate(2, 400.0, 1000.0);
    let c = candidate(3, 400.0, 1000.0);
    a.last_focus = Some(5);
    b.last_focus = Some(9);
    let order = admission_order(&vec![a, b, c]);
    assert_eq!(order, vec![1, 0, 2]);
    assert_eq!(admit_to_pool(&vec![a, b, c], 2), vec![2, 1]);
    assert!(admit_to_pool(&vec![a, b, c], 0).is_empty());
}

#[test]
fn after_a_frame_only_admitted_pages_are_live() {
    // Ten pages, every one of them live last frame.
    let all: Vec<Candidate> = (0..10)
        .map(|i| Candidate { was_live: true, ..candidate(i, 400.0, 400.0 * (i as f32 + 1.0)) })
        .collect();
    let ids: Vec<u64> = all.iter().map(|c| c.id).collect();
    let was_live = vec![true; ids.len()];
    let admitted = admit_to_pool(&all, LIVE_POOL);
    let actions = plan_liveness(&ids, &admitted, &was_live);
    let live: Vec<u64> = ids
        .iter()
        .zip(&actions)
        .zip(&was_live)
        .filter(|((_, a), w)| match a {
            LiveAction::Admit => true,
            LiveAction::Evict => false,
            LiveAction::Keep => **w,
        })
        .map(|((id, _), _)| *id)
        .collect();
    assert_eq!(live.len(), LIVE_POOL);
    assert!(live.iter().all(|id| admitted.contains(id)));
}
