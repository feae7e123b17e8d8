use slate::board_video::{
    video_event_step, PlayFacts, StripFacts, VideoAction, VideoEventKind, VideoFacts,
};
use slate::web_pump::{
    cap_backlog, plan_liveness, plan_views, upload_queue, LiveAction, PortalView, UploadFacts,
    UploadRound, UploadStep,
};

fn portal(id: u64, key: &str, locator: &str) -> PortalView {
    PortalView { id, key: key.to_string(), locator: locator.to_string() }
}

#[test]
fn views_are_dropped_rebuilt_or_kept_by_their_key() {
    let views = vec![
        (1u64, "a.html|index.html|800|fit".to_string()),
        (2, "b.html|index.html|800|fit".to_string()),
        (3, "c.html|index.html|800|fit".to_string()),
    ];
    let portals = vec![
        portal(1, "a.html|index.html|800|fit", "a.html"), // unchanged
        portal(2, "b.html|index.html|1024|fit", "b.html"), // viewport changed
        portal(4, "d.html|index.html|800|fit", "d.html"), // new
    ];
    let plan = plan_views(&views, &portals, Some(3));
    assert_eq!(plan.dropped, vec![3]);
    assert_eq!(plan.rebuilt, vec![(2, true), (4, false)]);
    assert!(plan.blur, "the focused portal left the board");

    // A different source never inherits another page's poster.
    let moved = vec![portal(1, "z.html|index.html|800|fit", "z.html")];
    let plan = plan_views(&views, &moved, Some(1));
    assert_eq!(plan.rebuilt, vec![(1, false)]);
    assert!(!plan.blur);
    // "a.html" is a prefix of "a.html2", but not of its locator key.
    let prefix = vec![portal(1, "a.html2|index.html|800|fit", "a.html2")];
    assert_eq!(plan_views(&views, &prefix, None).rebuilt, vec![(1, false)]);

    let none: Vec<PortalView> = Vec::new();
    let plan = plan_views(&views, &none, None);
    assert_eq!(plan.dropped, vec![1, 2, 3]);
    assert!(plan.blur);
    assert!(!plan_views(&Vec::new(), &none, Some(1)).blur);
}

#[test]
fn admission_admits_evicts_or_keeps() {
    let actions = plan_liveness(&vec![1, 2, 3], &vec![3, 1], &vec![false, true, true]);
    assert_eq!(actions, vec![LiveAction::Admit, LiveAction::Evict, LiveAction::Admit]);
    assert_eq!(plan_liveness(&vec![5], &vec![], &vec![false]), vec![LiveAction::Keep]);
}

#[test]
fn the_upload_queue_puts_the_backlog_first_and_focus_in_front() {
    assert_eq!(upload_queue(vec![4, 2], &vec![2, 7, 7, 9], None), vec![4, 2, 7, 9]);
    assert_eq!(upload_queue(vec![4, 2], &vec![2, 7, 9], Some(9)), vec![9, 4, 2, 7]);
    assert_eq!(upload_queue(vec![4], &vec![], Some(8)), vec![4]);
    assert_eq!(cap_backlog(vec![1, 2, 3, 4, 5], 3), vec![3, 4, 5]);
    assert_eq!(cap_backlog(vec![1, 2], 3), vec![1, 2]);
}

fn live(since_probe: Option<u64>) -> UploadFacts {
    UploadFacts {
        has_view: true,
        live: true,
        small: false,
        focused: false,
        interactive: false,
        since_probe,
        interval: 33_000_000,
    }
}

#[test]
fn the_upload_budget_is_spent_and_the_rest_carried() {
    let mut round = UploadRound::new(2);
    assert_eq!(round.step(1, live(None)), UploadStep::Probe);
    round.probed(1, true, true, 33_000_000);
    assert_eq!(round.step(2, live(Some(10_000_000))), UploadStep::Carry { due: 23_000_000 });
    assert_eq!(round.step(3, UploadFacts { live: false, ..live(None) }), UploadStep::Skip);
    assert_eq!(round.step(4, UploadFacts { small: true, ..live(None) }), UploadStep::Skip);
    assert_eq!(
        round.step(5, UploadFacts { small: true, focused: true, interactive: true, ..live(Some(1)) }),
        UploadStep::Probe
    );
    round.probed(5, false, true, 16_000_000);
    assert_eq!(round.step(6, live(None)), UploadStep::Probe);
    round.probed(6, true, true, 33_000_000);
    assert_eq!(round.step(7, live(None)), UploadStep::Carry { due: 0 });
    let (backlog, due) = round.finish(2);
    assert_eq!(backlog, vec![5, 7], "the newest carried are kept");
    assert_eq!(due, Some(0));
}

fn strip(token: u64) -> StripFacts {
    StripFacts { token, probed: false, done: false, inflight: true, failed: false, slots: 8 }
}

#[test]
fn decoder_events_answer_only_their_own_request() {
    let s = VideoFacts { strip: Some(strip(3)), play: Some(PlayFacts { id: 1, token: 4 }) };
    let (f, a) = video_event_step(&s, VideoEventKind::Probed { id: 1, token: 3 });
    assert_eq!(a, VideoAction::Probed { strip: true, play: false });
    assert!(f.strip.unwrap().probed);
    let (_, a) = video_event_step(&s, VideoEventKind::Probed { id: 1, token: 4 });
    assert_eq!(a, VideoAction::Probed { strip: false, play: true });
    assert_eq!(video_event_step(&s, VideoEventKind::Strip { id: 1, token: 3, index: 7 }).1, VideoAction::StoreSlot { index: 7 });
    assert_eq!(video_event_step(&s, VideoEventKind::Strip { id: 1, token: 3, index: 8 }).1, VideoAction::Ignore);
    assert_eq!(video_event_step(&s, VideoEventKind::Strip { id: 1, token: 2, index: 0 }).1, VideoAction::Ignore);
    let (f, a) = video_event_step(&s, VideoEventKind::StripDone { id: 1, token: 3 });
    assert_eq!(a, VideoAction::StripChanged);
    assert!(f.strip.unwrap().done && !f.strip.unwrap().inflight);
    assert_eq!(video_event_step(&s, VideoEventKind::Play { id: 1, token: 4 }).1, VideoAction::ShowFrame);
    assert_eq!(video_event_step(&s, VideoEventKind::Play { id: 2, token: 4 }).1, VideoAction::Ignore);
    let (f, a) = video_event_step(&s, VideoEventKind::Ended { id: 1, token: 4 });
    assert_eq!(a, VideoAction::StopPlayback { at_end: true });
    assert!(f.play.is_none());
}

#[test]
fn a_failed_play_fails_only_an_unprobed_strip() {
    let s = VideoFacts { strip: Some(strip(3)), play: Some(PlayFacts { id: 1, token: 4 }) };
    let (f, a) = video_event_step(&s, VideoEventKind::Failed { id: 1, token: 4 });
    assert_eq!(a, VideoAction::StopPlayback { at_end: false });
    assert!(f.play.is_none() && f.strip.unwrap().failed && !f.strip.unwrap().inflight);
    let probed = VideoFacts { strip: Some(StripFacts { probed: true, ..strip(3) }), ..s };
    let (f, _) = video_event_step(&probed, VideoEventKind::Failed { id: 1, token: 4 });
    assert!(!f.strip.unwrap().failed, "a filmstrip that opened the file can still scrub");
    let (f, a) = video_event_step(&s, VideoEventKind::Failed { id: 1, token: 3 });
    assert_eq!(a, VideoAction::StripChanged);
    assert!(f.strip.unwrap().failed && f.play.is_some());
    let failed = VideoFacts { strip: Some(StripFacts { failed: true, ..strip(3) }), play: None };
    assert_eq!(video_event_step(&failed, VideoEventKind::Strip { id: 1, token: 3, index: 0 }).1, VideoAction::Ignore);
    assert_eq!(video_event_step(&failed, VideoEventKind::Ended { id: 1, token: 3 }), (failed, VideoAction::Ignore));
}
