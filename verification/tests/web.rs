use slate::board_web::{
    ago, resolve_web_source, same_page, web_frame_has_content, web_source_locator, NullHost,
    SourceWatch, WebHealth, WebLod, WebState,
};
use slate::board_web_stills::{entry_path, fnv64, StillCache, FNV_SEED_A};
use slate::board_web_win::{json_escape, navigate_uri, wide};
use slate::external_drop::{
    accepts, drop_effect, drop_text, uri_list_text, DROP_EFFECT_COPY, DROP_EFFECT_LINK,
    DROP_EFFECT_NONE,
};
use slate::web_consent::WebConsent;
use slate::board_web::{page_input_is_interactive, web_state_for, PageInputKind, SourceClass, WebFacts};
use slate::board_web_stills::{prune_after, prune_plan, BUDGET_BYTES};
use slate::board_web_win::bgra_to_rgba;
use slate::web_links::{link_slots, TableWire};
use slate::board_web::{PageEvent, PagePointer, PointerFrame, PointerRoute};

#[test]
fn locators_resolve_workbook_relative_first() {
    let wb = "/work/deck.slate";
    assert_eq!(resolve_web_source(Some(wb), "dash/index.html"), "/work/dash/index.html");
    assert_eq!(web_source_locator(Some(wb), "/work/dash/index.html"), "dash/index.html");
    // Outside the workbook, an absolute path is the honest answer.
    let outside = "/elsewhere/index.html";
    assert_eq!(web_source_locator(Some(wb), outside), outside);
}

#[test]
fn remote_and_absolute_locators_pass_through() {
    assert_eq!(
        resolve_web_source(Some("/work/deck.slate"), "https://example.com/a"),
        "https://example.com/a"
    );
    assert_eq!(resolve_web_source(Some("/work/deck.slate"), "/abs/x.html"), "/abs/x.html");
    assert_eq!(resolve_web_source(None, "dash/index.html"), "dash/index.html");
    assert_eq!(web_source_locator(None, "/work/dash/index.html"), "/work/dash/index.html");
}

#[test]
fn a_windows_path_becomes_a_file_uri_and_a_url_is_left_alone() {
    assert_eq!(navigate_uri(r"C:\dash boards\index.html"), "file:///C:/dash%20boards/index.html");
    assert_eq!(navigate_uri("https://example.com/a?b=1"), "https://example.com/a?b=1");
    assert_eq!(
        navigate_uri("file:///C:/x.html"),
        "file:///C:/x.html",
        "an already-formed file URI is not re-encoded"
    );
}

#[test]
fn navigate_uri_escapes_what_a_uri_cannot_carry() {
    assert_eq!(navigate_uri("a#b?c%d"), "file:///a%23b%3Fc%25d");
    assert_eq!(navigate_uri("ABOUT:blank"), "ABOUT:blank");
}

#[test]
fn json_escape_quotes_controls_and_backslashes() {
    assert_eq!(json_escape("a\"b\\c\nd\re\tf"), "a\\\"b\\\\c\\nd\\re\\tf");
    assert_eq!(json_escape("\u{1}x"), "\\u0001x");
    assert_eq!(json_escape("plain ü"), "plain ü");
}

#[test]
fn wide_strings_end_in_a_nul() {
    assert_eq!(wide("hi"), vec![104, 105, 0]);
    assert_eq!(wide("\u{1F600}"), vec![0xD83D, 0xDE00, 0]);
}

#[test]
fn poster_ages_read_in_the_largest_whole_unit() {
    assert_eq!(ago(0), "0s");
    assert_eq!(ago(59), "59s");
    assert_eq!(ago(60), "1m");
    assert_eq!(ago(3599), "59m");
    assert_eq!(ago(3600), "1h");
    assert_eq!(ago(86_399), "23h");
    assert_eq!(ago(86_400), "1d");
    assert_eq!(ago(10 * 86_400 + 5), "10d");
}

#[test]
fn every_state_has_a_word_and_one_of_three_dots() {
    assert_eq!(WebState::Unbound.label(), "unbound");
    assert_eq!(WebState::Unknown.label(), "resolving…");
    assert_eq!(
        WebState::Blocked { origin: "https://a.test".to_string() }.label(),
        "blocked · https://a.test"
    );
    assert_eq!(WebState::Refused { reason: "not html".to_string() }.label(), "refused · not html");
    assert_eq!(WebState::NoRuntime.label(), "no WebView2 runtime");
    assert_eq!(WebState::TooSmall.label(), "zoom in to run");
    let poster = WebState::Poster { captured: std::time::Instant::now() };
    assert_eq!(poster.label_aged(125), "poster · 2m");
    assert!(poster.label().starts_with("poster · "));
    assert_eq!(WebState::Live.health(), WebHealth::Good);
    assert_eq!(WebState::Loading.health(), WebHealth::Good);
    assert_eq!(poster.health(), WebHealth::Good);
    assert_eq!(WebState::Missing { locator: "x".to_string() }.health(), WebHealth::Missing);
    assert_eq!(WebState::Unbound.health(), WebHealth::Unknown);
    assert_ne!(WebLod::Strip, WebLod::Eligible);
    assert!(!NullHost.available());
}

#[test]
fn the_same_page_ignores_file_form_slashes_and_case() {
    assert!(same_page("C:\\Dash\\index.html", "file:///c:/dash/index.html"));
    assert!(same_page("https://Example.com/", "https://example.com"));
    assert!(!same_page("https://example.com/a", "https://example.com/b"));
}

#[test]
fn blank_frames_are_not_content() {
    let black = [0u8, 0, 0, 255];
    let white = [255u8, 255, 255, 255];
    let red = [255u8, 0, 0, 255];
    assert!(!web_frame_has_content(0, 1, &[red]));
    assert!(!web_frame_has_content(2, 1, &[black, black]));
    assert!(!web_frame_has_content(2, 1, &[white, [0, 0, 0, 0]]));
    assert!(web_frame_has_content(2, 1, &[white, red]));
    assert!(web_frame_has_content(2, 1, &[red, red]));
    assert!(!web_frame_has_content(1, 1, &[[9, 9, 9, 0]]));
}

#[test]
fn a_stale_probe_is_dropped_and_a_new_mtime_reloads() {
    let mut w = SourceWatch {
        generation: 3,
        poll_inflight: true,
        source_exists: None,
        source_mtime: None,
        reload_pending: false,
    };
    assert!(!w.apply_poll(2, true, Some((1, 0))));
    assert!(w.poll_inflight);
    assert!(!w.apply_poll(3, true, Some((10, 5))));
    assert_eq!(w.source_exists, Some(true));
    assert!(!w.poll_inflight);
    assert!(!w.reload_pending, "the first time seen is no change");
    assert!(!w.apply_poll(3, true, Some((10, 5))));
    assert!(w.apply_poll(3, true, Some((11, 0))));
    assert!(w.reload_pending);
}

#[test]
fn consent_returns_for_the_same_workbook_in_a_later_session_only() {
    let board = "/tmp/board.slate";
    let other = "/tmp/other.slate";
    let origin = "https://en.wikipedia.org";

    let mut first = WebConsent::new();
    first.use_consent_file(Vec::new());
    first.set_consent_workbook(Some(board));
    assert!(first.grant_consent(origin), "the store must be written");
    assert!(first.has_consent(origin));
    let file = first.saved_grants();

    let mut later = WebConsent::new();
    later.use_consent_file(file.clone());
    later.set_consent_workbook(Some(board));
    assert!(later.has_consent(origin), "the same user reopening the board");
    later.set_consent_workbook(Some(other));
    assert!(!later.has_consent(origin), "grants never spread to other boards");

    let mut elsewhere = WebConsent::new();
    elsewhere.set_consent_workbook(Some(board));
    assert!(!elsewhere.has_consent(origin), "no store, no inherited trust");

    later.set_consent_workbook(Some(board));
    assert!(later.revoke_consent(origin));
    let file = later.saved_grants();
    let mut after = WebConsent::new();
    after.use_consent_file(file);
    after.set_consent_workbook(Some(board));
    assert!(!after.has_consent(origin));
}

#[test]
fn a_session_grant_without_a_store_is_not_saved() {
    let mut c = WebConsent::new();
    c.set_consent_workbook(Some("/tmp/a.slate"));
    assert!(!c.grant_consent("https://a.test"), "nothing to write");
    assert!(c.has_consent("https://a.test"));
    c.set_consent_workbook(Some("/tmp/b.slate"));
    assert!(c.has_consent("https://a.test"), "a session grant holds all session");
    assert!(c.saved_grants().is_empty());
    assert!(!c.revoke_consent("https://a.test"));
    assert!(!c.has_consent("https://a.test"));
}

#[test]
fn a_key_follows_the_page_and_nothing_else() {
    let a = StillCache::key("https://example.com/a");
    let b = StillCache::key("https://example.com/b");
    assert_ne!(a, b);
    assert_eq!(a, StillCache::key("https://example.com/a"));
    assert_eq!(a.len(), 32);
}

#[test]
fn a_page_that_recaptures_all_day_is_written_once() {
    let mut cache = StillCache::new();
    let key = StillCache::key("https://example.com/busy");
    let mut writes = 0;
    for _ in 0..20u8 {
        if cache.store(&key) {
            writes += 1;
        }
    }
    assert_eq!(writes, 1);
    assert_eq!(cache.stored_len(), 1);
}

#[test]
fn a_card_is_asked_for_once_per_session_until_forgotten() {
    let mut cache = StillCache::new();
    let key = StillCache::key("https://example.com/dash");
    assert!(cache.request(&key));
    assert!(!cache.request(&key));
    cache.forget(&key);
    assert!(cache.request(&key));
    cache.note_hits(2);
    assert_eq!(cache.hits(), 2);
    let mut off = StillCache::disabled();
    assert!(!off.request(&key));
    assert!(!off.store(&key));
}

#[test]
fn fnv_and_entry_paths_are_stable() {
    // The empty input hashes to its seed; one byte is xor, then multiply.
    assert_eq!(fnv64(b"", FNV_SEED_A), 0xcbf2_9ce4_8422_2325);
    assert_eq!(fnv64(b"a", FNV_SEED_A), 12_642_967_877_113_212_044);
    assert_eq!(entry_path("/cache", "abc"), "/cache/abc.jpg");
}

fn utf16le(text: &str) -> Vec<u8> {
    text.encode_utf16()
        .chain(std::iter::once(0))
        .flat_map(u16::to_le_bytes)
        .collect()
}

#[test]
fn dropped_text_is_read_up_to_its_terminator() {
    let url = "https://example.com/path?q=1#anchor";
    assert_eq!(drop_text(&utf16le(url), true).as_deref(), Some(url));
    assert_eq!(drop_text(b"abc\0junk", false).as_deref(), Some("abc"));
    assert_eq!(drop_text(b"abc", false).as_deref(), Some("abc"));
    // No terminator in wide text, an odd size, nothing at all, or too much.
    assert!(drop_text(&[0x41, 0x00], true).is_none());
    assert!(drop_text(&[0x41, 0x00, 0x00], true).is_none());
    assert!(drop_text(&[], false).is_none());
    assert!(drop_text(&vec![0x41; 131_076], false).is_none());
    // Invalid encodings.
    assert!(drop_text(&[0xFF, 0xFE, 0x00], false).is_none());
    assert!(drop_text(&[0x00, 0xD8, 0x00, 0x00], true).is_none());
}

#[test]
fn a_uri_list_keeps_only_its_urls() {
    assert_eq!(uri_list_text("# comment\r\nhttps://a.test\r\n"), "https://a.test");
    assert_eq!(
        uri_list_text("https://a.test\n\n  \n#x\nhttps://b.test"),
        "https://a.test\nhttps://b.test"
    );
    assert_eq!(uri_list_text("# only a comment"), "");
}

#[test]
fn drops_are_taken_with_room_and_answered_with_an_offered_effect() {
    assert!(accepts(0, true, false));
    assert!(accepts(15, false, true));
    assert!(!accepts(16, true, true));
    assert!(!accepts(0, false, false));
    assert_eq!(drop_effect(true, DROP_EFFECT_COPY | DROP_EFFECT_LINK), DROP_EFFECT_COPY);
    assert_eq!(drop_effect(true, DROP_EFFECT_LINK), DROP_EFFECT_LINK);
    assert_eq!(drop_effect(true, 2), DROP_EFFECT_NONE);
    assert_eq!(drop_effect(false, DROP_EFFECT_COPY), DROP_EFFECT_NONE);
}


fn facts(class: SourceClass) -> WebFacts {
    WebFacts {
        locator: "dash/index.html".to_string(),
        class,
        host_ok: true,
        load_error: None,
        interactive_allowed: true,
        poster_at: None,
        on_screen: true,
        focused: false,
        live: false,
        lod_eligible: true,
        too_small: false,
    }
}

#[test]
fn a_portal_state_follows_source_consent_runtime_and_pool() {
    let consent = WebConsent::new();
    let (s, competes) = web_state_for(facts(SourceClass::Unbound), &consent);
    assert!(matches!(s, WebState::Unbound) && !competes);
    let (s, _) = web_state_for(facts(SourceClass::Unusable), &consent);
    assert!(matches!(s, WebState::Missing { ref locator } if locator == "dash/index.html"));
    let (s, _) = web_state_for(facts(SourceClass::Refused("not a page".to_string())), &consent);
    assert!(matches!(s, WebState::Refused { ref reason } if reason == "not a page"));
    let remote = || SourceClass::Remote { origin: Some("https://a.test".to_string()) };
    let (s, competes) = web_state_for(facts(remote()), &consent);
    assert!(matches!(s, WebState::Blocked { ref origin } if origin == "https://a.test") && !competes);
    let mut allowed = WebConsent::new();
    allowed.grant_consent("https://a.test");
    let (s, competes) = web_state_for(facts(remote()), &allowed);
    assert!(matches!(s, WebState::Budgeted) && competes);
    let (s, _) = web_state_for(facts(SourceClass::Local { exists: Some(false) }), &consent);
    assert!(matches!(s, WebState::Missing { .. }));
    let mut f = facts(SourceClass::Local { exists: Some(true) });
    f.host_ok = false;
    assert!(matches!(web_state_for(f, &consent).0, WebState::NoRuntime));
    let mut f = facts(SourceClass::Local { exists: None });
    f.load_error = Some("net error".to_string());
    let (s, competes) = web_state_for(f, &consent);
    assert!(matches!(s, WebState::Missing { ref locator } if locator == "net error") && competes);
    let mut f = facts(SourceClass::Local { exists: None });
    f.interactive_allowed = false;
    assert!(matches!(web_state_for(f, &consent).0, WebState::Loading));
    let mut f = facts(SourceClass::Local { exists: None });
    f.lod_eligible = false;
    f.too_small = true;
    assert!(matches!(web_state_for(f, &consent).0, WebState::TooSmall));
    let mut f = facts(SourceClass::Local { exists: None });
    f.on_screen = false;
    f.poster_at = Some(std::time::Instant::now());
    assert!(matches!(web_state_for(f, &consent).0, WebState::Poster { .. }));
    let mut f = facts(SourceClass::Local { exists: None });
    f.live = true;
    assert!(matches!(web_state_for(f, &consent).0, WebState::Loading));
    let mut f = facts(SourceClass::Local { exists: None });
    f.live = true;
    f.poster_at = Some(std::time::Instant::now());
    assert!(matches!(web_state_for(f, &consent).0, WebState::Live));
    let mut f = facts(SourceClass::Local { exists: None });
    f.lod_eligible = false;
    f.focused = true;
    assert!(matches!(web_state_for(f, &consent).0, WebState::Budgeted), "focus overrides size");
}

#[test]
fn captured_bgra_rows_become_rgba_pixels() {
    // Two pixels per row, rows eight bytes apart plus four bytes of padding.
    let data = [
        1, 2, 3, 4, 5, 6, 7, 8, 0, 0, 0, 0, //
        9, 10, 11, 12, 13, 14, 15, 16, 0, 0, 0, 0,
    ];
    let px = bgra_to_rgba(&data, 12, 2, 2);
    assert_eq!(px, vec![[3, 2, 1, 4], [7, 6, 5, 8], [11, 10, 9, 12], [15, 14, 13, 16]]);
    assert!(bgra_to_rgba(&[], 0, 5, 0).is_empty());
}

#[test]
fn the_card_folder_drops_its_oldest_files_first() {
    assert!(prune_plan(&vec![(5, 10), (1, 10)], 20).is_none());
    let files = vec![(30u128, 4u64), (10, 5), (20, 6), (10, 7)];
    let (order, over) = prune_plan(&files, 12).unwrap();
    assert_eq!(order, vec![1, 3, 2, 0]);
    assert_eq!(over, 10);
    assert_eq!(prune_after(10, 5, true), 5);
    assert_eq!(prune_after(5, 7, true), 0);
    assert_eq!(prune_after(5, 7, false), 5);
    assert_eq!(BUDGET_BYTES, 128 * 1024 * 1024);
}

#[test]
fn only_real_work_on_a_page_counts_as_interaction() {
    assert!(page_input_is_interactive(PageInputKind::Wheel));
    assert!(page_input_is_interactive(PageInputKind::Text));
    assert!(page_input_is_interactive(PageInputKind::Move { buttons: 1 }));
    assert!(!page_input_is_interactive(PageInputKind::Move { buttons: 0 }));
    assert!(!page_input_is_interactive(PageInputKind::Leave));
}

fn wire(order: Vec<u64>, slot: Option<&str>, wire: u64, source: u64) -> TableWire {
    TableWire { order, slot: slot.map(str::to_string), wire, source }
}

#[test]
fn page_inputs_are_read_in_wire_order_and_named_once() {
    let ws = vec![
        wire(vec![2], Some("sales"), 10, 100),
        wire(vec![], None, 1, 101),
        wire(vec![1, 5], Some(""), 12, 102),
        wire(vec![2], Some("sales"), 13, 103),
    ];
    let (order, names) = link_slots(&ws);
    // Keys: [2], [1], [1, 5], [2]: [1] < [1, 5] < [2] = [2].
    assert_eq!(order, vec![1, 2, 0, 3]);
    assert_eq!(names, vec!["data", "data-2", "sales", "sales-4"]);
}

#[test]
fn a_relative_locator_comes_back_from_its_resolved_path() {
    for wb in [Some("/work/deck.slate"), Some("C:\\work\\deck.slate"), Some("deck.slate"), None] {
        for locator in ["dash/index.html", "a b/c.htm", "index.html"] {
            let path = resolve_web_source(wb, locator);
            assert_eq!(web_source_locator(wb, &path), locator, "{wb:?} {locator}");
        }
    }
    assert_eq!(resolve_web_source(Some("C:\\work\\deck.slate"), "x.html"), "C:\\work/x.html");
}

#[test]
fn a_path_inside_the_workbook_folder_resolves_back() {
    let wb = Some("/work/deck.slate");
    for path in ["/work/dash/index.html", "/work/a b.html"] {
        let locator = web_source_locator(wb, path);
        assert_eq!(resolve_web_source(wb, &locator), path);
    }
}

#[test]
fn card_keys_are_lower_case_hex() {
    let k = StillCache::key("https://example.com/a");
    assert!(k.chars().all(|c| c.is_ascii_digit() || ('a'..='f').contains(&c)));
}

fn solid(rgba: [u8; 4]) -> Vec<[u8; 4]> {
    vec![rgba; 64]
}

#[test]
fn blank_capture_and_refresh_never_replace_the_last_good_poster() {
    // Transparent, black and white captures are blank: they never replace a
    // poster that was captured before.
    for clear in [[0u8, 0, 0, 0], [0, 0, 0, 255], [255, 255, 255, 255]] {
        assert!(!web_frame_has_content(8, 8, &solid(clear)));
    }
    let red = solid([255, 0, 0, 255]);
    assert!(web_frame_has_content(8, 8, &red));
    let mut page = solid([255, 255, 255, 255]);
    page[0] = [0, 0, 0, 255];
    assert!(web_frame_has_content(8, 8, &page), "a white page with content is valid");
}

#[test]
fn page_scroll_is_interactive_hover_is_not() {
    assert!(page_input_is_interactive(PageInputKind::Wheel));
    assert!(!page_input_is_interactive(PageInputKind::Move { buttons: 0 }));
    assert!(page_input_is_interactive(PageInputKind::Move { buttons: 1 }));
}

#[test]
fn web_url_drop_ole_decodes_browser_url_and_selected_unicode_text() {
    let url = "https://example.com/path?q=1#anchor";
    // Both the browser's URL format and plain Unicode text are wide.
    for _format in 0..2 {
        assert_eq!(drop_text(&utf16le(url), true).as_deref(), Some(url));
    }
    let uri = format!("# comment\r\n{url}\r\n\0").into_bytes();
    let text = drop_text(&uri, false).unwrap();
    assert_eq!(uri_list_text(&text), url);
    let two = drop_text(b"https://a.test\nhttps://b.test\0", false).unwrap();
    assert_eq!(uri_list_text(&two), "https://a.test\nhttps://b.test");
    assert_eq!(drop_text(&utf16le("ordinary text"), true).as_deref(), Some("ordinary text"));
    assert!(drop_text(&vec![0x41; 131_076], true).is_none());
}

#[test]
fn a_doubled_separator_inside_the_folder_is_dropped() {
    let wb = Some("/work/deck.slate");
    assert_eq!(web_source_locator(wb, "/work//x"), "x");
    assert_eq!(resolve_web_source(wb, &web_source_locator(wb, "/work//x")), "/work/x");
    assert_eq!(web_source_locator(wb, "/work\\/x"), "x");
}


fn frame(inside: bool) -> PointerFrame {
    PointerFrame {
        inside,
        primary_pressed: false,
        primary_released: false,
        middle_pressed: false,
        middle_released: false,
        wheel_y: false,
        wheel_x: false,
        command: false,
    }
}

#[test]
fn a_drag_from_the_page_keeps_its_events_until_released() {
    let mut p = PagePointer::new();
    let (route, ev) = p.step(PointerFrame { primary_pressed: true, ..frame(true) });
    assert_eq!(route, PointerRoute::ToPage);
    assert_eq!(ev, vec![PageEvent::Move { buttons: 1 }, PageEvent::Down { button: 0 }]);
    assert_eq!(p, PagePointer { inside: true, buttons: 1 });
    // Dragged outside: still the page's.
    let (route, ev) = p.step(frame(false));
    assert_eq!(route, PointerRoute::ToPage);
    assert_eq!(ev, vec![PageEvent::Move { buttons: 1 }]);
    let (route, ev) = p.step(PointerFrame { primary_released: true, ..frame(false) });
    assert_eq!(route, PointerRoute::ToPage);
    assert_eq!(ev, vec![PageEvent::Move { buttons: 0 }, PageEvent::Up { button: 0 }]);
    // Released outside: the page is told the pointer left, once.
    assert_eq!(p.step(frame(false)).0, PointerRoute::Leave);
    assert_eq!(p, PagePointer { inside: false, buttons: 0 });
    assert_eq!(p.step(frame(false)).0, PointerRoute::Elsewhere);
    // A click outside gives up focus.
    let (route, ev) = p.step(PointerFrame { primary_pressed: true, ..frame(false) });
    assert_eq!(route, PointerRoute::Blur);
    assert!(ev.is_empty());
}

#[test]
fn the_wheel_goes_to_the_page_unless_the_board_zooms() {
    let mut p = PagePointer::new();
    let (_, ev) = p.step(PointerFrame { wheel_y: true, wheel_x: true, ..frame(true) });
    assert_eq!(
        ev,
        vec![
            PageEvent::Move { buttons: 0 },
            PageEvent::Wheel { horizontal: false },
            PageEvent::Wheel { horizontal: true }
        ]
    );
    let (_, ev) = p.step(PointerFrame { wheel_y: true, command: true, middle_pressed: true, ..frame(true) });
    assert_eq!(ev, vec![PageEvent::Move { buttons: 4 }, PageEvent::Down { button: 2 }]);
}
