use spatializer::mouse::{ButtonActions, MouseButtons, BTN_LEFT, BTN_MIDDLE, BTN_RIGHT};
use spatializer::frame::{frame, frame_length, length_header};
use spatializer::button::ButtonBlot;
use spatializer::device::{apply_state_change, StateChange};
use spatializer::hover::{HoverDecision, HoverRouter};
use spatializer::keymap::WlHandler;
use spatializer::ray::{IntersectionResult, Vec3};
use spatializer::registry::Registry;

fn result(hit: bool, d: i64) -> IntersectionResult {
    IntersectionResult {
        hit,
        min_distance: 0,
        deepest_point_distance: d,
        ray_origin: Vec3 { x: 0, y: 0, z: 0 },
        ray_direction: Vec3 { x: 0, y: 0, z: -1_000_000 },
    }
}

#[test]
fn registry_upsert_remove_and_snapshot() {
    let mut r: Registry<String> = Registry::new();
    r.upsert(7, "first".to_string());
    r.upsert(3, "other".to_string());
    r.upsert(7, "second".to_string());
    assert_eq!(r.len(), 2);
    assert_eq!(r.get(7), Some(&"second".to_string()));
    let mut ids = r.ids();
    ids.sort();
    assert_eq!(ids, vec![3, 7]);
    r.remove(7);
    r.remove(42);
    assert!(!r.contains(7));
    assert!(r.contains(3));
    assert_eq!(r.get(7), None);
    assert_eq!(r.ids(), vec![3]);
}

#[test]
fn hover_router_resets_previous_target() {
    let mut h = HoverRouter::new();
    assert_eq!(h.route(Some(1)), HoverDecision { target: Some(1), reset: None });
    assert_eq!(h.route(Some(1)), HoverDecision { target: Some(1), reset: None });
    assert_eq!(h.route(None), HoverDecision { target: None, reset: None });
    assert_eq!(h.last, Some(1));
    assert_eq!(h.route(Some(2)), HoverDecision { target: Some(2), reset: Some(1) });
    assert_eq!(h.last, Some(2));
}

#[test]
fn hover_router_routes_closest_result() {
    let mut h = HoverRouter::new();
    let rs = vec![(1, result(true, 5_000_000)), (2, result(true, 2_000_000))];
    assert_eq!(h.route_results(&rs, 1_000), HoverDecision { target: Some(2), reset: None });
    let rs = vec![(1, result(true, 1_000_000)), (2, result(true, 2_000_000))];
    assert_eq!(h.route_results(&rs, 1_000), HoverDecision { target: Some(1), reset: Some(2) });
    let rs = vec![(1, result(false, 1_000_000))];
    assert_eq!(h.route_results(&rs, 1_000), HoverDecision { target: None, reset: None });
    assert_eq!(h.last, Some(1));
}

#[test]
fn state_changes_drive_the_input_loop() {
    assert_eq!(apply_state_change(false, None), Some(false));
    assert_eq!(apply_state_change(true, None), Some(true));
    assert_eq!(apply_state_change(false, Some(StateChange::Enable)), Some(true));
    assert_eq!(apply_state_change(true, Some(StateChange::Disable)), Some(false));
    assert_eq!(apply_state_change(true, Some(StateChange::Stop)), None);
}

#[test]
fn keymap_loses_trailing_nuls_only() {
    let mut h = WlHandler::new();
    assert!(h.keymap.is_none());
    h.store_keymap(vec![b'x', 0, b'k', 0, 0]);
    assert_eq!(h.keymap, Some(vec![b'x', 0, b'k']));
    h.store_keymap(vec![0, 0]);
    assert_eq!(h.keymap, Some(vec![]));
    h.store_keymap(b"keymap".to_vec());
    assert_eq!(h.keymap, Some(b"keymap".to_vec()));
}

#[test]
fn button_blot_balances_presses_and_releases() {
    let mut b = ButtonBlot::new();
    assert!(b.is_clean());
    b.key_pressed(30);
    b.key_update(30, true);
    b.key_released(30);
    b.key_update(272, true);
    b.key_math(-5);
    assert!(!b.is_clean());
    b.key_update(272, false);
    b.key_math(5);
    b.key_math(-30);
    assert!(b.is_clean());
    b.key_math(0);
    assert!(b.is_clean());
}

#[test]
fn button_blot_cleanup_releases_what_is_held() {
    let mut b = ButtonBlot::default();
    b.key_pressed(30);
    b.key_pressed(30);
    b.key_released(17);
    b.key_pressed(9);
    b.key_released(9);
    let mut events = b.cleanup_presses_releases();
    events.sort();
    assert_eq!(events, vec![(17, true), (30, false), (30, false)]);
}

#[test]
fn button_blot_cleanup_key_math_negates() {
    let mut b = ButtonBlot::new();
    b.key_pressed(30);
    b.key_pressed(30);
    b.key_released(17);
    b.key_pressed(9);
    b.key_released(9);
    let mut undo = b.cleanup_key_math();
    undo.sort();
    assert_eq!(undo, vec![(9, 0), (17, 1), (30, -2)]);
}

#[test]
fn frames_carry_their_length() {
    let payload = vec![7u8; 258];
    let framed = frame(&payload).unwrap();
    assert_eq!(&framed[..4], &[0, 0, 1, 2]);
    assert_eq!(&framed[4..], &payload[..]);
    assert_eq!(frame_length(&[framed[0], framed[1], framed[2], framed[3]]), 258);
    assert_eq!(frame_length(&[1, 2, 3, 4]), 0x0102_0304);
    assert_eq!(length_header(0xA1B2_C3D4), [0xA1, 0xB2, 0xC3, 0xD4]);
    assert_eq!(frame(&vec![]).unwrap(), vec![0, 0, 0, 0]);
}

#[test]
fn mouse_buttons_track_raw_codes_and_actions() {
    let mut m = MouseButtons::new();
    let none = ButtonActions { select: false, middle: false, context: false, grab: false };
    assert_eq!(m.actions(), none);
    m.button(BTN_LEFT, true);
    m.button(BTN_RIGHT, true);
    m.button(100, true);
    assert_eq!(m.actions(), ButtonActions { select: true, middle: false, context: true, grab: true });
    let mut held = m.held_buttons();
    held.sort();
    assert_eq!(held, vec![BTN_LEFT, BTN_RIGHT]);
    m.button(BTN_LEFT, false);
    m.button(BTN_MIDDLE, true);
    m.button(BTN_RIGHT, false);
    assert_eq!(m.actions(), ButtonActions { select: false, middle: true, context: false, grab: false });
    assert_eq!(m.held_buttons(), vec![BTN_MIDDLE]);
    m.button(BTN_MIDDLE, false);
    m.button(BTN_MIDDLE, false);
    assert_eq!(m.actions(), none);
    assert!(m.held_buttons().is_empty());
}
