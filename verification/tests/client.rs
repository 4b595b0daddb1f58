use std::collections::VecDeque;

use geosia::client::voxel::{does_chunk_need_rendering, face_visible, plan_mesh_entities, take_chunk_packets};
use geosia::coordinates::InChunkPos;
use geosia::voxel::chunk::{BlockEntry, Chunk};
use geosia::entity::Entity;
use geosia::client::chat::{ChatState, MAX_MESSAGES};
use geosia::client::cursor::{
    center_cursor_delay, cursor_grab, grab_focus, grab_window, initial_grab_cursor, update_grab_mode,
    CenterCursorDelay, IsCursorGrabbed, SetGrabMode, WindowCursor, CENTER_CURSOR_DELAY,
};
use geosia::client::input::{
    button_block_action, flycam_direction, key_movement, KeyBindings, KeyId, MouseButtonId, MoveDirection,
};
use geosia::client::ClientAppState;
use geosia::voxel::plugin::BlockActionKind;

#[test]
fn chat_keeps_the_latest_messages() {
    let mut chat = ChatState::new();
    for i in 0..300 {
        chat.on_chat_message(format!("message {i}"), false);
    }
    assert_eq!(MAX_MESSAGES, 256);
    assert_eq!(chat.messages().len(), MAX_MESSAGES);
    assert_eq!(chat.messages()[0], "message 44");
    assert_eq!(chat.messages()[255], "message 299");
}

#[test]
fn chat_echo_replaces_the_oldest_prediction() {
    let mut chat = ChatState::new();
    chat.open_chat();
    assert!(chat.take_focus_request());
    assert!(!chat.take_focus_request());
    chat.set_entry(String::from("hi"));
    assert_eq!(chat.after_edit(true, false, false), None);
    assert_eq!(chat.entry_string(), "hi");
    let sent = chat.after_edit(false, true, true);
    assert_eq!(sent, Some(String::from("hi")));
    assert_eq!(chat.entry_string(), "");
    assert_eq!(chat.predicted_messages().len(), 1);
    assert_eq!(chat.predicted_messages()[0], "<...> hi");
    chat.on_chat_message(String::from("[Me] hi"), true);
    assert!(chat.predicted_messages().is_empty());
    assert_eq!(chat.messages().len(), 1);
    // an echo with nothing predicted only shows the message
    chat.on_chat_message(String::from("[Me] again"), true);
    assert_eq!(chat.messages().len(), 2);
}

#[test]
fn chat_losing_focus_without_enter_discards_the_line() {
    let mut chat = ChatState::new();
    chat.set_entry(String::from("draft"));
    assert_eq!(chat.after_edit(false, true, false), None);
    assert_eq!(chat.entry_string(), "");
    assert!(chat.predicted_messages().is_empty());
}

#[test]
fn grabbing_starts_a_centring_countdown() {
    let mut window = WindowCursor { grabbed: false, visible: true };
    let mut state = IsCursorGrabbed(false);
    let mut delays: Vec<CenterCursorDelay> = Vec::new();
    assert_eq!(update_grab_mode(SetGrabMode(true), &mut window, &mut state, &mut delays), Some(false));
    assert_eq!(window, WindowCursor { grabbed: true, visible: false });
    assert_eq!(state, IsCursorGrabbed(true));
    assert_eq!(delays.len(), 1);
    assert_eq!(delays[0].remaining(), CENTER_CURSOR_DELAY);
    // asking again changes nothing
    assert_eq!(update_grab_mode(SetGrabMode(true), &mut window, &mut state, &mut delays), None);
    assert_eq!(delays.len(), 1);
    assert!(!center_cursor_delay(&window, &mut delays));
    assert_eq!(delays[0].remaining(), 1);
    assert!(center_cursor_delay(&window, &mut delays));
    assert!(delays.is_empty());
}

#[test]
fn freeing_drops_the_countdown() {
    let mut window = WindowCursor { grabbed: false, visible: true };
    let mut state = IsCursorGrabbed(false);
    let mut delays: Vec<CenterCursorDelay> = Vec::new();
    update_grab_mode(SetGrabMode(true), &mut window, &mut state, &mut delays);
    assert_eq!(update_grab_mode(SetGrabMode(false), &mut window, &mut state, &mut delays), Some(true));
    assert_eq!(window, WindowCursor { grabbed: false, visible: true });
    assert_eq!(state, IsCursorGrabbed(false));
    assert!(delays.is_empty());
}

#[test]
fn grab_requests() {
    assert_eq!(initial_grab_cursor(&IsCursorGrabbed(false)), Some(SetGrabMode(true)));
    assert_eq!(initial_grab_cursor(&IsCursorGrabbed(true)), None);
    assert_eq!(cursor_grab(true, &IsCursorGrabbed(true)), Some(SetGrabMode(false)));
    assert_eq!(cursor_grab(true, &IsCursorGrabbed(false)), Some(SetGrabMode(true)));
    assert_eq!(cursor_grab(false, &IsCursorGrabbed(false)), None);
}

#[test]
fn fly_camera_focus_grabbing() {
    let mut w = WindowCursor { grabbed: false, visible: true };
    grab_window(&mut w, true);
    assert_eq!(w, WindowCursor { grabbed: true, visible: false });
    grab_focus(&mut w, true, true);
    assert_eq!(w, WindowCursor { grabbed: false, visible: true });
    grab_focus(&mut w, true, true);
    assert!(w.grabbed);
    grab_focus(&mut w, false, false);
    assert_eq!(w, WindowCursor { grabbed: false, visible: true });
}

fn bindings() -> KeyBindings {
    KeyBindings {
        move_forward: KeyId(1),
        move_backward: KeyId(2),
        move_left: KeyId(3),
        move_right: KeyId(4),
        move_ascend: KeyId(5),
        move_descend: KeyId(6),
        open_chat: KeyId(7),
        toggle_grab_cursor: KeyId(8),
        place_block: MouseButtonId(0),
        break_block: MouseButtonId(1),
    }
}

#[test]
fn keys_and_buttons() {
    let b = bindings();
    assert_eq!(key_movement(KeyId(1), &b, true), Some(MoveDirection::Forward));
    assert_eq!(key_movement(KeyId(6), &b, true), Some(MoveDirection::Descend));
    assert_eq!(key_movement(KeyId(9), &b, true), None);
    assert_eq!(key_movement(KeyId(1), &b, false), None);
    let mut clash = b;
    clash.move_backward = KeyId(1);
    assert_eq!(key_movement(KeyId(1), &clash, true), Some(MoveDirection::Forward));
    assert_eq!(button_block_action(MouseButtonId(0), &b, true), Some(BlockActionKind::PlaceBlock));
    assert_eq!(button_block_action(MouseButtonId(1), &b, true), Some(BlockActionKind::BreakBlock));
    assert_eq!(button_block_action(MouseButtonId(2), &b, true), None);
    assert_eq!(button_block_action(MouseButtonId(0), &b, false), None);
}

#[test]
fn fly_camera_directions() {
    assert_eq!(flycam_direction(true, false, false, false, false, false), (1, 0, 0));
    assert_eq!(flycam_direction(true, true, true, false, false, true), (0, -1, 1));
    assert_eq!(flycam_direction(false, true, false, true, true, false), (-1, 1, -1));
}

#[test]
fn app_states_are_distinct() {
    assert_ne!(ClientAppState::MainMenu, ClientAppState::LoadingGame);
    assert_ne!(ClientAppState::LoadingGame, ClientAppState::InGame);
}

#[test]
fn system_sets_follow_the_app_state() {
    use_sets();
}

fn use_sets() {
    use_sets_in(ClientAppState::MainMenu, true, false);
    use_sets_in(ClientAppState::LoadingGame, false, true);
    use_sets_in(ClientAppState::InGame, false, false);
    assert!(geosia::client::network_processing_runs(ClientAppState::InGame, true, true));
    assert!(geosia::client::network_processing_runs(ClientAppState::LoadingGame, true, true));
    assert!(!geosia::client::network_processing_runs(ClientAppState::MainMenu, true, true));
    assert!(!geosia::client::network_processing_runs(ClientAppState::InGame, false, true));
    assert!(!geosia::client::network_processing_runs(ClientAppState::InGame, true, false));
}

fn use_sets_in(state: ClientAppState, menu: bool, loading: bool) {
    assert_eq!(geosia::client::MainMenuSystemSet.runs_in(state), menu);
    assert_eq!(geosia::client::LoadingGameSystemSet.runs_in(state), loading);
}

#[test]
fn chunk_packets_are_processed_in_batches() {
    let mut q: VecDeque<u32> = (0..25).collect();
    let first = take_chunk_packets(&mut q);
    assert_eq!(first, (0..20).collect::<Vec<u32>>());
    let rest = take_chunk_packets(&mut q);
    assert_eq!(rest, (20..25).collect::<Vec<u32>>());
    assert!(take_chunk_packets(&mut q).is_empty());
}

#[test]
fn mesh_entities_are_reused() {
    let old = [Entity(1), Entity(2), Entity(3)];
    let grow = plan_mesh_entities(&old, 5);
    assert_eq!(grow.kept, old.to_vec());
    assert_eq!(grow.spawn_count, 2);
    assert!(grow.despawn.is_empty());
    let shrink = plan_mesh_entities(&old, 1);
    assert_eq!(shrink.kept, vec![Entity(1)]);
    assert_eq!(shrink.spawn_count, 0);
    assert_eq!(shrink.despawn, vec![Entity(3), Entity(2)]);
    let same = plan_mesh_entities(&old, 3);
    assert_eq!(same.kept, old.to_vec());
    assert_eq!(same.spawn_count, 0);
    assert!(same.despawn.is_empty());
}

#[test]
fn chunks_need_rendering_only_with_drawable_blocks() {
    let mut c = Chunk::new(BlockEntry::new(0, 0), ());
    assert!(!does_chunk_need_rendering(&c, &[1, 2]));
    assert!(!does_chunk_need_rendering(&c, &[]));
    c.put(InChunkPos::try_new(3, 4, 5).unwrap(), BlockEntry::new(2, 0));
    assert!(does_chunk_need_rendering(&c, &[1, 2]));
    assert!(does_chunk_need_rendering(&Chunk::new(BlockEntry::new(1, 7), ()), &[1]));
}

#[test]
fn faces_are_hidden_only_against_clipping_drawable_sides() {
    assert!(!face_visible(true, true, true));
    assert!(face_visible(false, true, true));
    assert!(face_visible(true, false, true));
    assert!(face_visible(true, true, false));
}
