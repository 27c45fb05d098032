//! The player lifecycle: Alive to Dead on a death message, input
//! suppression while dead, and the optimistic local respawn.

use cactus_client::binary::StreamPeerBuffer;
use cactus_client::engine::{EnterAction, PlayerState, World};
use cactus_client::util::Vector2;

fn death_message(seconds: f64) -> Vec<u8> {
    let mut buf = StreamPeerBuffer::new();
    buf.put_u8(5);
    buf.put_f64_bits(seconds.to_bits());
    buf.data
}

#[test]
fn death_message_transitions_alive_to_dead() {
    let mut w = World::new(b"me".to_vec(), 1);
    assert_eq!(w.state.player_state, PlayerState::Alive);
    assert_eq!(w.on_message(death_message(42.5)), Ok(()));
    assert_eq!(w.state.player_state, PlayerState::Dead(42.5f64.to_bits()));
    assert_eq!(w.state.time_alive_bits(), Some(42.5f64.to_bits()));
    assert!(w.state.is_dead());
}

#[test]
fn dead_player_sends_neutral_input() {
    let mut w = World::new(b"me".to_vec(), 1);
    w.input.W = true;
    w.input.mouse_down = true;
    w.input.mouse_position = Vector2 { x: 40, y: -2 };
    // alive: the real input goes out
    let p = w.outgoing_input();
    assert!(p.W && p.mouse_down);
    assert_eq!(p.mouse_position.x, 40);
    // dead: a neutral, all-false input goes out instead
    assert_eq!(w.on_message(death_message(1.0)), Ok(()));
    let q = w.outgoing_input();
    assert!(!q.W && !q.A && !q.S && !q.D && !q.mouse_down);
    assert_eq!(q.mouse_position.x, 0);
    assert_eq!(q.mouse_position.y, 0);
}

#[test]
fn respawn_is_applied_optimistically() {
    let mut w = World::new(b"me".to_vec(), 1);
    assert_eq!(w.on_message(death_message(9.0)), Ok(()));
    assert!(w.state.is_dead());
    // the respawn key brings the player back before any server message
    let action = w.handle_enter();
    assert_eq!(action, EnterAction::SendRespawn);
    assert_eq!(w.state.player_state, PlayerState::Alive);
    assert_eq!(w.yourself.opacity.tv.raw, cactus_client::fx::FX_ONE);
    assert_eq!(w.state.death_animation_completion.tv.raw, 0);
    // and outgoing input is no longer suppressed
    w.input.D = true;
    let p = w.outgoing_input();
    assert!(p.D);
}

#[test]
fn enter_toggles_chat_while_alive() {
    let mut w = World::new(b"me".to_vec(), 1);
    assert_eq!(w.handle_enter(), EnterAction::OpenedChat);
    assert!(w.state.chat_open);
    // with the chat open, outgoing input is suppressed too
    w.input.W = true;
    assert!(!w.outgoing_input().W);
    assert_eq!(w.handle_enter(), EnterAction::SendChat);
    assert!(!w.state.chat_open);
    assert!(w.outgoing_input().W);
}

#[test]
fn chat_keys_are_ignored_while_dead() {
    let mut w = World::new(b"me".to_vec(), 1);
    assert_eq!(w.on_message(death_message(2.0)), Ok(()));
    // enter while dead respawns instead of touching the chat
    assert_eq!(w.handle_enter(), EnterAction::SendRespawn);
    assert!(!w.state.chat_open);
}
