//! The message catalog: discriminants, the bit-packed input byte, and the
//! decoders for every inbound message type.

use cactus_client::binary::{DecodeError, StreamPeerBuffer};
use cactus_client::engine::Input;
use cactus_client::protocol::{
    DeathPacket, Entity, HandshakePacket, InitPacket, InputPacket, LeaderboardPacket,
    MessagePacket, Packet, Protocol, RespawnPacket,
};
use cactus_client::util::Vector2;

#[test]
fn packet_ids_round_trip() {
    let all = [
        Packet::Init,
        Packet::Input,
        Packet::Census,
        Packet::Handshake,
        Packet::Message,
        Packet::Death,
        Packet::Respawn,
        Packet::Leaderboard,
    ];
    for (i, p) in all.iter().enumerate() {
        assert_eq!(p.id(), i as u8);
        assert_eq!(Packet::from_u8(i as u8), Some(*p));
    }
    assert_eq!(Packet::from_u8(8), None);
    assert_eq!(Packet::from_u8(255), None);
}

#[test]
fn init_packet_wire_layout() {
    let p = InitPacket { name: b"Xy".to_vec() };
    let buf = p.encode();
    assert_eq!(buf.data, vec![0, 0, 2, b'X', b'y']);
}

#[test]
fn message_packet_wire_layout() {
    let p = MessagePacket { message: b"hi".to_vec() };
    let buf = p.encode();
    assert_eq!(buf.data, vec![4, 0, 2, b'h', b'i']);
}

#[test]
fn respawn_packet_wire_layout() {
    let buf = RespawnPacket.encode();
    assert_eq!(buf.data, vec![6]);
}

#[test]
fn input_flags_round_trip_all_32() {
    // every combination of the four direction flags and the action flag
    for mask in 0u8..32 {
        let p = InputPacket {
            W: mask & 16 != 0,
            A: mask & 8 != 0,
            S: mask & 4 != 0,
            D: mask & 2 != 0,
            mouse_down: mask & 1 != 0,
            mouse_position: Vector2 { x: -123, y: 456 },
        };
        let buf = p.encode();
        assert_eq!(buf.data[0], 1);
        assert_eq!(buf.data[1], mask);
        let mut rd = StreamPeerBuffer::new();
        rd.set_data_array(buf.data[1..].to_vec());
        let q = InputPacket::decode(rd).unwrap();
        assert_eq!(q.W, p.W);
        assert_eq!(q.A, p.A);
        assert_eq!(q.S, p.S);
        assert_eq!(q.D, p.D);
        assert_eq!(q.mouse_down, p.mouse_down);
        assert_eq!(q.mouse_position.x, -123);
        assert_eq!(q.mouse_position.y, 456);
    }
}

#[test]
fn from_input_copies_every_flag() {
    let input = Input {
        W: true,
        A: false,
        S: true,
        D: false,
        mouse_down: true,
        mouse_position: Vector2 { x: 7, y: -9 },
    };
    let p = InputPacket::from_input(input);
    assert!(p.W && !p.A && p.S && !p.D && p.mouse_down);
    assert_eq!(p.mouse_position.x, 7);
    assert_eq!(p.mouse_position.y, -9);
}

#[test]
fn death_packet_round_trip() {
    let p = DeathPacket { time_alive_bits: 321.5f64.to_bits() };
    let buf = p.encode();
    assert_eq!(buf.data[0], 5);
    let mut rd = StreamPeerBuffer::new();
    rd.set_data_array(buf.data[1..].to_vec());
    let q = DeathPacket::decode(rd).unwrap();
    assert_eq!(q.time_alive_bits, 321.5f64.to_bits());
    assert_eq!(f64::from_bits(q.time_alive_bits), 321.5);
}

#[test]
fn death_packet_truncated() {
    let mut rd = StreamPeerBuffer::new();
    rd.set_data_array(vec![0, 1, 2]);
    assert!(matches!(DeathPacket::decode(rd), Err(DecodeError::Truncated)));
}

#[test]
fn leaderboard_decode() {
    let mut buf = StreamPeerBuffer::new();
    buf.put_u8(2);
    buf.put_utf8(&b"alpha".to_vec());
    buf.put_f32_bits(12.0f32.to_bits());
    buf.put_u8(3);
    buf.put_utf8(&b"".to_vec());
    buf.put_f32_bits(1.5f32.to_bits());
    buf.put_u8(0);
    let mut rd = StreamPeerBuffer::new();
    rd.set_data_array(buf.data.clone());
    let lb = LeaderboardPacket::decode(rd).unwrap();
    assert_eq!(lb.entries.len(), 2);
    assert_eq!(lb.entries[0].name, b"alpha".to_vec());
    assert_eq!(lb.entries[0].level_bits, 12.0f32.to_bits());
    assert_eq!(lb.entries[0].mockup, 3);
    assert_eq!(lb.entries[1].name, b"".to_vec());
    assert_eq!(lb.entries[1].mockup, 0);
}

#[test]
fn handshake_decode() {
    let mut buf = StreamPeerBuffer::new();
    buf.put_u32(99);
    buf.put_u8(1); // one mockup
    buf.put_utf8(&b"basic".to_vec());
    buf.put_u8(20); // fov
    buf.put_u8(2); // two barrels
    for k in 0..2u32 {
        buf.put_f32_bits((1.0f32 + k as f32).to_bits());
        buf.put_f32_bits(0.5f32.to_bits());
        buf.put_f32_bits(0.0f32.to_bits());
    }
    let mut rd = StreamPeerBuffer::new();
    rd.set_data_array(buf.data.clone());
    let h = HandshakePacket::decode(rd).unwrap();
    assert_eq!(h.id, 99);
    assert_eq!(h.mockups.len(), 1);
    assert_eq!(h.mockups[0].name, b"basic".to_vec());
    assert_eq!(h.mockups[0].fov, 20);
    assert_eq!(h.mockups[0].barrels.len(), 2);
    assert_eq!(h.mockups[0].barrels[1].width_bits, 2.0f32.to_bits());
    assert_eq!(h.mockups[0].barrels[0].length_bits, 0.5f32.to_bits());
}

#[test]
fn handshake_truncated_barrels() {
    let mut buf = StreamPeerBuffer::new();
    buf.put_u32(7);
    buf.put_u8(1);
    buf.put_utf8(&b"m".to_vec());
    buf.put_u8(10);
    buf.put_u8(3); // claims three barrels, provides none
    let mut rd = StreamPeerBuffer::new();
    rd.set_data_array(buf.data.clone());
    assert!(matches!(HandshakePacket::decode(rd), Err(DecodeError::Truncated)));
}

/// Builds the census body (after the discriminant) with one tank record.
fn tank_census_body(health: f32) -> StreamPeerBuffer {
    let mut buf = StreamPeerBuffer::new();
    buf.put_u16(1); // entity count
    buf.put_u16(1000); // arena size
    buf.put_f32_bits(2.5f32.to_bits()); // level
    buf.put_u8(0); // tank record
    buf.put_u32(7);
    buf.put_16(10);
    buf.put_16(-5);
    buf.put_f32_bits(0.0f32.to_bits()); // rotation
    buf.put_16(0);
    buf.put_16(0);
    buf.put_u8(0); // mockup
    buf.put_f32_bits(health.to_bits());
    buf.put_u16(50); // radius
    buf.put_utf8(&b"X".to_vec());
    buf.put_utf8(&b"".to_vec());
    buf
}

#[test]
fn census_decode_one_tank() {
    let body = tank_census_body(0.8);
    let mut rd = StreamPeerBuffer::new();
    rd.set_data_array(body.data.clone());
    let census = cactus_client::protocol::Census::decode(rd).unwrap();
    assert_eq!(census.entity_count, 1);
    assert_eq!(census.arena_size, 1000);
    assert_eq!(census.level_bits, 2.5f32.to_bits());
    assert_eq!(census.entities.len(), 1);
    match &census.entities[0] {
        Entity::Tank(t) => {
            assert_eq!(t.id, 7);
            assert_eq!(t.position.x, 10);
            assert_eq!(t.position.y, -5);
            assert_eq!(t.rotation_bits, 0.0f32.to_bits());
            assert_eq!(t.velocity.x, 0);
            assert_eq!(t.velocity.y, 0);
            assert_eq!(t.mockup, 0);
            assert_eq!(t.health_bits, 0.8f32.to_bits());
            assert_eq!(t.radius, 50);
            assert_eq!(t.name, b"X".to_vec());
            assert_eq!(t.message, b"".to_vec());
        },
        other => panic!("expected a tank record, got {:?}", other),
    }
}

#[test]
fn census_clamps_negative_tank_health() {
    let body = tank_census_body(-0.25);
    let mut rd = StreamPeerBuffer::new();
    rd.set_data_array(body.data.clone());
    let census = cactus_client::protocol::Census::decode(rd).unwrap();
    match &census.entities[0] {
        Entity::Tank(t) => assert_eq!(t.health_bits, 0.0f32.to_bits()),
        other => panic!("expected a tank record, got {:?}", other),
    }
}

#[test]
fn census_unknown_entity_kind_drops_whole_census() {
    let mut buf = StreamPeerBuffer::new();
    buf.put_u16(1);
    buf.put_u16(500);
    buf.put_f32_bits(1.0f32.to_bits());
    buf.put_u8(9); // unknown kind tag
    buf.put_u32(1234);
    let mut rd = StreamPeerBuffer::new();
    rd.set_data_array(buf.data.clone());
    assert!(matches!(
        cactus_client::protocol::Census::decode(rd),
        Err(DecodeError::UnknownEntity(9))
    ));
}

#[test]
fn census_duplicate_id_keeps_last_record() {
    let mut buf = StreamPeerBuffer::new();
    buf.put_u16(2);
    buf.put_u16(500);
    buf.put_f32_bits(1.0f32.to_bits());
    for radius in [30u16, 60u16] {
        buf.put_u8(1); // shape record
        buf.put_u32(5);
        buf.put_16(0);
        buf.put_16(0);
        buf.put_f32_bits(1.0f32.to_bits());
        buf.put_u16(radius);
    }
    let mut rd = StreamPeerBuffer::new();
    rd.set_data_array(buf.data.clone());
    let census = cactus_client::protocol::Census::decode(rd).unwrap();
    assert_eq!(census.entities.len(), 1);
    match &census.entities[0] {
        Entity::Shape(s) => assert_eq!(s.radius, 60),
        other => panic!("expected a shape record, got {:?}", other),
    }
}
