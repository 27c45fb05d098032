//! The census reconciler: create, update, fade and purge effects on the
//! entity store, driven through whole inbound buffers.

use cactus_client::binary::{DecodeError, StreamPeerBuffer};
use cactus_client::engine::{BulletColor, Entity, World};
use cactus_client::fx::{Fx, FX_ONE};

/// A census message holding one tank, one shape and one bullet.
fn census_with_all_kinds() -> Vec<u8> {
    let mut buf = StreamPeerBuffer::new();
    buf.put_u8(2); // census discriminant
    buf.put_u16(3);
    buf.put_u16(1000);
    buf.put_f32_bits(2.5f32.to_bits());
    // tank id 7
    buf.put_u8(0);
    buf.put_u32(7);
    buf.put_16(10);
    buf.put_16(-5);
    buf.put_f32_bits(0.0f32.to_bits());
    buf.put_16(4);
    buf.put_16(-6);
    buf.put_u8(0);
    buf.put_f32_bits(0.8f32.to_bits());
    buf.put_u16(50);
    buf.put_utf8(&b"X".to_vec());
    buf.put_utf8(&b"".to_vec());
    // shape id 8
    buf.put_u8(1);
    buf.put_u32(8);
    buf.put_16(100);
    buf.put_16(200);
    buf.put_f32_bits(3.0f32.to_bits());
    buf.put_u16(40);
    // bullet id 9, owned by the local player (id 1)
    buf.put_u8(2);
    buf.put_u32(9);
    buf.put_16(-1);
    buf.put_16(1);
    buf.put_u16(12);
    buf.put_16(9);
    buf.put_16(-9);
    buf.put_u32(1);
    buf.data
}

/// A census message containing no entities at all.
fn empty_census() -> Vec<u8> {
    let mut buf = StreamPeerBuffer::new();
    buf.put_u8(2);
    buf.put_u16(0);
    buf.put_u16(1000);
    buf.put_f32_bits(2.5f32.to_bits());
    buf.data
}

fn world() -> World {
    let mut w = World::new(b"me".to_vec(), 12345);
    w.yourself.id = 1;
    w
}

fn find<'a>(w: &'a World, id: u32) -> Option<&'a Entity> {
    w.entities.iter().find(|e| match e {
        Entity::Tank(t) => t.id == id,
        Entity::Shape(s) => s.id == id,
        Entity::Bullet(b) => b.id == id,
    })
}

#[test]
fn census_creates_entities_with_value_equal_target() {
    let mut w = world();
    assert_eq!(w.on_message(census_with_all_kinds()), Ok(()));
    assert_eq!(w.entities.len(), 3);
    assert_eq!(w.size.tv.raw, 1000 * FX_ONE);
    assert_eq!(w.state.level.tv.raw, 163840); // 2.5

    match find(&w, 7).unwrap() {
        Entity::Tank(t) => {
            assert_eq!(t.position.x.raw, 10 * FX_ONE);
            assert_eq!(t.position.y.raw, -5 * FX_ONE);
            assert_eq!(t.net_position.x.raw, t.position.x.raw);
            assert_eq!(t.net_position.y.raw, t.position.y.raw);
            // spawn velocity is the wire velocity over four
            assert_eq!(t.velocity.x.raw, 4 * FX_ONE / 4);
            assert_eq!(t.velocity.y.raw, -(6 * FX_ONE / 4));
            assert_eq!(t.health.value.raw, t.health.tv.raw);
            assert_eq!(t.health.value.raw, 52428); // 0.8 truncated
            assert_eq!(t.opacity.value.raw, FX_ONE);
            assert_eq!(t.radius, 50);
            assert_eq!(t.name, b"X".to_vec());
            assert!(!t.yourself);
        },
        other => panic!("expected a tank, got {:?}", other),
    }
    match find(&w, 8).unwrap() {
        Entity::Shape(s) => {
            assert!(s.sides >= 10 && s.sides <= 19);
            assert_eq!(s.health.raw, 3 * FX_ONE);
            // rotation is derived from the position, not random
            assert_eq!(s.rotation.raw, (100 + 200) * FX_ONE);
            assert!(s.needs_redraw);
        },
        other => panic!("expected a shape, got {:?}", other),
    }
    match find(&w, 9).unwrap() {
        Entity::Bullet(b) => {
            // bullet velocity is the wire velocity over three
            assert_eq!(b.velocity.x.raw, 3 * FX_ONE);
            assert_eq!(b.velocity.y.raw, -3 * FX_ONE);
            assert_eq!(b.color, BulletColor::Friendly);
            assert_eq!(b.scale.tv.raw, FX_ONE);
        },
        other => panic!("expected a bullet, got {:?}", other),
    }
}

#[test]
fn repeated_census_changes_no_target() {
    let mut w = world();
    assert_eq!(w.on_message(census_with_all_kinds()), Ok(()));
    let size_tv = w.size.tv.raw;
    let level_tv = w.state.level.tv.raw;
    let before: Vec<(u32, i64, i64, i64, i64)> = w
        .entities
        .iter()
        .map(|e| match e {
            Entity::Tank(t) => (
                t.id,
                t.net_position.x.raw,
                t.net_position.y.raw,
                t.health.tv.raw,
                t.opacity.tv.raw,
            ),
            Entity::Shape(s) => (
                s.id,
                s.net_position.x.raw,
                s.net_position.y.raw,
                s.health.raw,
                s.opacity.tv.raw,
            ),
            Entity::Bullet(b) => (
                b.id,
                b.net_position.x.raw,
                b.net_position.y.raw,
                b.scale.tv.raw,
                b.opacity.tv.raw,
            ),
        })
        .collect();
    let rng_before = w.rng;
    let sides_before = match find(&w, 8).unwrap() {
        Entity::Shape(s) => s.sides,
        _ => unreachable!(),
    };

    assert_eq!(w.on_message(census_with_all_kinds()), Ok(()));
    assert_eq!(w.size.tv.raw, size_tv);
    assert_eq!(w.state.level.tv.raw, level_tv);
    assert_eq!(w.rng, rng_before, "cosmetic randomness must not re-roll");
    let mut after: Vec<(u32, i64, i64, i64, i64)> = w
        .entities
        .iter()
        .map(|e| match e {
            Entity::Tank(t) => (
                t.id,
                t.net_position.x.raw,
                t.net_position.y.raw,
                t.health.tv.raw,
                t.opacity.tv.raw,
            ),
            Entity::Shape(s) => (
                s.id,
                s.net_position.x.raw,
                s.net_position.y.raw,
                s.health.raw,
                s.opacity.tv.raw,
            ),
            Entity::Bullet(b) => (
                b.id,
                b.net_position.x.raw,
                b.net_position.y.raw,
                b.scale.tv.raw,
                b.opacity.tv.raw,
            ),
        })
        .collect();
    let mut sorted_before = before.clone();
    sorted_before.sort();
    after.sort();
    assert_eq!(after, sorted_before, "no target may drift");
    match find(&w, 8).unwrap() {
        Entity::Shape(s) => assert_eq!(s.sides, sides_before),
        _ => unreachable!(),
    }
}

#[test]
fn absent_id_fades_and_is_purged_once_transparent() {
    let mut w = world();
    assert_eq!(w.on_message(census_with_all_kinds()), Ok(()));
    // the ids disappear from the next census: targets drop to zero
    assert_eq!(w.on_message(empty_census()), Ok(()));
    assert_eq!(w.entities.len(), 3, "fading entities are kept for now");
    for e in &w.entities {
        match e {
            Entity::Tank(t) => assert_eq!(t.opacity.tv.raw, 0),
            Entity::Shape(s) => assert_eq!(s.opacity.tv.raw, 0),
            Entity::Bullet(b) => {
                assert_eq!(b.opacity.tv.raw, 0);
                assert_eq!(b.scale.tv.raw, 2 * FX_ONE, "bullets pop while fading");
            },
        }
    }
    // across repeated absent censuses the target stays zero and the
    // rendered opacity falls monotonically until the purge
    let mut prev: Vec<i64> = w
        .entities
        .iter()
        .map(|e| match e {
            Entity::Tank(t) => t.opacity.value.raw,
            Entity::Shape(s) => s.opacity.value.raw,
            Entity::Bullet(b) => b.opacity.value.raw,
        })
        .collect();
    let mut rounds = 0;
    while !w.entities.is_empty() {
        assert_eq!(w.on_message(empty_census()), Ok(()));
        for e in &w.entities {
            let (tv, value) = match e {
                Entity::Tank(t) => (t.opacity.tv.raw, t.opacity.value.raw),
                Entity::Shape(s) => (s.opacity.tv.raw, s.opacity.value.raw),
                Entity::Bullet(b) => (b.opacity.tv.raw, b.opacity.value.raw),
            };
            assert_eq!(tv, 0, "the fade target must stay zero");
            assert!(value >= 0);
        }
        let now: Vec<i64> = w
            .entities
            .iter()
            .map(|e| match e {
                Entity::Tank(t) => t.opacity.value.raw,
                Entity::Shape(s) => s.opacity.value.raw,
                Entity::Bullet(b) => b.opacity.value.raw,
            })
            .collect();
        for (n, p) in now.iter().zip(prev.iter()) {
            assert!(n < p, "rendered opacity must keep falling");
        }
        prev = now;
        rounds += 1;
        assert!(rounds < 500, "fading entities must eventually be purged");
    }
}

#[test]
fn own_id_updates_yourself_not_the_store() {
    let mut w = world();
    w.yourself.id = 7; // the census tank is the local player now
    assert_eq!(w.on_message(census_with_all_kinds()), Ok(()));
    assert_eq!(w.entities.len(), 2, "the local id never enters the store");
    assert_eq!(w.yourself.net_position.x.raw, 10 * FX_ONE);
    assert_eq!(w.yourself.net_position.y.raw, -5 * FX_ONE);
    assert_eq!(w.yourself.radius, 50);
    assert_eq!(w.yourself.health.tv.raw, 52428);
    assert!(w.yourself.damaged, "health fell below the starting target");
    // rendered position eases in later frames; it is not snapped
    assert_eq!(w.yourself.position.x.raw, 0);
}

#[test]
fn update_detects_damage_against_previous_target() {
    let mut w = world();
    assert_eq!(w.on_message(census_with_all_kinds()), Ok(()));
    // the same census again: equal health is no damage
    assert_eq!(w.on_message(census_with_all_kinds()), Ok(()));
    match find(&w, 7).unwrap() {
        Entity::Tank(t) => assert!(!t.damaged),
        _ => unreachable!(),
    }
    // now the tank reports lower health
    let mut buf = StreamPeerBuffer::new();
    buf.put_u8(2);
    buf.put_u16(1);
    buf.put_u16(1000);
    buf.put_f32_bits(2.5f32.to_bits());
    buf.put_u8(0);
    buf.put_u32(7);
    buf.put_16(11);
    buf.put_16(-5);
    buf.put_f32_bits(0.25f32.to_bits());
    buf.put_16(2);
    buf.put_16(0);
    buf.put_u8(1);
    buf.put_f32_bits(0.5f32.to_bits());
    buf.put_u16(55);
    buf.put_utf8(&b"X".to_vec());
    buf.put_utf8(&b"hi".to_vec());
    assert_eq!(w.on_message(buf.data), Ok(()));
    match find(&w, 7).unwrap() {
        Entity::Tank(t) => {
            assert!(t.damaged);
            assert_eq!(t.net_position.x.raw, 11 * FX_ONE);
            // refresh velocity is the wire velocity over two
            assert_eq!(t.velocity.x.raw, FX_ONE);
            assert_eq!(t.mockup, 1);
            assert_eq!(t.radius, 55);
            assert_eq!(t.message, b"hi".to_vec());
            // the name is fixed at creation
            assert_eq!(t.name, b"X".to_vec());
            // opacity targets are untouched by refreshes
            assert_eq!(t.opacity.tv.raw, FX_ONE);
        },
        _ => unreachable!(),
    }
}

#[test]
fn unknown_discriminant_is_dropped_not_fatal() {
    let mut w = world();
    assert_eq!(w.on_message(vec![200, 1, 2, 3]), Err(DecodeError::UnknownPacket(200)));
    assert_eq!(w.on_message(vec![]), Err(DecodeError::Truncated));
    // a truncated census leaves the world untouched
    assert_eq!(w.on_message(vec![2, 0]), Err(DecodeError::Truncated));
    assert_eq!(w.entities.len(), 0);
    // the session continues: a good message still lands
    assert_eq!(w.on_message(census_with_all_kinds()), Ok(()));
    assert_eq!(w.entities.len(), 3);
}

#[test]
fn handshake_sets_id_and_mockups() {
    let mut w = world();
    let mut buf = StreamPeerBuffer::new();
    buf.put_u8(3);
    buf.put_u32(77);
    buf.put_u8(1);
    buf.put_utf8(&b"basic".to_vec());
    buf.put_u8(20);
    buf.put_u8(0);
    assert_eq!(w.on_message(buf.data), Ok(()));
    assert_eq!(w.yourself.id, 77);
    let mockups = w.mockups.as_ref().unwrap();
    assert_eq!(mockups.len(), 1);
    assert_eq!(mockups[0].name, b"basic".to_vec());
    assert_eq!(mockups[0].fov, 20);
}

#[test]
fn enemy_bullet_color() {
    let mut w = world();
    w.yourself.id = 9999; // the census bullet's owner is someone else
    assert_eq!(w.on_message(census_with_all_kinds()), Ok(()));
    match find(&w, 9).unwrap() {
        Entity::Bullet(b) => assert_eq!(b.color, BulletColor::Hostile),
        other => panic!("expected a bullet, got {:?}", other),
    }
}

#[test]
fn tick_moves_values_toward_targets() {
    let mut w = world();
    assert_eq!(w.on_message(census_with_all_kinds()), Ok(()));
    // retarget by census: the tank moves, the rendered position lags
    let mut buf = StreamPeerBuffer::new();
    buf.put_u8(2);
    buf.put_u16(1);
    buf.put_u16(1000);
    buf.put_f32_bits(2.5f32.to_bits());
    buf.put_u8(0);
    buf.put_u32(7);
    buf.put_16(100);
    buf.put_16(-5);
    buf.put_f32_bits(0.0f32.to_bits());
    buf.put_16(0);
    buf.put_16(0);
    buf.put_u8(0);
    buf.put_f32_bits(0.8f32.to_bits());
    buf.put_u16(50);
    buf.put_utf8(&b"X".to_vec());
    buf.put_utf8(&b"".to_vec());
    assert_eq!(w.on_message(buf.data), Ok(()));
    let before = match find(&w, 7).unwrap() {
        Entity::Tank(t) => t.position.x.raw,
        _ => unreachable!(),
    };
    w.tick(Fx { raw: FX_ONE });
    let after = match find(&w, 7).unwrap() {
        Entity::Tank(t) => t.position.x.raw,
        _ => unreachable!(),
    };
    assert!(after > before, "the rendered position eases toward the target");
    assert!(after < 100 * FX_ONE, "but does not snap onto it");
}
