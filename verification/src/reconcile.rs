//! The census reconciler: diff an incoming full-world snapshot against the
//! locally cached entity set, producing create, update, fade and purge
//! effects, plus the inbound message dispatch that drives it.
//!
//! Removal is two-step: an entity whose id leaves the census first has its
//! opacity target driven to zero (bullets also get a scale "pop"), and is
//! only deleted once its rendered opacity has dropped below the removal
//! threshold — so entities leave the screen smoothly instead of popping.

use vstd::prelude::*;

verus! {

use crate::fx::{
    Fx, FX_ONE, fx_from_f32_bits, fx_div_small, fx_add_sat, f32_exp, f32_sig, f32_mag_q16,
    f32_is_nan,
};
use crate::util::{Vector2, Scalar};
use crate::engine::{
    Entity, EntityV, Tank, TankV, Shape, Bullet, World, WorldV, GameState, PlayerState,
    BulletColor, entity_id, entity_id_v, entity_opacity_v, entity_opacity_tv_v, entity_wf_v,
    store_unique_ids,
    copy_bytes, fx_of_i16, fx_of_u16, fx_of_bits, fx_divided, FADE_EPS_RAW, FADE_RATE_RAW,
    SCALE_POP_RAW, TANK_UPDATE_VEL_DIV, TANK_SPAWN_VEL_DIV, BULLET_VEL_DIV,
};
use crate::protocol;
use crate::protocol::{
    Census, CensusV, TankPacket, TankPacketV, ShapePacket, BulletPacket, unique_ids,
};
use crate::binary::DecodeError;

/// The census record carrying the given id, if any.
pub open spec fn census_find(es: Seq<protocol::EntityV>, id: u32) -> Option<protocol::EntityV> {
    let i = protocol::index_of_id(es, id);
    if i < 0 {
        None
    } else {
        Some(es[i])
    }
}

/// Whether a cached entity and a census record are of the same kind.
pub open spec fn same_kind(e: EntityV, c: protocol::EntityV) -> bool {
    match (e, c) {
        (EntityV::Tank(_), protocol::EntityV::Tank(_)) => true,
        (EntityV::Shape(_), protocol::EntityV::Shape(_)) => true,
        (EntityV::Bullet(_), protocol::EntityV::Bullet(_)) => true,
        _ => false,
    }
}

/// Begin or continue a fade-out: opacity target to zero (with one step
/// taken at once), and for bullets a scale target of two for the pop.
pub open spec fn fade_entity_spec(e: EntityV) -> EntityV {
    let rate = Fx { raw: FADE_RATE_RAW };
    match e {
        EntityV::Tank(t) => EntityV::Tank(
            TankV { opacity: t.opacity.spec_set_update(Fx { raw: 0 }, rate), ..t },
        ),
        EntityV::Shape(s) => EntityV::Shape(
            Shape { opacity: s.opacity.spec_set_update(Fx { raw: 0 }, rate), ..s },
        ),
        EntityV::Bullet(b) => EntityV::Bullet(
            Bullet {
                opacity: b.opacity.spec_set_update(Fx { raw: 0 }, rate),
                scale: b.scale.spec_set_update(Fx { raw: SCALE_POP_RAW }, rate),
                ..b
            },
        ),
    }
}

/// Refresh a cached tank from its census record: authoritative values
/// become targets only; velocity is scaled down to bridge the update-rate
/// versus frame-rate mismatch; a health drop below the previous target
/// raises the damage flash.
pub open spec fn update_tank_spec(t: TankV, c: TankPacketV) -> TankV {
    let h = fx_of_bits(c.health_bits);
    TankV {
        net_position: Vector2 { x: fx_of_i16(c.position.x), y: fx_of_i16(c.position.y) },
        net_rotation: fx_of_bits(c.rotation_bits),
        mockup: c.mockup,
        velocity: if !t.yourself {
            Vector2 {
                x: fx_divided(fx_of_i16(c.velocity.x), TANK_UPDATE_VEL_DIV as int),
                y: fx_divided(fx_of_i16(c.velocity.y), TANK_UPDATE_VEL_DIV as int),
            }
        } else {
            t.velocity
        },
        damaged: t.damaged || h.raw < t.health.tv.raw,
        health: Scalar { value: t.health.value, tv: h },
        radius: c.radius,
        message: c.message,
        ..t
    }
}

/// Refresh a cached shape: position target and health; a health drop
/// raises the damage flash and forces a redraw.
pub open spec fn update_shape_spec(s: Shape, c: ShapePacket) -> Shape {
    let h = fx_of_bits(c.health_bits);
    Shape {
        net_position: Vector2 { x: fx_of_i16(c.position.x), y: fx_of_i16(c.position.y) },
        damaged: s.damaged || h.raw < s.health.raw,
        needs_redraw: s.needs_redraw || h.raw < s.health.raw,
        health: h,
        ..s
    }
}

/// Refresh a cached bullet: position target and scaled-down velocity.
pub open spec fn update_bullet_spec(b: Bullet, c: BulletPacket) -> Bullet {
    Bullet {
        net_position: Vector2 { x: fx_of_i16(c.position.x), y: fx_of_i16(c.position.y) },
        velocity: Vector2 {
            x: fx_divided(fx_of_i16(c.velocity.x), BULLET_VEL_DIV as int),
            y: fx_divided(fx_of_i16(c.velocity.y), BULLET_VEL_DIV as int),
        },
        ..b
    }
}

/// Refresh a cached entity from a census record of the same kind.
pub open spec fn update_entity_spec(e: EntityV, c: protocol::EntityV) -> EntityV {
    match (e, c) {
        (EntityV::Tank(t), protocol::EntityV::Tank(tc)) => EntityV::Tank(update_tank_spec(t, tc)),
        (EntityV::Shape(s), protocol::EntityV::Shape(sc)) => EntityV::Shape(
            update_shape_spec(s, sc),
        ),
        (EntityV::Bullet(b), protocol::EntityV::Bullet(bc)) => EntityV::Bullet(
            update_bullet_spec(b, bc),
        ),
        _ => e,
    }
}

/// What becomes of one cached entity under a census: entities that have
/// finished fading are purged outright; entities still in the census are
/// refreshed (or, on a kind clash, replaced — the old one goes, a fresh
/// one is spawned by the insert pass); entities missing from the census
/// begin or continue their fade-out.  The locally controlled id is never
/// handled through the generic store.
pub open spec fn step_existing(e: EntityV, c: Seq<protocol::EntityV>, yid: u32) -> Option<
    EntityV,
> {
    if entity_opacity_v(e).raw < FADE_EPS_RAW {
        None
    } else {
        match census_find(c, entity_id_v(e)) {
            None => Some(fade_entity_spec(e)),
            Some(snap) => {
                if entity_id_v(e) == yid {
                    Some(e)
                } else if same_kind(e, snap) {
                    Some(update_entity_spec(e, snap))
                } else {
                    None
                }
            },
        }
    }
}

/// The purge/refresh pass over the whole cached store, in order.
pub open spec fn reconcile_existing(old_es: Seq<EntityV>, c: Seq<protocol::EntityV>, yid: u32)
    -> Seq<EntityV>
    decreases old_es.len(),
{
    if old_es.len() == 0 {
        Seq::empty()
    } else {
        let rest = reconcile_existing(old_es.subrange(1, old_es.len() as int), c, yid);
        match step_existing(old_es[0], c, yid) {
            None => rest,
            Some(e) => seq![e] + rest,
        }
    }
}

/// One step of the xorshift generator behind cosmetic randomness.
pub open spec fn rng_next(s: u64) -> u64 {
    let a = s ^ (s << 13u64);
    let b = a ^ (a >> 7u64);
    b ^ (b << 17u64)
}

/// The pseudo-random side count given to a new shape: between 10 and 19.
pub open spec fn sides_from(r: u64) -> u8 {
    (10 + r % 10) as u8
}

/// A tank seen for the first time: rendered values start equal to their
/// targets so creation never pops in from elsewhere.
pub open spec fn fresh_tank_spec(c: TankPacketV) -> TankV {
    let p = Vector2 { x: fx_of_i16(c.position.x), y: fx_of_i16(c.position.y) };
    TankV {
        id: c.id,
        name: c.name,
        position: p,
        net_position: p,
        net_rotation: fx_of_bits(c.rotation_bits),
        velocity: Vector2 {
            x: fx_divided(fx_of_i16(c.velocity.x), TANK_SPAWN_VEL_DIV as int),
            y: fx_divided(fx_of_i16(c.velocity.y), TANK_SPAWN_VEL_DIV as int),
        },
        rotation: fx_of_bits(c.rotation_bits),
        yourself: false,
        mockup: c.mockup,
        health: Scalar { value: fx_of_bits(c.health_bits), tv: fx_of_bits(c.health_bits) },
        radius: c.radius,
        damaged: false,
        opacity: Scalar { value: Fx { raw: FX_ONE }, tv: Fx { raw: FX_ONE } },
        message: c.message,
    }
}

/// A shape seen for the first time: a pseudo-random side count chosen once,
/// and a deterministic-looking rotation derived from its position.
pub open spec fn fresh_shape_spec(c: ShapePacket, sides: u8) -> Shape {
    let p = Vector2 { x: fx_of_i16(c.position.x), y: fx_of_i16(c.position.y) };
    Shape {
        id: c.id,
        position: p,
        net_position: p,
        velocity: Vector2 { x: Fx { raw: 0 }, y: Fx { raw: 0 } },
        rotation: Fx { raw: ((c.position.x + c.position.y) * FX_ONE) as i64 },
        sides: sides,
        health: fx_of_bits(c.health_bits),
        damaged: false,
        opacity: Scalar { value: Fx { raw: FX_ONE }, tv: Fx { raw: FX_ONE } },
        needs_redraw: true,
        radius: c.radius,
    }
}

/// A bullet seen for the first time; its color family depends on whether
/// the local player fired it.
pub open spec fn fresh_bullet_spec(c: BulletPacket, yid: u32) -> Bullet {
    let p = Vector2 { x: fx_of_i16(c.position.x), y: fx_of_i16(c.position.y) };
    Bullet {
        id: c.id,
        position: p,
        net_position: p,
        velocity: Vector2 {
            x: fx_divided(fx_of_i16(c.velocity.x), BULLET_VEL_DIV as int),
            y: fx_divided(fx_of_i16(c.velocity.y), BULLET_VEL_DIV as int),
        },
        radius: c.radius,
        opacity: Scalar { value: Fx { raw: FX_ONE }, tv: Fx { raw: FX_ONE } },
        scale: Scalar { value: Fx { raw: FX_ONE }, tv: Fx { raw: FX_ONE } },
        color: if c.owner == yid {
            BulletColor::Friendly
        } else {
            BulletColor::Hostile
        },
    }
}

/// Whether one cached entity keeps a census record out of the insert pass.
pub open spec fn retain_match(e: EntityV, snap: protocol::EntityV) -> bool {
    &&& entity_id_v(e) == protocol::entity_v_id(snap)
    &&& entity_opacity_v(e).raw >= FADE_EPS_RAW
    &&& same_kind(e, snap)
}

/// A census record is already represented in the cached store: some cached
/// entity carries its id, has not finished fading, and is of its kind.
pub open spec fn retained(old_es: Seq<EntityV>, snap: protocol::EntityV) -> bool {
    exists|j: int| 0 <= j < old_es.len() && retain_match(#[trigger] old_es[j], snap)
}

/// The insert pass: spawn a fresh entity for every census record that is
/// not the local player and not already represented, threading the
/// generator state through shape creation.
pub open spec fn spawn_new(c: Seq<protocol::EntityV>, old_es: Seq<EntityV>, yid: u32, rng: u64)
    -> (Seq<EntityV>, u64)
    decreases c.len(),
{
    if c.len() == 0 {
        (Seq::empty(), rng)
    } else {
        let snap = c[0];
        let tail = c.subrange(1, c.len() as int);
        if protocol::entity_v_id(snap) == yid || retained(old_es, snap) {
            spawn_new(tail, old_es, yid, rng)
        } else {
            match snap {
                protocol::EntityV::Tank(t) => {
                    let rest = spawn_new(tail, old_es, yid, rng);
                    (seq![EntityV::Tank(fresh_tank_spec(t))] + rest.0, rest.1)
                },
                protocol::EntityV::Shape(sp) => {
                    let r2 = rng_next(rng);
                    let rest = spawn_new(tail, old_es, yid, r2);
                    (seq![EntityV::Shape(fresh_shape_spec(sp, sides_from(r2)))] + rest.0, rest.1)
                },
                protocol::EntityV::Bullet(b) => {
                    let rest = spawn_new(tail, old_es, yid, rng);
                    (seq![EntityV::Bullet(fresh_bullet_spec(b, yid))] + rest.0, rest.1)
                },
            }
        }
    }
}

/// Refresh the locally controlled tank from its census record, when the
/// census has one of tank kind under its id: authoritative values are
/// written directly (the rendered position still eases toward the target);
/// a health target drop raises the damage flash.  A record of another kind
/// under the local id is an invariant violation and is ignored.
pub open spec fn update_self_spec(y: TankV, c: Seq<protocol::EntityV>) -> TankV {
    match census_find(c, y.id) {
        Some(protocol::EntityV::Tank(t)) => {
            let h = fx_of_bits(t.health_bits);
            TankV {
                net_position: Vector2 { x: fx_of_i16(t.position.x), y: fx_of_i16(t.position.y) },
                mockup: t.mockup,
                radius: t.radius,
                damaged: y.damaged || y.health.tv.raw > h.raw,
                health: Scalar { value: y.health.value, tv: h },
                message: t.message,
                ..y
            }
        },
        _ => y,
    }
}

/// The whole reconciliation: session targets from the snapshot, the local
/// tank refreshed, the purge/refresh pass over the cache, then fresh
/// entities for new ids.
pub open spec fn apply_census_spec(w: WorldV, c: CensusV) -> WorldV {
    let yid = w.yourself.id;
    let pa = reconcile_existing(w.entities, c.entities, yid);
    let pb = spawn_new(c.entities, w.entities, yid, w.rng);
    WorldV {
        size: Scalar { value: w.size.value, tv: fx_of_u16(c.arena_size) },
        state: GameState {
            level: Scalar { value: w.state.level.value, tv: fx_of_bits(c.level_bits) },
            ..w.state
        },
        yourself: update_self_spec(w.yourself, c.entities),
        entities: pa + pb.0,
        rng: pb.1,
        ..w
    }
}

/// Find the census record with the given id.
fn census_find_exec<'a>(es: &'a Vec<protocol::Entity>, id: u32) -> (r: Option<
    &'a protocol::Entity,
>)
    ensures
        ({
            let esv = es@.map_values(|x: protocol::Entity| x@);
            match census_find(esv, id) {
                None => r is None,
                Some(ev) => r matches Some(e) && e@ == ev,
            }
        }),
{
    let ghost esv = es@.map_values(|x: protocol::Entity| x@);
    let mut j: usize = 0;
    while j < es.len()
        invariant
            j <= es@.len(),
            esv == es@.map_values(|x: protocol::Entity| x@),
            forall|k: int| 0 <= k < j ==> protocol::entity_v_id(#[trigger] esv[k]) != id,
        decreases es@.len() - j,
    {
        if protocol::entity_id(&es[j]) == id {
            proof {
                protocol::lemma_index_of_id_converse(esv, id, j as int);
            }
            return Some(&es[j]);
        }
        j = j + 1;
    }
    proof {
        protocol::lemma_index_of_id_none(esv, id);
    }
    None
}

/// An exact copy of a cached entity.
fn keep_entity(e: &Entity) -> (r: Entity)
    ensures
        r@ == e@,
{
    match e {
        Entity::Tank(t) => Entity::Tank(
            Tank {
                id: t.id,
                name: copy_bytes(&t.name),
                position: t.position,
                net_position: t.net_position,
                net_rotation: t.net_rotation,
                velocity: t.velocity,
                rotation: t.rotation,
                yourself: t.yourself,
                mockup: t.mockup,
                health: t.health,
                radius: t.radius,
                damaged: t.damaged,
                opacity: t.opacity,
                message: copy_bytes(&t.message),
            },
        ),
        Entity::Shape(s) => Entity::Shape(*s),
        Entity::Bullet(b) => Entity::Bullet(*b),
    }
}

/// Apply the fade-out step to a cached entity.
fn fade_entity_exec(e: &Entity) -> (r: Entity)
    requires
        entity_wf_v(e@),
    ensures
        r@ == fade_entity_spec(e@),
        entity_wf_v(r@),
{
    let rate = Fx { raw: FADE_RATE_RAW };
    match e {
        Entity::Tank(t) => {
            let mut opacity = t.opacity;
            opacity.set_update(Fx::zero(), rate);
            Entity::Tank(
                Tank {
                    id: t.id,
                    name: copy_bytes(&t.name),
                    position: t.position,
                    net_position: t.net_position,
                    net_rotation: t.net_rotation,
                    velocity: t.velocity,
                    rotation: t.rotation,
                    yourself: t.yourself,
                    mockup: t.mockup,
                    health: t.health,
                    radius: t.radius,
                    damaged: t.damaged,
                    opacity,
                    message: copy_bytes(&t.message),
                },
            )
        },
        Entity::Shape(s) => {
            let mut opacity = s.opacity;
            opacity.set_update(Fx::zero(), rate);
            Entity::Shape(Shape { opacity, ..*s })
        },
        Entity::Bullet(b) => {
            let mut opacity = b.opacity;
            opacity.set_update(Fx::zero(), rate);
            let mut scale = b.scale;
            scale.set_update(Fx { raw: SCALE_POP_RAW }, rate);
            Entity::Bullet(Bullet { opacity, scale, ..*b })
        },
    }
}

/// Refresh a cached entity from a census record of the same kind.
fn update_entity_exec(e: &Entity, snap: &protocol::Entity) -> (r: Entity)
    requires
        entity_wf_v(e@),
        same_kind(e@, snap@),
    ensures
        r@ == update_entity_spec(e@, snap@),
        entity_wf_v(r@),
{
    match (e, snap) {
        (Entity::Tank(t), protocol::Entity::Tank(tc)) => {
            let h = fx_from_f32_bits(tc.health_bits);
            Entity::Tank(
                Tank {
                    id: t.id,
                    name: copy_bytes(&t.name),
                    position: t.position,
                    net_position: Vector2 {
                        x: Fx::from_i16(tc.position.x),
                        y: Fx::from_i16(tc.position.y),
                    },
                    net_rotation: fx_from_f32_bits(tc.rotation_bits),
                    velocity: if !t.yourself {
                        Vector2 {
                            x: fx_div_small(Fx::from_i16(tc.velocity.x), TANK_UPDATE_VEL_DIV),
                            y: fx_div_small(Fx::from_i16(tc.velocity.y), TANK_UPDATE_VEL_DIV),
                        }
                    } else {
                        t.velocity
                    },
                    rotation: t.rotation,
                    yourself: t.yourself,
                    mockup: tc.mockup,
                    health: Scalar { value: t.health.value, tv: h },
                    radius: tc.radius,
                    damaged: t.damaged || h.raw < t.health.tv.raw,
                    opacity: t.opacity,
                    message: copy_bytes(&tc.message),
                },
            )
        },
        (Entity::Shape(s), protocol::Entity::Shape(sc)) => {
            let h = fx_from_f32_bits(sc.health_bits);
            Entity::Shape(
                Shape {
                    net_position: Vector2 {
                        x: Fx::from_i16(sc.position.x),
                        y: Fx::from_i16(sc.position.y),
                    },
                    damaged: s.damaged || h.raw < s.health.raw,
                    needs_redraw: s.needs_redraw || h.raw < s.health.raw,
                    health: h,
                    ..*s
                },
            )
        },
        (Entity::Bullet(b), protocol::Entity::Bullet(bc)) => Entity::Bullet(
            Bullet {
                net_position: Vector2 {
                    x: Fx::from_i16(bc.position.x),
                    y: Fx::from_i16(bc.position.y),
                },
                velocity: Vector2 {
                    x: fx_div_small(Fx::from_i16(bc.velocity.x), BULLET_VEL_DIV),
                    y: fx_div_small(Fx::from_i16(bc.velocity.y), BULLET_VEL_DIV),
                },
                ..*b
            },
        ),
        _ => keep_entity(e),
    }
}

/// Spawn a fresh tank for a census record.
fn fresh_tank_exec(tc: &TankPacket) -> (r: Tank)
    ensures
        r@ == fresh_tank_spec(tc@),
        r@.wf(),
        !r.yourself,
{
    let p = Vector2 { x: Fx::from_i16(tc.position.x), y: Fx::from_i16(tc.position.y) };
    let h = fx_from_f32_bits(tc.health_bits);
    Tank {
        id: tc.id,
        name: copy_bytes(&tc.name),
        position: p,
        net_position: p,
        net_rotation: fx_from_f32_bits(tc.rotation_bits),
        velocity: Vector2 {
            x: fx_div_small(Fx::from_i16(tc.velocity.x), TANK_SPAWN_VEL_DIV),
            y: fx_div_small(Fx::from_i16(tc.velocity.y), TANK_SPAWN_VEL_DIV),
        },
        rotation: fx_from_f32_bits(tc.rotation_bits),
        yourself: false,
        mockup: tc.mockup,
        health: Scalar { value: h, tv: h },
        radius: tc.radius,
        damaged: false,
        opacity: Scalar { value: Fx { raw: FX_ONE }, tv: Fx { raw: FX_ONE } },
        message: copy_bytes(&tc.message),
    }
}

/// Spawn a fresh shape for a census record.
fn fresh_shape_exec(sc: &ShapePacket, sides: u8) -> (r: Shape)
    requires
        10 <= sides <= 19,
    ensures
        r == fresh_shape_spec(*sc, sides),
        r.wf(),
{
    let p = Vector2 { x: Fx::from_i16(sc.position.x), y: Fx::from_i16(sc.position.y) };
    let sum: i32 = sc.position.x as i32 + sc.position.y as i32;
    Shape {
        id: sc.id,
        position: p,
        net_position: p,
        velocity: Vector2 { x: Fx::zero(), y: Fx::zero() },
        rotation: Fx::from_i32(sum),
        sides,
        health: fx_from_f32_bits(sc.health_bits),
        damaged: false,
        opacity: Scalar { value: Fx { raw: FX_ONE }, tv: Fx { raw: FX_ONE } },
        needs_redraw: true,
        radius: sc.radius,
    }
}

/// Spawn a fresh bullet for a census record.
fn fresh_bullet_exec(bc: &BulletPacket, yid: u32) -> (r: Bullet)
    ensures
        r == fresh_bullet_spec(*bc, yid),
        r.wf(),
{
    let p = Vector2 { x: Fx::from_i16(bc.position.x), y: Fx::from_i16(bc.position.y) };
    Bullet {
        id: bc.id,
        position: p,
        net_position: p,
        velocity: Vector2 {
            x: fx_div_small(Fx::from_i16(bc.velocity.x), BULLET_VEL_DIV),
            y: fx_div_small(Fx::from_i16(bc.velocity.y), BULLET_VEL_DIV),
        },
        radius: bc.radius,
        opacity: Scalar { value: Fx { raw: FX_ONE }, tv: Fx { raw: FX_ONE } },
        scale: Scalar { value: Fx { raw: FX_ONE }, tv: Fx { raw: FX_ONE } },
        color: if bc.owner == yid {
            BulletColor::Friendly
        } else {
            BulletColor::Hostile
        },
    }
}

/// Whether some cached entity keeps this census record out of the insert
/// pass.
fn retained_exec(es: &Vec<Entity>, snap: &protocol::Entity) -> (r: bool)
    ensures
        r == retained(es@.map_values(|x: Entity| x@), snap@),
{
    let ghost esv = es@.map_values(|x: Entity| x@);
    let id = protocol::entity_id(snap);
    let mut j: usize = 0;
    while j < es.len()
        invariant
            j <= es@.len(),
            esv == es@.map_values(|x: Entity| x@),
            id == protocol::entity_v_id(snap@),
            forall|k: int| 0 <= k < j ==> !retain_match(#[trigger] esv[k], snap@),
        decreases es@.len() - j,
    {
        let matches_kind = match (&es[j], snap) {
            (Entity::Tank(_), protocol::Entity::Tank(_)) => true,
            (Entity::Shape(_), protocol::Entity::Shape(_)) => true,
            (Entity::Bullet(_), protocol::Entity::Bullet(_)) => true,
            _ => false,
        };
        let opacity_ok = match &es[j] {
            Entity::Tank(t) => t.opacity.value.raw >= FADE_EPS_RAW,
            Entity::Shape(s) => s.opacity.value.raw >= FADE_EPS_RAW,
            Entity::Bullet(b) => b.opacity.value.raw >= FADE_EPS_RAW,
        };
        if entity_id(&es[j]) == id && opacity_ok && matches_kind {
            proof {
                assert(retain_match(esv[j as int], snap@));
            }
            return true;
        }
        j = j + 1;
    }
    false
}

/// One xorshift step of the cosmetic generator.
fn rng_step(s: u64) -> (r: u64)
    ensures
        r == rng_next(s),
{
    let a = s ^ (s << 13u64);
    let b = a ^ (a >> 7u64);
    b ^ (b << 17u64)
}

impl World {
    /// Reconcile the world against a census snapshot; the whole effect is
    /// [`apply_census_spec`].
    #[verifier::rlimit(80)]
    pub fn apply_census(&mut self, census: &Census)
        requires
            old(self)@.wf(),
            unique_ids(census@.entities),
        ensures
            final(self)@ == apply_census_spec(old(self)@, census@),
    {
        let ghost w0 = self@;
        let ghost cv = census@.entities;
        let yid = self.yourself.id;
        // session-wide targets straight from the snapshot
        self.size.tv = Fx::from_u16(census.arena_size);
        self.state.level.tv = fx_from_f32_bits(census.level_bits);
        // the locally controlled tank
        match census_find_exec(&census.entities, yid) {
            Some(protocol::Entity::Tank(t)) => {
                let h = fx_from_f32_bits(t.health_bits);
                self.yourself.net_position = Vector2 {
                    x: Fx::from_i16(t.position.x),
                    y: Fx::from_i16(t.position.y),
                };
                self.yourself.mockup = t.mockup;
                self.yourself.radius = t.radius;
                if self.yourself.health.tv.raw > h.raw {
                    self.yourself.damaged = true;
                }
                self.yourself.health.tv = h;
                self.yourself.message = copy_bytes(&t.message);
            },
            _ => {},
        }
        proof {
            assert(self.yourself@ == update_self_spec(w0.yourself, cv));
        }
        // purge / refresh pass
        let n = self.entities.len();
        let mut out: Vec<Entity> = Vec::new();
        let mut i: usize = 0;
        proof {
            assert(w0.entities.subrange(0, n as int) =~= w0.entities);
            assert(out@.map_values(|x: Entity| x@) =~= Seq::<EntityV>::empty());
        }
        while i < n
            invariant
                i <= n,
                n == self.entities@.len(),
                self.entities@.map_values(|x: Entity| x@) =~= w0.entities,
                cv == census@.entities,
                self.rng == w0.rng,
                self.yourself@ == update_self_spec(w0.yourself, cv),
                self.size == (Scalar { value: w0.size.value, tv: fx_of_u16(census@.arena_size) }),
                self.state == (GameState {
                    level: Scalar { value: w0.state.level.value, tv: fx_of_bits(census@.level_bits) },
                    ..w0.state
                }),
                self.camera == w0.camera,
                self.input == w0.input,
                self@.mockups == w0.mockups,
                self.leaderboard@ == w0.leaderboard,
                forall|k: int| 0 <= k < n ==> entity_wf_v(#[trigger] w0.entities[k]),
                reconcile_existing(w0.entities, cv, yid) =~= out@.map_values(|x: Entity| x@)
                    + reconcile_existing(w0.entities.subrange(i as int, n as int), cv, yid),
            decreases n - i,
        {
            let ghost suffix = w0.entities.subrange(i as int, n as int);
            let ghost outv = out@.map_values(|x: Entity| x@);
            proof {
                assert(suffix.subrange(1, suffix.len() as int) =~= w0.entities.subrange(
                    i + 1,
                    n as int,
                ));
                assert(suffix[0] == w0.entities[i as int]);
                assert(self.entities@.map_values(|x: Entity| x@)[i as int] == w0.entities[
                    i as int
                ]);
                assert(entity_wf_v(w0.entities[i as int]));
            }
            let e = &self.entities[i];
            let opacity_raw = match e {
                Entity::Tank(t) => t.opacity.value.raw,
                Entity::Shape(s) => s.opacity.value.raw,
                Entity::Bullet(b) => b.opacity.value.raw,
            };
            if opacity_raw >= FADE_EPS_RAW {
                let id = entity_id(e);
                match census_find_exec(&census.entities, id) {
                    None => {
                        let faded = fade_entity_exec(e);
                        out.push(faded);
                    },
                    Some(snap) => {
                        if id == yid {
                            let kept = keep_entity(e);
                            out.push(kept);
                        } else {
                            let matches_kind = match (e, snap) {
                                (Entity::Tank(_), protocol::Entity::Tank(_)) => true,
                                (Entity::Shape(_), protocol::Entity::Shape(_)) => true,
                                (Entity::Bullet(_), protocol::Entity::Bullet(_)) => true,
                                _ => false,
                            };
                            if matches_kind {
                                let updated = update_entity_exec(e, snap);
                                out.push(updated);
                            }
                        }
                    },
                }
            }
            proof {
                assert(out@.map_values(|x: Entity| x@) =~= outv + reconcile_existing(
                    suffix,
                    cv,
                    yid,
                ).subrange(
                    0,
                    out@.len() - outv.len(),
                ));
            }
            i = i + 1;
        }
        proof {
            assert(w0.entities.subrange(n as int, n as int) =~= Seq::<EntityV>::empty());
            assert(out@.map_values(|x: Entity| x@) =~= reconcile_existing(w0.entities, cv, yid));
        }
        // insert pass for new ids
        let m = census.entities.len();
        let mut j: usize = 0;
        proof {
            assert(cv.subrange(0, m as int) =~= cv);
        }
        while j < m
            invariant
                j <= m,
                m == census@.entities.len(),
                cv == census@.entities,
                self.entities@.map_values(|x: Entity| x@) =~= w0.entities,
                yid == w0.yourself.id,
                self.yourself@ == update_self_spec(w0.yourself, cv),
                self.size == (Scalar { value: w0.size.value, tv: fx_of_u16(census@.arena_size) }),
                self.state == (GameState {
                    level: Scalar { value: w0.state.level.value, tv: fx_of_bits(census@.level_bits) },
                    ..w0.state
                }),
                self.camera == w0.camera,
                self.input == w0.input,
                self@.mockups == w0.mockups,
                self.leaderboard@ == w0.leaderboard,
                spawn_new(cv, w0.entities, yid, w0.rng) == ({
                    let rest = spawn_new(
                        cv.subrange(j as int, m as int),
                        w0.entities,
                        yid,
                        self.rng,
                    );
                    (
                        out@.map_values(|x: Entity| x@).subrange(
                            reconcile_existing(w0.entities, cv, yid).len() as int,
                            out@.len() as int,
                        ) + rest.0,
                        rest.1,
                    )
                }),
                out@.map_values(|x: Entity| x@).subrange(
                    0,
                    reconcile_existing(w0.entities, cv, yid).len() as int,
                ) =~= reconcile_existing(w0.entities, cv, yid),
                out@.len() >= reconcile_existing(w0.entities, cv, yid).len(),
            decreases m - j,
        {
            let ghost suffix = cv.subrange(j as int, m as int);
            let ghost outv = out@.map_values(|x: Entity| x@);
            let ghost rng_before = self.rng;
            proof {
                assert(suffix.subrange(1, suffix.len() as int) =~= cv.subrange(
                    j + 1,
                    m as int,
                ));
                assert(suffix[0] == cv[j as int]);
                assert(census@.entities[j as int] == census.entities@.map_values(
                    |x: protocol::Entity| x@,
                )[j as int]);
            }
            let snap = &census.entities[j];
            let sid = protocol::entity_id(snap);
            if sid != yid && !retained_exec(&self.entities, snap) {
                match snap {
                    protocol::Entity::Tank(tc) => {
                        let fresh = fresh_tank_exec(tc);
                        out.push(Entity::Tank(fresh));
                    },
                    protocol::Entity::Shape(sc) => {
                        self.rng = rng_step(self.rng);
                        let sides: u8 = 10 + (self.rng % 10) as u8;
                        let fresh = fresh_shape_exec(sc, sides);
                        out.push(Entity::Shape(fresh));
                    },
                    protocol::Entity::Bullet(bc) => {
                        let fresh = fresh_bullet_exec(bc, yid);
                        out.push(Entity::Bullet(fresh));
                    },
                }
            }
            proof {
                assert(out@.map_values(|x: Entity| x@) =~= outv + out@.map_values(
                    |x: Entity| x@,
                ).subrange(outv.len() as int, out@.len() as int));
            }
            j = j + 1;
        }
        self.entities = out;
        proof {
            assert(cv.subrange(m as int, m as int) =~= Seq::<protocol::EntityV>::empty());
            let pa = reconcile_existing(w0.entities, cv, yid);
            let pb = spawn_new(cv, w0.entities, yid, w0.rng);
            assert(self.entities@.map_values(|x: Entity| x@) =~= pa + pb.0);
            assert(self.rng == pb.1);
            assert(self@ == apply_census_spec(w0, census@));
        }
    }
}

impl World {
    /// Dispatch one inbound transport buffer by its leading discriminant
    /// byte.  Census, handshake, death and leaderboard messages mutate the
    /// world; malformed buffers and unknown discriminants leave it
    /// untouched and say why, so one bad frame never takes the session
    /// down; message types that only travel to the server are ignored.
    pub fn on_message(&mut self, data: Vec<u8>) -> (r: Result<(), DecodeError>)
        requires
            old(self)@.wf(),
        ensures
            final(self)@.wf(),
            ({
                let s = data@;
                let w0 = old(self)@;
                let w1 = final(self)@;
                if s.len() == 0 {
                    r == Result::<(), DecodeError>::Err(DecodeError::Truncated) && w1 == w0
                } else {
                    let d = s[0];
                    if d == 2 {
                        match protocol::parse_census(s, 1) {
                            Ok((cvv, _)) => r is Ok && w1 == apply_census_spec(w0, cvv),
                            Err(e) => r == Result::<(), DecodeError>::Err(e) && w1 == w0,
                        }
                    } else if d == 3 {
                        match protocol::parse_handshake(s, 1) {
                            Ok((hv, _)) => r is Ok && w1 == (WorldV {
                                mockups: Some(hv.mockups),
                                yourself: TankV { id: hv.id, ..w0.yourself },
                                ..w0
                            }),
                            Err(e) => r == Result::<(), DecodeError>::Err(e) && w1 == w0,
                        }
                    } else if d == 5 {
                        if 9 <= s.len() {
                            r is Ok && w1 == (WorldV {
                                state: GameState {
                                    player_state: PlayerState::Dead(
                                        crate::binary::be_bytes(s, 1, 8) as u64,
                                    ),
                                    ..w0.state
                                },
                                ..w0
                            })
                        } else {
                            r == Result::<(), DecodeError>::Err(DecodeError::Truncated) && w1
                                == w0
                        }
                    } else if d == 7 {
                        match protocol::parse_leaderboard(s, 1) {
                            Ok((lv, _)) => r is Ok && w1 == (WorldV { leaderboard: lv, ..w0 }),
                            Err(e) => r == Result::<(), DecodeError>::Err(e) && w1 == w0,
                        }
                    } else if d <= 7 {
                        r is Ok && w1 == w0
                    } else {
                        r == Result::<(), DecodeError>::Err(DecodeError::UnknownPacket(d)) && w1
                            == w0
                    }
                }
            }),
    {
        let ghost w0 = self@;
        let ghost s = data@;
        let mut buf = crate::binary::StreamPeerBuffer::new();
        buf.set_data_array(data);
        let d = match buf.get_u8() {
            Ok(v) => v,
            Err(e) => {
                return Err(e);
            },
        };
        proof {
            crate::binary::lemma_be_bytes_concrete(s, 0);
        }
        match protocol::Packet::from_u8(d) {
            Some(protocol::Packet::Census) => {
                match protocol::Census::decode(buf) {
                    Ok(census) => {
                        proof {
                            let n = crate::binary::be_bytes(s, 1, 2) as nat;
                            if protocol::parse_entities(s, 9, n, Seq::empty()) is Ok {
                                protocol::lemma_parse_entities_unique(s, 9, n, Seq::empty());
                            }
                            crate::laws::lemma_apply_census_wf(w0, census@);
                        }
                        self.apply_census(&census);
                        Ok(())
                    },
                    Err(e) => Err(e),
                }
            },
            Some(protocol::Packet::Handshake) => {
                match protocol::HandshakePacket::decode(buf) {
                    Ok(h) => {
                        self.yourself.id = h.id;
                        self.mockups = Some(h.mockups);
                        proof {
                            assert(self@ =~= (WorldV {
                                mockups: Some(
                                    protocol::parse_handshake(s, 1)->Ok_0.0.mockups,
                                ),
                                yourself: TankV {
                                    id: protocol::parse_handshake(s, 1)->Ok_0.0.id,
                                    ..w0.yourself
                                },
                                ..w0
                            }));
                        }
                        Ok(())
                    },
                    Err(e) => Err(e),
                }
            },
            Some(protocol::Packet::Death) => {
                match <protocol::DeathPacket as protocol::Protocol>::decode(buf) {
                    Ok(dp) => {
                        self.state.player_state = PlayerState::Dead(dp.time_alive_bits);
                        Ok(())
                    },
                    Err(e) => Err(e),
                }
            },
            Some(protocol::Packet::Leaderboard) => {
                match protocol::LeaderboardPacket::decode(buf) {
                    Ok(lb) => {
                        self.leaderboard = lb;
                        proof {
                            assert(self@ =~= (WorldV {
                                leaderboard: protocol::parse_leaderboard(s, 1)->Ok_0.0,
                                ..w0
                            }));
                        }
                        Ok(())
                    },
                    Err(e) => Err(e),
                }
            },
            Some(_) => Ok(()),
            None => Err(DecodeError::UnknownPacket(d)),
        }
    }
}

} // verus!
