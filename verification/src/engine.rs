//! The entity store and session state: client-side entities with their
//! smoothed render values, the player lifecycle state machine, and the
//! per-frame interpolation tick.
//!
//! Every animated quantity lives in Q16.16 fixed point ([`Fx`]); rendered
//! values move toward authoritative targets by the rules in `util`, and the
//! targets themselves are written only by the census reconciler.

use vstd::prelude::*;

verus! {

use crate::fx::{
    Fx, FX_ONE, FX_MAX_RAW, fx_of_f32_bits, tdiv_raw, clamp_raw, lerp_raw, rate_scaled,
    fx_from_f32_bits, fx_add_sat, fx_div_small, fx_lerp, fx_rate_scale,
};
use crate::util::{Vector2, Scalar, lerp_angle, lerp_angle_raw};
use crate::protocol::{TankMockup, TankMockupV, LeaderboardPacket, LeaderboardPacketV};

/// Rendered opacity below which a fading entity is removed outright.
pub const FADE_EPS_RAW: i64 = 3277;

/// Rate at which a disappeared entity fades toward zero opacity.
pub const FADE_RATE_RAW: i64 = 6554;

/// Scale target given to a disappearing bullet (a 2x "pop").
pub const SCALE_POP_RAW: i64 = 131072;

/// Velocity divisor for a tank refreshed from a census.
pub const TANK_UPDATE_VEL_DIV: u64 = 2;

/// Velocity divisor for a freshly created tank.
pub const TANK_SPAWN_VEL_DIV: u64 = 4;

/// Velocity divisor for bullets.
pub const BULLET_VEL_DIV: u64 = 3;

/// Base per-tick rates (scaled by the frame delta when applied).
pub const POS_RATE_RAW: i64 = 3277;

pub const OPACITY_RATE_RAW: i64 = 13107;

pub const HEALTH_RATE_RAW: i64 = 13107;

pub const ROT_RATE_RAW: i64 = 19661;

pub const SHAPE_OPACITY_RATE_RAW: i64 = 6554;

pub const BULLET_RATE_RAW: i64 = 19661;

pub const SELF_OPACITY_RATE_RAW: i64 = 32768;

pub const LEVEL_RATE_RAW: i64 = 3277;

pub const SIZE_RATE_RAW: i64 = 4915;

pub const CAMERA_RATE_RAW: i64 = 4915;

pub const DEATH_ANIM_RATE_RAW: i64 = 13107;

/// Per-frame damping factor applied to tank velocities (0.8).
pub const VEL_DAMP_RAW: i64 = 52429;

/// A signed 16-bit wire value in the fixed-point domain.
pub open spec fn fx_of_i16(v: i16) -> Fx {
    Fx { raw: (v * FX_ONE) as i64 }
}

/// An unsigned 16-bit wire value in the fixed-point domain.
pub open spec fn fx_of_u16(v: u16) -> Fx {
    Fx { raw: (v * FX_ONE) as i64 }
}

/// An `f32` bit pattern in the fixed-point domain.
pub open spec fn fx_of_bits(b: u32) -> Fx {
    Fx { raw: fx_of_f32_bits(b) as i64 }
}

/// Division by a small constant in the fixed-point domain.
pub open spec fn fx_divided(x: Fx, d: int) -> Fx {
    Fx { raw: tdiv_raw(x.raw as int, d) as i64 }
}

/// The currently pressed keys and the mouse state.
#[allow(non_snake_case)]
#[derive(Clone, Copy, Debug)]
pub struct Input {
    pub W: bool,
    pub A: bool,
    pub S: bool,
    pub D: bool,
    pub mouse_down: bool,
    pub mouse_position: Vector2<i16>,
}

impl Input {
    /// All keys released, mouse up, mouse at the origin.
    pub open spec fn spec_neutral() -> Input {
        Input {
            W: false,
            A: false,
            S: false,
            D: false,
            mouse_down: false,
            mouse_position: Vector2 { x: 0i16, y: 0i16 },
        }
    }

    /// Create an input state with nothing pressed.
    pub fn new() -> (r: Input)
        ensures
            r == Input::spec_neutral(),
    {
        Input {
            W: false,
            A: false,
            S: false,
            D: false,
            mouse_down: false,
            mouse_position: Vector2 { x: 0, y: 0 },
        }
    }
}

/// Whether the locally controlled player is alive or dead.  A dead player
/// carries the server-reported time alive (`f64` bit pattern).
#[derive(Clone, Copy, Debug, PartialEq, Eq, Structural)]
pub enum PlayerState {
    Alive,
    Dead(u64),
}

/// Session-wide presentation state: chat, level, and the player lifecycle.
#[derive(Clone, Copy, Debug)]
pub struct GameState {
    pub chat_open: bool,
    pub level: Scalar,
    pub death_animation_completion: Scalar,
    pub player_state: PlayerState,
}

impl GameState {
    /// Scalars in range.
    pub open spec fn wf(self) -> bool {
        self.level.wf() && self.death_animation_completion.wf()
    }

    /// A fresh session: alive, chat closed, level one, no death overlay.
    pub fn new() -> (r: GameState)
        ensures
            r.chat_open == false,
            r.player_state == PlayerState::Alive,
            r.level.value.raw == FX_ONE && r.level.tv.raw == FX_ONE,
            r.death_animation_completion.value.raw == 0,
            r.death_animation_completion.tv.raw == 0,
            r.wf(),
    {
        GameState {
            chat_open: false,
            level: Scalar::new(Fx::one()),
            death_animation_completion: Scalar::new(Fx::zero()),
            player_state: PlayerState::Alive,
        }
    }

    /// Whether the player is currently dead.
    pub fn is_dead(&self) -> (r: bool)
        ensures
            r == (self.player_state is Dead),
    {
        match self.player_state {
            PlayerState::Alive => false,
            PlayerState::Dead(_) => true,
        }
    }

    /// The server-reported time alive of the current death, when dead.
    pub fn time_alive_bits(&self) -> (r: Option<u64>)
        ensures
            ({
                match self.player_state {
                    PlayerState::Alive => r is None,
                    PlayerState::Dead(t) => r == Some(t),
                }
            }),
    {
        match self.player_state {
            PlayerState::Alive => None,
            PlayerState::Dead(t) => Some(t),
        }
    }
}

/// A tank of any class, local or foreign.
#[derive(Debug)]
pub struct Tank {
    pub id: u32,
    pub name: Vec<u8>,
    pub position: Vector2<Fx>,
    pub net_position: Vector2<Fx>,
    pub net_rotation: Fx,
    pub velocity: Vector2<Fx>,
    pub rotation: Fx,
    pub yourself: bool,
    pub mockup: u8,
    pub health: Scalar,
    pub radius: u16,
    pub damaged: bool,
    pub opacity: Scalar,
    pub message: Vec<u8>,
}

/// Mathematical model of a [`Tank`].
pub struct TankV {
    pub id: u32,
    pub name: Seq<u8>,
    pub position: Vector2<Fx>,
    pub net_position: Vector2<Fx>,
    pub net_rotation: Fx,
    pub velocity: Vector2<Fx>,
    pub rotation: Fx,
    pub yourself: bool,
    pub mockup: u8,
    pub health: Scalar,
    pub radius: u16,
    pub damaged: bool,
    pub opacity: Scalar,
    pub message: Seq<u8>,
}

impl View for Tank {
    type V = TankV;

    open spec fn view(&self) -> TankV {
        TankV {
            id: self.id,
            name: self.name@,
            position: self.position,
            net_position: self.net_position,
            net_rotation: self.net_rotation,
            velocity: self.velocity,
            rotation: self.rotation,
            yourself: self.yourself,
            mockup: self.mockup,
            health: self.health,
            radius: self.radius,
            damaged: self.damaged,
            opacity: self.opacity,
            message: self.message@,
        }
    }
}

impl TankV {
    /// Every fixed-point member in range.
    pub open spec fn wf(self) -> bool {
        &&& self.position.x.wf() && self.position.y.wf()
        &&& self.net_position.x.wf() && self.net_position.y.wf()
        &&& self.velocity.x.wf() && self.velocity.y.wf()
        &&& self.rotation.wf() && self.net_rotation.wf()
        &&& self.health.wf()
        &&& self.opacity.wf()
    }
}

/// An environmental shape (a cactus and the like).
#[derive(Clone, Copy, Debug)]
pub struct Shape {
    pub id: u32,
    pub position: Vector2<Fx>,
    pub net_position: Vector2<Fx>,
    pub velocity: Vector2<Fx>,
    pub rotation: Fx,
    pub sides: u8,
    pub health: Fx,
    pub damaged: bool,
    pub opacity: Scalar,
    pub needs_redraw: bool,
    pub radius: u16,
}

impl Shape {
    /// Every fixed-point member in range, and a side count a star can
    /// have.
    pub open spec fn wf(self) -> bool {
        &&& self.position.x.wf() && self.position.y.wf()
        &&& self.net_position.x.wf() && self.net_position.y.wf()
        &&& self.velocity.x.wf() && self.velocity.y.wf()
        &&& self.rotation.wf()
        &&& self.health.wf()
        &&& self.opacity.wf()
        &&& self.sides <= 20
    }
}

/// The color family a bullet is drawn with.
#[derive(Clone, Copy, Debug, PartialEq, Eq, Structural)]
pub enum BulletColor {
    /// Fired by the local player.
    Friendly,
    /// Fired by anyone else.
    Hostile,
}

/// A projectile.
#[derive(Clone, Copy, Debug)]
pub struct Bullet {
    pub id: u32,
    pub position: Vector2<Fx>,
    pub net_position: Vector2<Fx>,
    pub velocity: Vector2<Fx>,
    pub radius: u16,
    pub opacity: Scalar,
    pub scale: Scalar,
    pub color: BulletColor,
}

impl Bullet {
    /// Every fixed-point member in range.
    pub open spec fn wf(self) -> bool {
        &&& self.position.x.wf() && self.position.y.wf()
        &&& self.net_position.x.wf() && self.net_position.y.wf()
        &&& self.velocity.x.wf() && self.velocity.y.wf()
        &&& self.opacity.wf()
        &&& self.scale.wf()
    }
}

/// A client-side entity of any kind, keyed by its network id.
#[derive(Debug)]
pub enum Entity {
    Tank(Tank),
    Shape(Shape),
    Bullet(Bullet),
}

/// Mathematical model of an [`Entity`].
pub enum EntityV {
    Tank(TankV),
    Shape(Shape),
    Bullet(Bullet),
}

impl View for Entity {
    type V = EntityV;

    open spec fn view(&self) -> EntityV {
        match self {
            Entity::Tank(t) => EntityV::Tank(t@),
            Entity::Shape(s) => EntityV::Shape(*s),
            Entity::Bullet(b) => EntityV::Bullet(*b),
        }
    }
}

/// The network id of a modelled entity.
pub open spec fn entity_id_v(e: EntityV) -> u32 {
    match e {
        EntityV::Tank(t) => t.id,
        EntityV::Shape(s) => s.id,
        EntityV::Bullet(b) => b.id,
    }
}

/// The rendered opacity of a modelled entity.
pub open spec fn entity_opacity_v(e: EntityV) -> Fx {
    match e {
        EntityV::Tank(t) => t.opacity.value,
        EntityV::Shape(s) => s.opacity.value,
        EntityV::Bullet(b) => b.opacity.value,
    }
}

/// The opacity target of a modelled entity.
pub open spec fn entity_opacity_tv_v(e: EntityV) -> Fx {
    match e {
        EntityV::Tank(t) => t.opacity.tv,
        EntityV::Shape(s) => s.opacity.tv,
        EntityV::Bullet(b) => b.opacity.tv,
    }
}

/// Well-formedness of a modelled entity.
pub open spec fn entity_wf_v(e: EntityV) -> bool {
    match e {
        EntityV::Tank(t) => t.wf() && !t.yourself,
        EntityV::Shape(s) => s.wf(),
        EntityV::Bullet(b) => b.wf(),
    }
}

/// The network id of an entity.
pub fn entity_id(e: &Entity) -> (r: u32)
    ensures
        r == entity_id_v(e@),
{
    match e {
        Entity::Tank(t) => t.id,
        Entity::Shape(s) => s.id,
        Entity::Bullet(b) => b.id,
    }
}

/// Index of the first stored entity with the given id, or -1.
pub open spec fn store_index_of(es: Seq<EntityV>, id: u32) -> int
    decreases es.len(),
{
    if es.len() == 0 {
        -1
    } else if entity_id_v(es[0]) == id {
        0
    } else {
        let r = store_index_of(es.subrange(1, es.len() as int), id);
        if r < 0 {
            -1
        } else {
            r + 1
        }
    }
}

/// What [`store_index_of`] means.
pub proof fn lemma_store_index_of_char(es: Seq<EntityV>, id: u32)
    ensures
        store_index_of(es, id) == -1 ==> forall|k: int|
            0 <= k < es.len() ==> entity_id_v(#[trigger] es[k]) != id,
        store_index_of(es, id) != -1 ==> {
            &&& 0 <= store_index_of(es, id) < es.len()
            &&& entity_id_v(es[store_index_of(es, id)]) == id
            &&& forall|k: int|
                0 <= k < store_index_of(es, id) ==> entity_id_v(#[trigger] es[k]) != id
        },
    decreases es.len(),
{
    if es.len() != 0 && entity_id_v(es[0]) != id {
        let tail = es.subrange(1, es.len() as int);
        lemma_store_index_of_char(tail, id);
        assert(forall|k: int| 1 <= k < es.len() ==> #[trigger] es[k] == tail[k - 1]);
        if store_index_of(es, id) == -1 {
            assert forall|k: int| 0 <= k < es.len() implies entity_id_v(#[trigger] es[k])
                != id by {
                if k >= 1 {
                    assert(es[k] == tail[k - 1]);
                    assert(entity_id_v(tail[k - 1]) != id);
                }
            }
        } else {
            let i = store_index_of(es, id);
            assert forall|k: int| 0 <= k < i implies entity_id_v(#[trigger] es[k]) != id by {
                if k >= 1 {
                    assert(es[k] == tail[k - 1]);
                    assert(entity_id_v(tail[k - 1]) != id);
                }
            }
        }
    }
}

/// No two stored entities share an id.
pub open spec fn store_unique_ids(es: Seq<EntityV>) -> bool {
    forall|i: int, j: int|
        0 <= i < j < es.len() ==> entity_id_v(#[trigger] es[i]) != entity_id_v(#[trigger] es[j])
}

/// The whole client world: inputs, camera, session targets, the locally
/// controlled tank, and every foreign entity keyed by network id.
#[derive(Debug)]
pub struct World {
    pub input: Input,
    pub camera: Vector2<Fx>,
    pub size: Scalar,
    pub yourself: Tank,
    pub entities: Vec<Entity>,
    pub mockups: Option<Vec<TankMockup>>,
    pub leaderboard: LeaderboardPacket,
    pub state: GameState,
    pub rng: u64,
}

/// Mathematical model of the [`World`].
pub struct WorldV {
    pub input: Input,
    pub camera: Vector2<Fx>,
    pub size: Scalar,
    pub yourself: TankV,
    pub entities: Seq<EntityV>,
    pub mockups: Option<Seq<TankMockupV>>,
    pub leaderboard: LeaderboardPacketV,
    pub state: GameState,
    pub rng: u64,
}

impl View for World {
    type V = WorldV;

    open spec fn view(&self) -> WorldV {
        WorldV {
            input: self.input,
            camera: self.camera,
            size: self.size,
            yourself: self.yourself@,
            entities: self.entities@.map_values(|e: Entity| e@),
            mockups: match self.mockups {
                Some(ref ms) => Some(ms@.map_values(|m: TankMockup| m@)),
                None => None,
            },
            leaderboard: self.leaderboard@,
            state: self.state,
            rng: self.rng,
        }
    }
}

impl WorldV {
    /// The world invariant: every fixed-point member in range, the local
    /// tank marked as such, stored entities foreign with unique ids.
    pub open spec fn wf(self) -> bool {
        &&& self.camera.x.wf() && self.camera.y.wf()
        &&& self.size.wf()
        &&& self.yourself.wf()
        &&& self.yourself.yourself
        &&& self.state.wf()
        &&& store_unique_ids(self.entities)
        &&& forall|i: int| 0 <= i < self.entities.len() ==> entity_wf_v(#[trigger] self.entities[i])
    }
}

impl World {
    /// A fresh session around the given player name: an alive, full-health
    /// local tank at the origin, no foreign entities, no mockups yet.
    pub fn new(name: Vec<u8>, seed: u64) -> (r: World)
        ensures
            r@.wf(),
            r.yourself.id == 0,
            r.yourself@.name == name@,
            r.state.player_state == PlayerState::Alive,
            r.entities@.len() == 0,
            r.mockups is None,
            r.rng == seed,
            r.input == Input::spec_neutral(),
            r.yourself.health.value.raw == FX_ONE && r.yourself.health.tv.raw == FX_ONE,
            r.yourself.opacity.value.raw == FX_ONE && r.yourself.opacity.tv.raw == FX_ONE,
    {
        let world = World {
            input: Input::new(),
            camera: Vector2 { x: Fx::zero(), y: Fx::zero() },
            size: Scalar::new(Fx::one()),
            yourself: Tank {
                id: 0,
                name,
                position: Vector2 { x: Fx::zero(), y: Fx::zero() },
                net_position: Vector2 { x: Fx::zero(), y: Fx::zero() },
                net_rotation: Fx::zero(),
                velocity: Vector2 { x: Fx::zero(), y: Fx::zero() },
                rotation: Fx::zero(),
                yourself: true,
                mockup: 0,
                health: Scalar::new(Fx::one()),
                radius: 50,
                damaged: false,
                opacity: Scalar::new(Fx::one()),
                message: Vec::new(),
            },
            entities: Vec::new(),
            mockups: None,
            leaderboard: LeaderboardPacket { entries: Vec::new() },
            state: GameState::new(),
            rng: seed,
        };
        proof {
            assert(world@.entities =~= Seq::<EntityV>::empty());
        }
        world
    }

    /// The input packet to send this frame.  While the player is dead or
    /// the chat is open, outgoing input is suppressed: a neutral, all-false
    /// input is sent in its place.
    pub fn outgoing_input(&self) -> (r: crate::protocol::InputPacket)
        ensures
            (self.state.player_state is Dead || self.state.chat_open) ==> {
                &&& !r.W && !r.A && !r.S && !r.D && !r.mouse_down
                &&& r.mouse_position.x == 0 && r.mouse_position.y == 0
            },
            !(self.state.player_state is Dead || self.state.chat_open) ==> {
                &&& r.W == self.input.W
                &&& r.A == self.input.A
                &&& r.S == self.input.S
                &&& r.D == self.input.D
                &&& r.mouse_down == self.input.mouse_down
                &&& r.mouse_position == self.input.mouse_position
            },
    {
        if self.state.is_dead() || self.state.chat_open {
            crate::protocol::InputPacket::from_input(Input::new())
        } else {
            crate::protocol::InputPacket::from_input(self.input)
        }
    }

    /// Record the death the server reported: the lifecycle moves to Dead
    /// with the reported time alive; nothing else changes.
    pub fn on_death(&mut self, time_alive_bits: u64)
        ensures
            final(self).state.player_state == PlayerState::Dead(time_alive_bits),
            final(self).state.chat_open == old(self).state.chat_open,
            final(self).state.level == old(self).state.level,
            final(self).state.death_animation_completion == old(
                self,
            ).state.death_animation_completion,
            final(self).input == old(self).input,
            final(self).camera == old(self).camera,
            final(self).size == old(self).size,
            final(self).yourself@ == old(self).yourself@,
            final(self).entities@ == old(self).entities@,
            final(self).mockups == old(self).mockups,
            final(self).leaderboard@ == old(self).leaderboard@,
            final(self).rng == old(self).rng,
            old(self)@.wf() ==> final(self)@.wf(),
    {
        self.state.player_state = PlayerState::Dead(time_alive_bits);
    }
}

/// What pressing the enter key decided.
#[derive(Clone, Copy, Debug, PartialEq, Eq, Structural)]
pub enum EnterAction {
    /// The chat box was opened; keyboard input now feeds it.
    OpenedChat,
    /// The chat box was closed; its text should be sent as a chat message.
    SendChat,
    /// The player chose to respawn; a respawn packet should be sent.
    SendRespawn,
}

impl World {
    /// Handle the enter key.  Alive it toggles the chat; dead it brings
    /// the player back to life optimistically — before any server word —
    /// and asks the caller to send the respawn command.
    pub fn handle_enter(&mut self) -> (r: EnterAction)
        requires
            old(self)@.wf(),
        ensures
            final(self)@.wf(),
            final(self).entities@ == old(self).entities@,
            final(self).leaderboard@ == old(self).leaderboard@,
            final(self).mockups == old(self).mockups,
            final(self).rng == old(self).rng,
            final(self).input == old(self).input,
            final(self).camera == old(self).camera,
            final(self).size == old(self).size,
            final(self).state.level == old(self).state.level,
            ({
                let oldy = old(self).yourself@;
                match old(self).state.player_state {
                    PlayerState::Dead(_) => {
                        &&& r == EnterAction::SendRespawn
                        &&& final(self).state.player_state == PlayerState::Alive
                        &&& final(self).state.chat_open == old(self).state.chat_open
                        &&& final(self).state.death_animation_completion.tv.raw == 0
                        &&& final(self).yourself@ == (TankV {
                            opacity: Scalar { value: oldy.opacity.value, tv: Fx { raw: FX_ONE } },
                            ..oldy
                        })
                    },
                    PlayerState::Alive => {
                        &&& final(self).yourself@ == old(self).yourself@
                        &&& final(self).state.player_state == PlayerState::Alive
                        &&& final(self).state.death_animation_completion == old(
                            self,
                        ).state.death_animation_completion
                        &&& (if old(self).state.chat_open {
                            r == EnterAction::SendChat && !final(self).state.chat_open
                        } else {
                            r == EnterAction::OpenedChat && final(self).state.chat_open
                        })
                    },
                }
            }),
    {
        if self.state.is_dead() {
            self.state.player_state = PlayerState::Alive;
            self.state.death_animation_completion.tv = Fx::zero();
            self.yourself.opacity.tv = Fx::one();
            EnterAction::SendRespawn
        } else if self.state.chat_open {
            self.state.chat_open = false;
            EnterAction::SendChat
        } else {
            self.state.chat_open = true;
            EnterAction::OpenedChat
        }
    }
}

/// An exact copy of a byte vector.
pub fn copy_bytes(v: &Vec<u8>) -> (r: Vec<u8>)
    ensures
        r@ == v@,
{
    let mut out: Vec<u8> = Vec::new();
    let mut i: usize = 0;
    while i < v.len()
        invariant
            i <= v@.len(),
            out@ =~= v@.subrange(0, i as int),
        decreases v@.len() - i,
    {
        out.push(v[i]);
        i = i + 1;
    }
    proof {
        assert(out@ =~= v@);
    }
    out
}

/// A base rate scaled by the frame delta, capped at one.
pub open spec fn srate(base: i64, delta: Fx) -> Fx {
    Fx { raw: rate_scaled(base as int, delta.raw as int) as i64 }
}

/// A lerp step in the fixed-point domain, as a value.
pub open spec fn fx_lerped(v: Fx, t: Fx, r: Fx) -> Fx {
    Fx { raw: lerp_raw(v.raw as int, t.raw as int, r.raw as int) as i64 }
}

/// A saturating sum in the fixed-point domain, as a value.
pub open spec fn fx_summed(a: Fx, b: Fx) -> Fx {
    Fx { raw: clamp_raw(a.raw + b.raw) as i64 }
}

/// Velocity damping (multiplication by 0.8), as a value.
pub open spec fn fx_damped(v: Fx) -> Fx {
    Fx { raw: tdiv_raw(v.raw * VEL_DAMP_RAW, FX_ONE as int) as i64 }
}

/// One frame of a foreign tank: position toward its network target, then
/// carried by its (damped) velocity; rotation along the shortest path
/// toward the network heading; opacity and health toward their targets.
/// The damage flash lasts exactly one frame.
pub open spec fn tick_tank(t: TankV, delta: Fx) -> TankV {
    let pr = srate(POS_RATE_RAW, delta);
    let orate = srate(OPACITY_RATE_RAW, delta);
    let hr = srate(HEALTH_RATE_RAW, delta);
    let rr = srate(ROT_RATE_RAW, delta);
    let lerped = Vector2 {
        x: fx_lerped(t.position.x, t.net_position.x, pr),
        y: fx_lerped(t.position.y, t.net_position.y, pr),
    };
    TankV {
        position: Vector2 {
            x: fx_summed(lerped.x, t.velocity.x),
            y: fx_summed(lerped.y, t.velocity.y),
        },
        rotation: if t.yourself {
            t.rotation
        } else {
            Fx { raw: lerp_angle_raw(t.rotation.raw as int, t.net_rotation.raw as int, rr.raw as int) as i64 }
        },
        velocity: Vector2 { x: fx_damped(t.velocity.x), y: fx_damped(t.velocity.y) },
        opacity: t.opacity.spec_update(orate),
        health: t.health.spec_update(hr),
        damaged: false,
        ..t
    }
}

/// One frame of a shape: position toward its network target, opacity
/// toward its target; an odd side count is evened out; the redraw flag
/// follows the damage flash.
pub open spec fn tick_shape(s: Shape, delta: Fx) -> Shape {
    let pr = srate(POS_RATE_RAW, delta);
    let orate = srate(SHAPE_OPACITY_RATE_RAW, delta);
    Shape {
        position: Vector2 {
            x: fx_lerped(s.position.x, s.net_position.x, pr),
            y: fx_lerped(s.position.y, s.net_position.y, pr),
        },
        opacity: s.opacity.spec_update(orate),
        sides: if s.sides % 2 == 1 {
            (s.sides + 1) as u8
        } else {
            s.sides
        },
        needs_redraw: if s.needs_redraw {
            s.damaged
        } else {
            s.needs_redraw
        },
        damaged: if s.needs_redraw {
            false
        } else {
            s.damaged
        },
        ..s
    }
}

/// One frame of a bullet: position toward its network target, then
/// carried by its velocity; opacity and scale toward their targets.
pub open spec fn tick_bullet(b: Bullet, delta: Fx) -> Bullet {
    let pr = srate(POS_RATE_RAW, delta);
    let br = srate(BULLET_RATE_RAW, delta);
    let lerped = Vector2 {
        x: fx_lerped(b.position.x, b.net_position.x, pr),
        y: fx_lerped(b.position.y, b.net_position.y, pr),
    };
    Bullet {
        position: Vector2 {
            x: fx_summed(lerped.x, b.velocity.x),
            y: fx_summed(lerped.y, b.velocity.y),
        },
        opacity: b.opacity.spec_update(br),
        scale: b.scale.spec_update(br),
        ..b
    }
}

/// One frame of any stored entity.
pub open spec fn tick_entity(e: EntityV, delta: Fx) -> EntityV {
    match e {
        EntityV::Tank(t) => EntityV::Tank(tick_tank(t, delta)),
        EntityV::Shape(s) => EntityV::Shape(tick_shape(s, delta)),
        EntityV::Bullet(b) => EntityV::Bullet(tick_bullet(b, delta)),
    }
}

/// The local tank's frame: movement input becomes velocity (unless dead or
/// typing), then the same motion step as any tank, then the extra opacity
/// smoothing the session applies to the local tank.
pub open spec fn tick_self(y: TankV, input: Input, chat_open: bool, dead: bool, delta: Fx)
    -> TankV {
    let vel = if !chat_open && !dead {
        Vector2 {
            x: if input.A {
                fx_summed(y.velocity.x, Fx { raw: (-FX_ONE) as i64 })
            } else if input.D {
                fx_summed(y.velocity.x, Fx { raw: FX_ONE })
            } else {
                y.velocity.x
            },
            y: if input.W {
                fx_summed(y.velocity.y, Fx { raw: (-FX_ONE) as i64 })
            } else if input.S {
                fx_summed(y.velocity.y, Fx { raw: FX_ONE })
            } else {
                y.velocity.y
            },
        }
    } else {
        y.velocity
    };
    let moved = tick_tank(TankV { velocity: vel, ..y }, delta);
    TankV { opacity: moved.opacity.spec_update(srate(SELF_OPACITY_RATE_RAW, delta)), ..moved }
}

/// One whole frame: the local tank and every stored entity advance toward
/// their targets, the session scalars (arena size, level, death overlay)
/// advance, the lifecycle drives the opacity and overlay targets, and the
/// camera follows the local tank's network position.
pub open spec fn tick_spec(w: WorldV, delta: Fx) -> WorldV {
    let dead = w.state.player_state is Dead;
    let y1 = tick_self(w.yourself, w.input, w.state.chat_open, dead, delta);
    let y2 = TankV {
        opacity: Scalar {
            value: y1.opacity.value,
            tv: if dead {
                Fx { raw: 0 }
            } else {
                Fx { raw: FX_ONE }
            },
        },
        ..y1
    };
    let da = w.state.death_animation_completion.spec_update(srate(DEATH_ANIM_RATE_RAW, delta));
    WorldV {
        yourself: y2,
        entities: w.entities.map_values(|e: EntityV| tick_entity(e, delta)),
        size: w.size.spec_update(srate(SIZE_RATE_RAW, delta)),
        camera: Vector2 {
            x: fx_lerped(w.camera.x, w.yourself.net_position.x, srate(CAMERA_RATE_RAW, delta)),
            y: fx_lerped(w.camera.y, w.yourself.net_position.y, srate(CAMERA_RATE_RAW, delta)),
        },
        state: GameState {
            level: w.state.level.spec_update(srate(LEVEL_RATE_RAW, delta)),
            death_animation_completion: Scalar {
                value: da.value,
                tv: if dead {
                    Fx { raw: FX_ONE }
                } else {
                    Fx { raw: 0 }
                },
            },
            ..w.state
        },
        ..w
    }
}

/// The delta-scaled form of a base rate.
fn rate_for(base: i64, delta: Fx) -> (r: Fx)
    requires
        0 <= base <= FX_ONE,
        delta.wf(),
        delta.raw >= 0,
    ensures
        r == srate(base, delta),
        0 <= r.raw <= FX_ONE,
{
    fx_rate_scale(Fx { raw: base }, delta)
}

/// Execute one frame step of a tank; see [`tick_tank`].
fn tick_tank_exec(t: &Tank, delta: Fx) -> (r: Tank)
    requires
        t@.wf(),
        delta.wf(),
        delta.raw >= 0,
    ensures
        r@ == tick_tank(t@, delta),
        r@.wf(),
        r.yourself == t.yourself,
{
    let pr = rate_for(POS_RATE_RAW, delta);
    let orate = rate_for(OPACITY_RATE_RAW, delta);
    let hr = rate_for(HEALTH_RATE_RAW, delta);
    let rr = rate_for(ROT_RATE_RAW, delta);
    let lx = fx_lerp(t.position.x, t.net_position.x, pr);
    let ly = fx_lerp(t.position.y, t.net_position.y, pr);
    let mut opacity = t.opacity;
    opacity.update(orate);
    let mut health = t.health;
    health.update(hr);
    Tank {
        id: t.id,
        name: copy_bytes(&t.name),
        position: Vector2 { x: fx_add_sat(lx, t.velocity.x), y: fx_add_sat(ly, t.velocity.y) },
        net_position: t.net_position,
        net_rotation: t.net_rotation,
        velocity: Vector2 {
            x: crate::fx::fx_mul_frac(t.velocity.x, VEL_DAMP_RAW),
            y: crate::fx::fx_mul_frac(t.velocity.y, VEL_DAMP_RAW),
        },
        rotation: if t.yourself {
            t.rotation
        } else {
            lerp_angle(t.rotation, t.net_rotation, rr)
        },
        yourself: t.yourself,
        mockup: t.mockup,
        health,
        radius: t.radius,
        damaged: false,
        opacity,
        message: copy_bytes(&t.message),
    }
}

/// Execute one frame step of a shape; see [`tick_shape`].
fn tick_shape_exec(s: &Shape, delta: Fx) -> (r: Shape)
    requires
        s.wf(),
        delta.wf(),
        delta.raw >= 0,
    ensures
        r == tick_shape(*s, delta),
        r.wf(),
{
    let pr = rate_for(POS_RATE_RAW, delta);
    let orate = rate_for(SHAPE_OPACITY_RATE_RAW, delta);
    let mut opacity = s.opacity;
    opacity.update(orate);
    Shape {
        position: Vector2 {
            x: fx_lerp(s.position.x, s.net_position.x, pr),
            y: fx_lerp(s.position.y, s.net_position.y, pr),
        },
        opacity,
        sides: if s.sides % 2 == 1 {
            s.sides + 1
        } else {
            s.sides
        },
        needs_redraw: if s.needs_redraw {
            s.damaged
        } else {
            s.needs_redraw
        },
        damaged: if s.needs_redraw {
            false
        } else {
            s.damaged
        },
        ..*s
    }
}

/// Execute one frame step of a bullet; see [`tick_bullet`].
fn tick_bullet_exec(b: &Bullet, delta: Fx) -> (r: Bullet)
    requires
        b.wf(),
        delta.wf(),
        delta.raw >= 0,
    ensures
        r == tick_bullet(*b, delta),
        r.wf(),
{
    let pr = rate_for(POS_RATE_RAW, delta);
    let br = rate_for(BULLET_RATE_RAW, delta);
    let lx = fx_lerp(b.position.x, b.net_position.x, pr);
    let ly = fx_lerp(b.position.y, b.net_position.y, pr);
    let mut opacity = b.opacity;
    opacity.update(br);
    let mut scale = b.scale;
    scale.update(br);
    Bullet {
        position: Vector2 { x: fx_add_sat(lx, b.velocity.x), y: fx_add_sat(ly, b.velocity.y) },
        opacity,
        scale,
        ..*b
    }
}

/// Advance every stored entity by one frame.
fn tick_store(entities: &mut Vec<Entity>, delta: Fx)
    requires
        forall|k: int|
            0 <= k < old(entities)@.len() ==> entity_wf_v((#[trigger] old(entities)@[k])@),
        delta.wf(),
        delta.raw >= 0,
    ensures
        final(entities)@.len() == old(entities)@.len(),
        forall|k: int|
            0 <= k < final(entities)@.len() ==> (#[trigger] final(entities)@[k])@ == tick_entity(
                old(entities)@[k]@,
                delta,
            ),
        forall|k: int|
            0 <= k < final(entities)@.len() ==> entity_wf_v((#[trigger] final(entities)@[k])@),
{
    let n = entities.len();
    let mut i: usize = 0;
    while i < n
        invariant
            i <= n,
            n == entities@.len(),
            entities@.len() == old(entities)@.len(),
            delta.wf() && delta.raw >= 0,
            forall|k: int|
                0 <= k < i ==> (#[trigger] entities@[k])@ == tick_entity(
                    old(entities)@[k]@,
                    delta,
                ),
            forall|k: int| i <= k < n ==> #[trigger] entities@[k] == old(entities)@[k],
            forall|k: int|
                0 <= k < old(entities)@.len() ==> entity_wf_v((#[trigger] old(entities)@[k])@),
            forall|k: int| 0 <= k < i ==> entity_wf_v((#[trigger] entities@[k])@),
        decreases n - i,
    {
        let ticked: Entity = match &entities[i] {
            Entity::Tank(t) => Entity::Tank(tick_tank_exec(t, delta)),
            Entity::Shape(s) => Entity::Shape(tick_shape_exec(s, delta)),
            Entity::Bullet(b) => Entity::Bullet(tick_bullet_exec(b, delta)),
        };
        entities.set(i, ticked);
        i = i + 1;
    }
}

impl World {
    /// Advance the whole world by one frame; see [`tick_spec`].  `delta` is
    /// the frame-delta factor from the [`crate::util::FrameClock`].
    pub fn tick(&mut self, delta: Fx)
        requires
            old(self)@.wf(),
            delta.wf(),
            delta.raw >= 0,
        ensures
            final(self)@ == tick_spec(old(self)@, delta),
            final(self)@.wf(),
    {
        let ghost w0 = self@;
        let dead = self.state.is_dead();
        // movement input feeds the local tank's velocity
        if !self.state.chat_open && !dead {
            if self.input.A {
                self.yourself.velocity.x = fx_add_sat(
                    self.yourself.velocity.x,
                    Fx { raw: -FX_ONE },
                );
            } else if self.input.D {
                self.yourself.velocity.x = fx_add_sat(self.yourself.velocity.x, Fx { raw: FX_ONE });
            }
            if self.input.W {
                self.yourself.velocity.y = fx_add_sat(
                    self.yourself.velocity.y,
                    Fx { raw: -FX_ONE },
                );
            } else if self.input.S {
                self.yourself.velocity.y = fx_add_sat(self.yourself.velocity.y, Fx { raw: FX_ONE });
            }
        }
        // the local tank moves like any tank, with its extra smoothing
        let y1 = tick_tank_exec(&self.yourself, delta);
        self.yourself = y1;
        let sor = rate_for(SELF_OPACITY_RATE_RAW, delta);
        self.yourself.opacity.update(sor);
        self.yourself.opacity.tv = if dead {
            Fx::zero()
        } else {
            Fx::one()
        };
        // every stored entity advances toward its targets
        proof {
            assert forall|k: int| 0 <= k < self.entities@.len() implies entity_wf_v(
                (#[trigger] self.entities@[k])@,
            ) by {
                assert(w0.entities[k] == self.entities@[k]@);
                assert(entity_wf_v(w0.entities[k]));
            }
        }
        tick_store(&mut self.entities, delta);
        // session scalars and the camera
        let sr = rate_for(SIZE_RATE_RAW, delta);
        self.size.update(sr);
        let lr = rate_for(LEVEL_RATE_RAW, delta);
        self.state.level.update(lr);
        let dr = rate_for(DEATH_ANIM_RATE_RAW, delta);
        self.state.death_animation_completion.update(dr);
        self.state.death_animation_completion.tv = if dead {
            Fx::one()
        } else {
            Fx::zero()
        };
        let cr = rate_for(CAMERA_RATE_RAW, delta);
        self.camera = Vector2 {
            x: fx_lerp(self.camera.x, self.yourself.net_position.x, cr),
            y: fx_lerp(self.camera.y, self.yourself.net_position.y, cr),
        };
        proof {
            assert(self@.entities =~= w0.entities.map_values(|e: EntityV| tick_entity(e, delta)));
            assert(self@ == tick_spec(w0, delta));
        }
    }
}

} // verus!
