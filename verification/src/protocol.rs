//! The tagged message catalog: every protocol message with its one-byte
//! discriminant, its exact byte encoding, and a decoder that either yields
//! the message or a recoverable [`DecodeError`].
//!
//! Floats travel as IEEE 754 bit patterns (`*_bits` fields); strings travel
//! as length-prefixed UTF-8 and are held as their raw, validated bytes.

use vstd::prelude::*;

verus! {

use vstd::utf8::valid_utf8;
use crate::binary::{
    StreamPeerBuffer, DecodeError, be_bytes, as_signed16, to_unsigned16, wire_be16, wire_be32,
    wire_be64, wire_utf8, parse_utf8, lemma_be_bytes_concrete,
};
use crate::util::Vector2;
use crate::fx::{f32_sign, f32_is_nan};

/// A type of packet, identified on the wire by its discriminant byte.
#[derive(Clone, Copy, Debug, PartialEq, Eq, Structural)]
pub enum Packet {
    Init,
    Input,
    Census,
    Handshake,
    Message,
    Death,
    Respawn,
    Leaderboard,
}

impl Packet {
    /// The discriminant byte each message type carries on the wire.
    pub open spec fn spec_id(self) -> u8 {
        match self {
            Packet::Init => 0,
            Packet::Input => 1,
            Packet::Census => 2,
            Packet::Handshake => 3,
            Packet::Message => 4,
            Packet::Death => 5,
            Packet::Respawn => 6,
            Packet::Leaderboard => 7,
        }
    }

    /// The message type a discriminant byte names, if any.
    pub open spec fn spec_from_u8(v: u8) -> Option<Packet> {
        if v == 0 {
            Some(Packet::Init)
        } else if v == 1 {
            Some(Packet::Input)
        } else if v == 2 {
            Some(Packet::Census)
        } else if v == 3 {
            Some(Packet::Handshake)
        } else if v == 4 {
            Some(Packet::Message)
        } else if v == 5 {
            Some(Packet::Death)
        } else if v == 6 {
            Some(Packet::Respawn)
        } else if v == 7 {
            Some(Packet::Leaderboard)
        } else {
            None
        }
    }

    /// The discriminant byte of this message type.
    pub fn id(self) -> (r: u8)
        ensures
            r == self.spec_id(),
    {
        match self {
            Packet::Init => 0,
            Packet::Input => 1,
            Packet::Census => 2,
            Packet::Handshake => 3,
            Packet::Message => 4,
            Packet::Death => 5,
            Packet::Respawn => 6,
            Packet::Leaderboard => 7,
        }
    }

    /// Dispatch on an inbound discriminant byte.
    pub fn from_u8(v: u8) -> (r: Option<Packet>)
        ensures
            r == Packet::spec_from_u8(v),
    {
        if v == 0 {
            Some(Packet::Init)
        } else if v == 1 {
            Some(Packet::Input)
        } else if v == 2 {
            Some(Packet::Census)
        } else if v == 3 {
            Some(Packet::Handshake)
        } else if v == 4 {
            Some(Packet::Message)
        } else if v == 5 {
            Some(Packet::Death)
        } else if v == 6 {
            Some(Packet::Respawn)
        } else if v == 7 {
            Some(Packet::Leaderboard)
        } else {
            None
        }
    }
}

/// Each discriminant names back the message type it came from.
pub proof fn lemma_packet_id_round_trip(p: Packet)
    ensures
        Packet::spec_from_u8(p.spec_id()) == Some(p),
{
}

/// Messages that can be sent and received over the byte transport.  Each
/// implementation fixes its exact wire bytes (`wire`), its discriminant
/// (`spec_id`), an encoder producing exactly those bytes, and a decoder.
pub trait Protocol: Sized {
    /// The exact bytes of this message, discriminant byte first.
    spec fn wire(&self) -> Seq<u8>;

    /// What the encoder needs of the message (string fields short enough
    /// for their 16-bit length prefix, and valid UTF-8).
    spec fn enc_wf(&self) -> bool;

    /// The discriminant of this message type.
    spec fn spec_id() -> u8;

    /// The discriminant byte, as a value.
    fn id() -> (r: u8)
        ensures
            r == Self::spec_id(),
    ;

    /// Pack the message into a buffer holding exactly its wire bytes.
    fn encode(&self) -> (r: StreamPeerBuffer)
        requires
            self.enc_wf(),
        ensures
            r.data@ == self.wire(),
            r.pos == 0,
    ;

    /// Decode a message of this type from the buffer's cursor onward (the
    /// discriminant byte has already been consumed by dispatch).
    fn decode(buf: StreamPeerBuffer) -> (r: Result<Self, DecodeError>);
}

/// Packet that registers the player with the server.
#[derive(Debug)]
pub struct InitPacket {
    pub name: Vec<u8>,
}

impl Protocol for InitPacket {
    open spec fn wire(&self) -> Seq<u8> {
        seq![0u8] + wire_utf8(self.name@)
    }

    open spec fn enc_wf(&self) -> bool {
        self.name@.len() <= 0xffff && valid_utf8(self.name@)
    }

    open spec fn spec_id() -> u8 {
        0
    }

    fn id() -> u8 {
        0
    }

    fn encode(&self) -> (r: StreamPeerBuffer) {
        let mut buf = StreamPeerBuffer::new();
        buf.put_u8(0);
        buf.put_utf8(&self.name);
        proof {
            assert(buf.data@ =~= self.wire());
        }
        buf
    }

    fn decode(buf: StreamPeerBuffer) -> (r: Result<Self, DecodeError>)
        ensures
            ({
                match parse_utf8(buf.data@, buf.pos as int) {
                    Ok((txt, _)) => r matches Ok(v) && v.name@ == txt,
                    Err(e) => r == Result::<Self, DecodeError>::Err(e),
                }
            }),
    {
        let mut b = buf;
        if b.pos > b.data.len() {
            return Err(DecodeError::Truncated);
        }
        match b.get_utf8() {
            Ok(name) => Ok(InitPacket { name }),
            Err(e) => Err(e),
        }
    }
}

/// Packet that carries chat messages.
#[derive(Debug)]
pub struct MessagePacket {
    pub message: Vec<u8>,
}

impl Protocol for MessagePacket {
    open spec fn wire(&self) -> Seq<u8> {
        seq![4u8] + wire_utf8(self.message@)
    }

    open spec fn enc_wf(&self) -> bool {
        self.message@.len() <= 0xffff && valid_utf8(self.message@)
    }

    open spec fn spec_id() -> u8 {
        4
    }

    fn id() -> u8 {
        4
    }

    fn encode(&self) -> (r: StreamPeerBuffer) {
        let mut buf = StreamPeerBuffer::new();
        buf.put_u8(4);
        buf.put_utf8(&self.message);
        proof {
            assert(buf.data@ =~= self.wire());
        }
        buf
    }

    fn decode(buf: StreamPeerBuffer) -> (r: Result<Self, DecodeError>)
        ensures
            ({
                match parse_utf8(buf.data@, buf.pos as int) {
                    Ok((txt, _)) => r matches Ok(v) && v.message@ == txt,
                    Err(e) => r == Result::<Self, DecodeError>::Err(e),
                }
            }),
    {
        let mut b = buf;
        if b.pos > b.data.len() {
            return Err(DecodeError::Truncated);
        }
        match b.get_utf8() {
            Ok(message) => Ok(MessagePacket { message }),
            Err(e) => Err(e),
        }
    }
}

/// The bit-packed direction/action byte of an input packet.
pub open spec fn flags_byte(w: bool, a: bool, s: bool, d: bool, mouse_down: bool) -> u8 {
    ((if w {
        16int
    } else {
        0int
    }) + (if a {
        8int
    } else {
        0int
    }) + (if s {
        4int
    } else {
        0int
    }) + (if d {
        2int
    } else {
        0int
    }) + (if mouse_down {
        1int
    } else {
        0int
    })) as u8
}

/// The four direction flags and the action flag read back out of the
/// bit-packed byte.
pub open spec fn flag_w(b: u8) -> bool {
    (b as int / 16) % 2 == 1
}

pub open spec fn flag_a(b: u8) -> bool {
    (b as int / 8) % 2 == 1
}

pub open spec fn flag_s(b: u8) -> bool {
    (b as int / 4) % 2 == 1
}

pub open spec fn flag_d(b: u8) -> bool {
    (b as int / 2) % 2 == 1
}

pub open spec fn flag_mouse(b: u8) -> bool {
    b as int % 2 == 1
}

/// Packing the five input flags into a byte and reading them back yields
/// the original flags, whatever their combination.
pub proof fn lemma_input_flags_round_trip(w: bool, a: bool, s: bool, d: bool, m: bool)
    ensures
        flag_w(flags_byte(w, a, s, d, m)) == w,
        flag_a(flags_byte(w, a, s, d, m)) == a,
        flag_s(flags_byte(w, a, s, d, m)) == s,
        flag_d(flags_byte(w, a, s, d, m)) == d,
        flag_mouse(flags_byte(w, a, s, d, m)) == m,
{
}

/// Packet that informs the server which keys are down, with the mouse
/// position.  The directional keys are packed into one byte of bitflags.
#[allow(non_snake_case)]
#[derive(Debug)]
pub struct InputPacket {
    pub W: bool,
    pub A: bool,
    pub S: bool,
    pub D: bool,
    pub mouse_down: bool,
    pub mouse_position: Vector2<i16>,
}

impl Protocol for InputPacket {
    open spec fn wire(&self) -> Seq<u8> {
        seq![1u8, flags_byte(self.W, self.A, self.S, self.D, self.mouse_down)] + wire_be16(
            to_unsigned16(self.mouse_position.x as int),
        ) + wire_be16(to_unsigned16(self.mouse_position.y as int))
    }

    open spec fn enc_wf(&self) -> bool {
        true
    }

    open spec fn spec_id() -> u8 {
        1
    }

    fn id() -> u8 {
        1
    }

    fn encode(&self) -> (r: StreamPeerBuffer) {
        let mut buf = StreamPeerBuffer::new();
        buf.put_u8(1);
        let w: u8 = if self.W {
            16
        } else {
            0
        };
        let a: u8 = if self.A {
            8
        } else {
            0
        };
        let s: u8 = if self.S {
            4
        } else {
            0
        };
        let d: u8 = if self.D {
            2
        } else {
            0
        };
        let m: u8 = if self.mouse_down {
            1
        } else {
            0
        };
        buf.put_u8(w + a + s + d + m);
        buf.put_16(self.mouse_position.x);
        buf.put_16(self.mouse_position.y);
        proof {
            assert(buf.data@ =~= self.wire());
        }
        buf
    }

    fn decode(buf: StreamPeerBuffer) -> (r: Result<Self, DecodeError>)
        ensures
            ({
                let s = buf.data@;
                let p = buf.pos as int;
                if p + 5 <= s.len() {
                    r matches Ok(v) && {
                        let b = s[p] as u8;
                        &&& v.W == flag_w(b)
                        &&& v.A == flag_a(b)
                        &&& v.S == flag_s(b)
                        &&& v.D == flag_d(b)
                        &&& v.mouse_down == flag_mouse(b)
                        &&& v.mouse_position.x as int == as_signed16(be_bytes(s, p + 1, 2))
                        &&& v.mouse_position.y as int == as_signed16(be_bytes(s, p + 3, 2))
                    }
                } else {
                    r == Result::<Self, DecodeError>::Err(DecodeError::Truncated)
                }
            }),
    {
        let mut b = buf;
        if b.pos > b.data.len() {
            return Err(DecodeError::Truncated);
        }
        let flags = match b.get_u8() {
            Ok(v) => v,
            Err(e) => {
                return Err(e);
            },
        };
        let x = match b.get_16() {
            Ok(v) => v,
            Err(e) => {
                return Err(e);
            },
        };
        let y = match b.get_16() {
            Ok(v) => v,
            Err(e) => {
                return Err(e);
            },
        };
        proof {
            lemma_be_bytes_concrete(b.data@, buf.pos as int);
        }
        Ok(InputPacket {
            W: flags / 16 % 2 == 1,
            A: flags / 8 % 2 == 1,
            S: flags / 4 % 2 == 1,
            D: flags / 2 % 2 == 1,
            mouse_down: flags % 2 == 1,
            mouse_position: Vector2 { x, y },
        })
    }
}

impl InputPacket {
    /// Create an input packet from the current input state.
    pub fn from_input(input: crate::engine::Input) -> (r: Self)
        ensures
            r.W == input.W,
            r.A == input.A,
            r.S == input.S,
            r.D == input.D,
            r.mouse_down == input.mouse_down,
            r.mouse_position == input.mouse_position,
    {
        Self {
            W: input.W,
            A: input.A,
            S: input.S,
            D: input.D,
            mouse_down: input.mouse_down,
            mouse_position: input.mouse_position,
        }
    }
}

/// Packet asking to come back to life after a death.  Carries no payload.
#[derive(Debug)]
pub struct RespawnPacket;

impl Protocol for RespawnPacket {
    open spec fn wire(&self) -> Seq<u8> {
        seq![6u8]
    }

    open spec fn enc_wf(&self) -> bool {
        true
    }

    open spec fn spec_id() -> u8 {
        6
    }

    fn id() -> u8 {
        6
    }

    fn encode(&self) -> (r: StreamPeerBuffer) {
        let mut buf = StreamPeerBuffer::new();
        buf.put_u8(6);
        proof {
            assert(buf.data@ =~= self.wire());
        }
        buf
    }

    fn decode(buf: StreamPeerBuffer) -> (r: Result<Self, DecodeError>)
        ensures
            r matches Ok(v),
    {
        Ok(RespawnPacket)
    }
}

/// Packet announcing the local player's death, with the time they lasted
/// (an `f64` bit pattern; only displayed, never computed with).
#[derive(Debug)]
pub struct DeathPacket {
    pub time_alive_bits: u64,
}

impl Protocol for DeathPacket {
    open spec fn wire(&self) -> Seq<u8> {
        seq![5u8] + wire_be64(self.time_alive_bits as int)
    }

    open spec fn enc_wf(&self) -> bool {
        true
    }

    open spec fn spec_id() -> u8 {
        5
    }

    fn id() -> u8 {
        5
    }

    fn encode(&self) -> (r: StreamPeerBuffer) {
        let mut buf = StreamPeerBuffer::new();
        buf.put_u8(5);
        buf.put_f64_bits(self.time_alive_bits);
        proof {
            vstd::arithmetic::div_mod::lemma_mod_division_less_than_divisor(
                self.time_alive_bits as int,
                0x1_0000_0000,
            );
            assert(buf.data@ =~= self.wire());
        }
        buf
    }

    fn decode(buf: StreamPeerBuffer) -> (r: Result<Self, DecodeError>)
        ensures
            ({
                let s = buf.data@;
                let p = buf.pos as int;
                if p + 8 <= s.len() {
                    r matches Ok(v) && v.time_alive_bits as int == be_bytes(s, p, 8)
                } else {
                    r == Result::<Self, DecodeError>::Err(DecodeError::Truncated)
                }
            }),
    {
        let mut b = buf;
        if b.pos > b.data.len() {
            return Err(DecodeError::Truncated);
        }
        match b.get_f64_bits() {
            Ok(bits) => Ok(DeathPacket { time_alive_bits: bits }),
            Err(e) => Err(e),
        }
    }
}

/// Tank health arrives clamped to be non-negative: bit patterns of strictly
/// negative floats read as zero; NaN and negative zero pass through, as a
/// float comparison against zero would leave them.
pub open spec fn clamp_neg_f32_bits(b: u32) -> u32 {
    if f32_sign(b) == 1 && !f32_is_nan(b) && b != 0x8000_0000u32 {
        0
    } else {
        b
    }
}

/// Executable form of [`clamp_neg_f32_bits`].
pub fn clamp_health_bits(b: u32) -> (r: u32)
    ensures
        r == clamp_neg_f32_bits(b),
{
    let sign: u32 = b / 0x8000_0000;
    let e: u32 = (b / 0x80_0000) % 0x100;
    let frac: u32 = b % 0x80_0000;
    let nan = e == 255 && frac != 0;
    if sign == 1 && !nan && b != 0x8000_0000 {
        0
    } else {
        b
    }
}

/// A tank as packed into a census record.
#[derive(Debug)]
pub struct TankPacket {
    pub id: u32,
    pub position: Vector2<i16>,
    pub rotation_bits: u32,
    pub velocity: Vector2<i16>,
    pub mockup: u8,
    pub health_bits: u32,
    pub radius: u16,
    pub name: Vec<u8>,
    pub message: Vec<u8>,
}

/// Mathematical model of a [`TankPacket`].
pub struct TankPacketV {
    pub id: u32,
    pub position: Vector2<i16>,
    pub rotation_bits: u32,
    pub velocity: Vector2<i16>,
    pub mockup: u8,
    pub health_bits: u32,
    pub radius: u16,
    pub name: Seq<u8>,
    pub message: Seq<u8>,
}

impl View for TankPacket {
    type V = TankPacketV;

    open spec fn view(&self) -> TankPacketV {
        TankPacketV {
            id: self.id,
            position: self.position,
            rotation_bits: self.rotation_bits,
            velocity: self.velocity,
            mockup: self.mockup,
            health_bits: self.health_bits,
            radius: self.radius,
            name: self.name@,
            message: self.message@,
        }
    }
}

/// A shape as packed into a census record.
#[derive(Clone, Copy, Debug)]
pub struct ShapePacket {
    pub id: u32,
    pub position: Vector2<i16>,
    pub health_bits: u32,
    pub radius: u16,
}

/// A bullet as packed into a census record.
#[derive(Clone, Copy, Debug)]
pub struct BulletPacket {
    pub id: u32,
    pub position: Vector2<i16>,
    pub radius: u16,
    pub velocity: Vector2<i16>,
    pub owner: u32,
}

/// The kind tag of an entity record inside a census.
#[derive(Clone, Copy, Debug, PartialEq, Eq, Structural)]
pub enum EntityType {
    Tank,
    Shape,
    Bullet,
}

impl EntityType {
    /// The kind tag each entity record carries on the wire.
    pub open spec fn spec_id(self) -> u8 {
        match self {
            EntityType::Tank => 0,
            EntityType::Shape => 1,
            EntityType::Bullet => 2,
        }
    }

    /// The entity kind a tag byte names, if any.
    pub open spec fn spec_from_u8(v: u8) -> Option<EntityType> {
        if v == 0 {
            Some(EntityType::Tank)
        } else if v == 1 {
            Some(EntityType::Shape)
        } else if v == 2 {
            Some(EntityType::Bullet)
        } else {
            None
        }
    }

    /// Dispatch on an entity kind byte.
    pub fn from_u8(v: u8) -> (r: Option<EntityType>)
        ensures
            r == EntityType::spec_from_u8(v),
    {
        if v == 0 {
            Some(EntityType::Tank)
        } else if v == 1 {
            Some(EntityType::Shape)
        } else if v == 2 {
            Some(EntityType::Bullet)
        } else {
            None
        }
    }
}

/// A protocol-level entity: one record of a census.
#[derive(Debug)]
pub enum Entity {
    Tank(TankPacket),
    Shape(ShapePacket),
    Bullet(BulletPacket),
}

/// Mathematical model of a census entity record.
pub enum EntityV {
    Tank(TankPacketV),
    Shape(ShapePacket),
    Bullet(BulletPacket),
}

impl View for Entity {
    type V = EntityV;

    open spec fn view(&self) -> EntityV {
        match self {
            Entity::Tank(t) => EntityV::Tank(t@),
            Entity::Shape(s) => EntityV::Shape(*s),
            Entity::Bullet(b) => EntityV::Bullet(*b),
        }
    }
}

/// The network id of a modelled entity record.
pub open spec fn entity_v_id(e: EntityV) -> u32 {
    match e {
        EntityV::Tank(t) => t.id,
        EntityV::Shape(s) => s.id,
        EntityV::Bullet(b) => b.id,
    }
}

/// The network id of an entity record.
pub fn entity_id(e: &Entity) -> (r: u32)
    ensures
        r == entity_v_id(e@),
{
    match e {
        Entity::Tank(t) => t.id,
        Entity::Shape(s) => s.id,
        Entity::Bullet(b) => b.id,
    }
}

/// Index of the first record with the given id, or -1 when none has it.
pub open spec fn index_of_id(es: Seq<EntityV>, id: u32) -> int
    decreases es.len(),
{
    if es.len() == 0 {
        -1
    } else if entity_v_id(es[0]) == id {
        0
    } else {
        let r = index_of_id(es.subrange(1, es.len() as int), id);
        if r < 0 {
            -1
        } else {
            r + 1
        }
    }
}

/// What [`index_of_id`] means: -1 exactly when no record has the id, and
/// otherwise the first index that does.
pub proof fn lemma_index_of_id_char(es: Seq<EntityV>, id: u32)
    ensures
        index_of_id(es, id) == -1 ==> forall|k: int|
            0 <= k < es.len() ==> entity_v_id(#[trigger] es[k]) != id,
        index_of_id(es, id) != -1 ==> {
            &&& 0 <= index_of_id(es, id) < es.len()
            &&& entity_v_id(es[index_of_id(es, id)]) == id
            &&& forall|k: int|
                0 <= k < index_of_id(es, id) ==> entity_v_id(#[trigger] es[k]) != id
        },
    decreases es.len(),
{
    if es.len() != 0 && entity_v_id(es[0]) != id {
        let tail = es.subrange(1, es.len() as int);
        lemma_index_of_id_char(tail, id);
        assert(forall|k: int| 1 <= k < es.len() ==> #[trigger] es[k] == tail[k - 1]);
        if index_of_id(es, id) == -1 {
            assert forall|k: int| 0 <= k < es.len() implies entity_v_id(#[trigger] es[k])
                != id by {
                if k >= 1 {
                    assert(es[k] == tail[k - 1]);
                    assert(entity_v_id(tail[k - 1]) != id);
                }
            }
        } else {
            let i = index_of_id(es, id);
            assert forall|k: int| 0 <= k < i implies entity_v_id(#[trigger] es[k]) != id by {
                if k >= 1 {
                    assert(es[k] == tail[k - 1]);
                    assert(entity_v_id(tail[k - 1]) != id);
                }
            }
        }
    }
}

/// The first index holding the id is [`index_of_id`].
pub proof fn lemma_index_of_id_converse(es: Seq<EntityV>, id: u32, j: int)
    requires
        0 <= j < es.len(),
        entity_v_id(es[j]) == id,
        forall|k: int| 0 <= k < j ==> entity_v_id(#[trigger] es[k]) != id,
    ensures
        index_of_id(es, id) == j,
    decreases es.len(),
{
    if j > 0 {
        lemma_index_of_id_converse(es.subrange(1, es.len() as int), id, j - 1);
    }
}

/// When no record has the id, [`index_of_id`] is -1.
pub proof fn lemma_index_of_id_none(es: Seq<EntityV>, id: u32)
    requires
        forall|k: int| 0 <= k < es.len() ==> entity_v_id(#[trigger] es[k]) != id,
    ensures
        index_of_id(es, id) == -1,
    decreases es.len(),
{
    if es.len() > 0 {
        lemma_index_of_id_none(es.subrange(1, es.len() as int), id);
    }
}

/// Keyed insertion: a record replaces the one already carrying its id, or
/// is appended when the id is new — the map semantics of a census.
pub open spec fn upsert_entity(es: Seq<EntityV>, e: EntityV) -> Seq<EntityV> {
    let i = index_of_id(es, entity_v_id(e));
    if i < 0 {
        es.push(e)
    } else {
        es.update(i, e)
    }
}

/// No two records carry the same id.
pub open spec fn unique_ids(es: Seq<EntityV>) -> bool {
    forall|i: int, j: int|
        0 <= i < j < es.len() ==> entity_v_id(#[trigger] es[i]) != entity_v_id(#[trigger] es[j])
}

/// Keyed insertion keeps ids unique.
pub proof fn lemma_upsert_unique(es: Seq<EntityV>, e: EntityV)
    requires
        unique_ids(es),
    ensures
        unique_ids(upsert_entity(es, e)),
{
    lemma_index_of_id_char(es, entity_v_id(e));
    let i = index_of_id(es, entity_v_id(e));
    if i < 0 {
        let r = es.push(e);
        assert forall|a: int, b: int| 0 <= a < b < r.len() implies entity_v_id(#[trigger] r[a])
            != entity_v_id(#[trigger] r[b]) by {
            if b == es.len() {
                assert(r[b] == e);
                assert(entity_v_id(es[a]) != entity_v_id(e));
            }
        }
    } else {
        let r = es.update(i, e);
        assert forall|a: int, b: int| 0 <= a < b < r.len() implies entity_v_id(#[trigger] r[a])
            != entity_v_id(#[trigger] r[b]) by {
            if a != i && b != i {
                assert(r[a] == es[a] && r[b] == es[b]);
            } else if a == i {
                assert(r[b] == es[b]);
                assert(entity_v_id(es[i]) != entity_v_id(es[b]));
            } else {
                assert(r[a] == es[a]);
                assert(entity_v_id(es[a]) != entity_v_id(es[i]));
            }
        }
    }
}

/// Reading one tank record (after its kind byte): id, position, rotation,
/// velocity, mockup, health (clamped non-negative), radius, name, message.
pub open spec fn parse_tank(s: Seq<u8>, p: int) -> Result<(TankPacketV, int), DecodeError> {
    if p + 23 > s.len() {
        Err(DecodeError::Truncated)
    } else {
        match parse_utf8(s, p + 23) {
            Err(e) => Err(e),
            Ok((name, p2)) => match parse_utf8(s, p2) {
                Err(e) => Err(e),
                Ok((message, p3)) => Ok(
                    (
                        TankPacketV {
                            id: be_bytes(s, p, 4) as u32,
                            position: Vector2 {
                                x: as_signed16(be_bytes(s, p + 4, 2)) as i16,
                                y: as_signed16(be_bytes(s, p + 6, 2)) as i16,
                            },
                            rotation_bits: be_bytes(s, p + 8, 4) as u32,
                            velocity: Vector2 {
                                x: as_signed16(be_bytes(s, p + 12, 2)) as i16,
                                y: as_signed16(be_bytes(s, p + 14, 2)) as i16,
                            },
                            mockup: s[p + 16],
                            health_bits: clamp_neg_f32_bits(be_bytes(s, p + 17, 4) as u32),
                            radius: be_bytes(s, p + 21, 2) as u16,
                            name: name,
                            message: message,
                        },
                        p3,
                    ),
                ),
            },
        }
    }
}

/// Reading one shape record (after its kind byte): id, position, health,
/// radius.
pub open spec fn parse_shape(s: Seq<u8>, p: int) -> Result<(ShapePacket, int), DecodeError> {
    if p + 14 > s.len() {
        Err(DecodeError::Truncated)
    } else {
        Ok(
            (
                ShapePacket {
                    id: be_bytes(s, p, 4) as u32,
                    position: Vector2 {
                        x: as_signed16(be_bytes(s, p + 4, 2)) as i16,
                        y: as_signed16(be_bytes(s, p + 6, 2)) as i16,
                    },
                    health_bits: be_bytes(s, p + 8, 4) as u32,
                    radius: be_bytes(s, p + 12, 2) as u16,
                },
                p + 14,
            ),
        )
    }
}

/// Reading one bullet record (after its kind byte): id, position, radius,
/// velocity, owning entity id.
pub open spec fn parse_bullet(s: Seq<u8>, p: int) -> Result<(BulletPacket, int), DecodeError> {
    if p + 18 > s.len() {
        Err(DecodeError::Truncated)
    } else {
        Ok(
            (
                BulletPacket {
                    id: be_bytes(s, p, 4) as u32,
                    position: Vector2 {
                        x: as_signed16(be_bytes(s, p + 4, 2)) as i16,
                        y: as_signed16(be_bytes(s, p + 6, 2)) as i16,
                    },
                    radius: be_bytes(s, p + 8, 2) as u16,
                    velocity: Vector2 {
                        x: as_signed16(be_bytes(s, p + 10, 2)) as i16,
                        y: as_signed16(be_bytes(s, p + 12, 2)) as i16,
                    },
                    owner: be_bytes(s, p + 14, 4) as u32,
                },
                p + 18,
            ),
        )
    }
}

/// Reading one entity record: its kind byte, then the record of that kind.
/// An unknown kind is an error for the whole census: the record has no
/// self-describing length, so the cursor could not stay aligned past it.
pub open spec fn parse_entity(s: Seq<u8>, p: int) -> Result<(EntityV, int), DecodeError> {
    if p + 1 > s.len() {
        Err(DecodeError::Truncated)
    } else if s[p] == 0 {
        match parse_tank(s, p + 1) {
            Err(e) => Err(e),
            Ok((t, p2)) => Ok((EntityV::Tank(t), p2)),
        }
    } else if s[p] == 1 {
        match parse_shape(s, p + 1) {
            Err(e) => Err(e),
            Ok((t, p2)) => Ok((EntityV::Shape(t), p2)),
        }
    } else if s[p] == 2 {
        match parse_bullet(s, p + 1) {
            Err(e) => Err(e),
            Ok((t, p2)) => Ok((EntityV::Bullet(t), p2)),
        }
    } else {
        Err(DecodeError::UnknownEntity(s[p]))
    }
}

/// Reading `n` entity records, upserting each into the accumulator by id.
pub open spec fn parse_entities(s: Seq<u8>, p: int, n: nat, acc: Seq<EntityV>) -> Result<
    (Seq<EntityV>, int),
    DecodeError,
>
    decreases n,
{
    if n == 0 {
        Ok((acc, p))
    } else {
        match parse_entity(s, p) {
            Err(e) => Err(e),
            Ok((e2, p2)) => parse_entities(s, p2, (n - 1) as nat, upsert_entity(acc, e2)),
        }
    }
}

/// Every census that parses has unique entity ids.
pub proof fn lemma_parse_entities_unique(s: Seq<u8>, p: int, n: nat, acc: Seq<EntityV>)
    requires
        unique_ids(acc),
        parse_entities(s, p, n, acc) is Ok,
    ensures
        unique_ids(parse_entities(s, p, n, acc)->Ok_0.0),
    decreases n,
{
    if n > 0 {
        match parse_entity(s, p) {
            Err(e) => {},
            Ok((e2, p2)) => {
                lemma_upsert_unique(acc, e2);
                lemma_parse_entities_unique(s, p2, (n - 1) as nat, upsert_entity(acc, e2));
            },
        }
    }
}

/// A full-world snapshot: session-wide values and every visible entity,
/// keyed by id.  It is not a delta; the reconciler computes the delta
/// against local state.
#[derive(Debug)]
pub struct Census {
    pub entity_count: u16,
    pub arena_size: u16,
    pub level_bits: u32,
    pub entities: Vec<Entity>,
}

/// Mathematical model of a [`Census`].
pub struct CensusV {
    pub entity_count: u16,
    pub arena_size: u16,
    pub level_bits: u32,
    pub entities: Seq<EntityV>,
}

impl View for Census {
    type V = CensusV;

    open spec fn view(&self) -> CensusV {
        CensusV {
            entity_count: self.entity_count,
            arena_size: self.arena_size,
            level_bits: self.level_bits,
            entities: self.entities@.map_values(|e: Entity| e@),
        }
    }
}

/// Reading a census (after its discriminant): entity count, arena size,
/// level, then that many entity records.
pub open spec fn parse_census(s: Seq<u8>, p: int) -> Result<(CensusV, int), DecodeError> {
    if p + 8 > s.len() {
        Err(DecodeError::Truncated)
    } else {
        match parse_entities(s, p + 8, be_bytes(s, p, 2) as nat, Seq::empty()) {
            Err(e) => Err(e),
            Ok((es, p2)) => Ok(
                (
                    CensusV {
                        entity_count: be_bytes(s, p, 2) as u16,
                        arena_size: be_bytes(s, p + 2, 2) as u16,
                        level_bits: be_bytes(s, p + 4, 4) as u32,
                        entities: es,
                    },
                    p2,
                ),
            ),
        }
    }
}

impl Census {
    /// Decode a census from the buffer's cursor onward.  A malformed or
    /// unknown record drops the whole census, never a misaligned rest.
    #[verifier::rlimit(50)]
    pub fn decode(buf: StreamPeerBuffer) -> (r: Result<Census, DecodeError>)
        requires
            buf.wf(),
        ensures
            ({
                match parse_census(buf.data@, buf.pos as int) {
                    Ok((cv, _)) => r matches Ok(c) && c@ == cv,
                    Err(e) => r == Result::<Census, DecodeError>::Err(e),
                }
            }),
    {
        let mut b = buf;
        let ghost s = b.data@;
        let ghost p0 = b.pos as int;
        let entity_count = match b.get_u16() {
            Ok(v) => v,
            Err(e) => {
                return Err(e);
            },
        };
        let arena_size = match b.get_u16() {
            Ok(v) => v,
            Err(e) => {
                return Err(e);
            },
        };
        let level_bits = match b.get_f32_bits() {
            Ok(v) => v,
            Err(e) => {
                return Err(e);
            },
        };
        let mut entities: Vec<Entity> = Vec::new();
        let mut i: u16 = 0;
        proof {
            assert(entities@.map_values(|e: Entity| e@) =~= Seq::<EntityV>::empty());
        }
        while i < entity_count
            invariant
                i <= entity_count,
                b.wf(),
                b.data@ == s,
                s == buf.data@,
                p0 == buf.pos as int,
                p0 + 8 <= s.len(),
                entity_count as int == be_bytes(s, p0, 2),
                parse_entities(s, p0 + 8, entity_count as nat, Seq::empty()) == parse_entities(
                    s,
                    b.pos as int,
                    (entity_count - i) as nat,
                    entities@.map_values(|e: Entity| e@),
                ),
            decreases entity_count - i,
        {
            let ghost pos_before = b.pos as int;
            let ghost rem = (entity_count - i) as nat;
            let ghost accv = entities@.map_values(|e: Entity| e@);
            let e = match decode_entity(&mut b) {
                Ok(e) => e,
                Err(err) => {
                    proof {
                        assert(parse_entities(s, pos_before, rem, accv) == Result::<
                            (Seq<EntityV>, int),
                            DecodeError,
                        >::Err(err));
                        assert(parse_entities(s, p0 + 8, entity_count as nat, Seq::<
                            EntityV,
                        >::empty()) == Result::<(Seq<EntityV>, int), DecodeError>::Err(err));
                        assert(be_bytes(s, p0, 2) as nat == entity_count as nat);
                        assert(p0 + 8 <= s.len());
                        assert(parse_census(s, p0) == Result::<(CensusV, int), DecodeError>::Err(
                            err,
                        ));
                    }
                    return Err(err);
                },
            };
            proof {
                assert(parse_entity(s, pos_before) == Result::<(EntityV, int), DecodeError>::Ok(
                    (e@, b.pos as int),
                ));
                assert(parse_entities(s, pos_before, rem, accv) == parse_entities(
                    s,
                    b.pos as int,
                    (rem - 1) as nat,
                    upsert_entity(accv, e@),
                ));
            }
            upsert_exec(&mut entities, e);
            i = i + 1;
        }
        Ok(Census { entity_count, arena_size, level_bits, entities })
    }
}

/// Decode one entity record at the buffer's cursor.
fn decode_entity(b: &mut StreamPeerBuffer) -> (r: Result<Entity, DecodeError>)
    requires
        old(b).wf(),
    ensures
        final(b).wf(),
        final(b).data@ == old(b).data@,
        ({
            match parse_entity(old(b).data@, old(b).pos as int) {
                Ok((ev, p2)) => {
                    &&& (r matches Ok(e) && e@ == ev)
                    &&& final(b).pos == p2
                },
                Err(e) => r == Result::<Entity, DecodeError>::Err(e),
            }
        }),
{
    let ghost s = b.data@;
    let ghost p0 = b.pos as int;
    let kind = match b.get_u8() {
        Ok(v) => v,
        Err(e) => {
            return Err(e);
        },
    };
    proof {
        lemma_be_bytes_concrete(s, p0);
    }
    match EntityType::from_u8(kind) {
        Some(EntityType::Tank) => match decode_tank(b) {
            Ok(t) => Ok(Entity::Tank(t)),
            Err(e) => Err(e),
        },
        Some(EntityType::Shape) => match decode_shape(b) {
            Ok(t) => Ok(Entity::Shape(t)),
            Err(e) => Err(e),
        },
        Some(EntityType::Bullet) => match decode_bullet(b) {
            Ok(t) => Ok(Entity::Bullet(t)),
            Err(e) => Err(e),
        },
        None => Err(DecodeError::UnknownEntity(kind)),
    }
}

/// Decode the body of a tank record.
fn decode_tank(b: &mut StreamPeerBuffer) -> (r: Result<TankPacket, DecodeError>)
    requires
        old(b).wf(),
    ensures
        final(b).wf(),
        final(b).data@ == old(b).data@,
        ({
            match parse_tank(old(b).data@, old(b).pos as int) {
                Ok((tv, p2)) => {
                    &&& (r matches Ok(t) && t@ == tv)
                    &&& final(b).pos == p2
                },
                Err(e) => r == Result::<TankPacket, DecodeError>::Err(e),
            }
        }),
{
    let ghost s = b.data@;
    let ghost p0 = b.pos as int;
    if b.remaining() < 23 {
        return Err(DecodeError::Truncated);
    }
    let id = match b.get_u32() {
        Ok(v) => v,
        Err(e) => {
            return Err(e);
        },
    };
    let px = match b.get_16() {
        Ok(v) => v,
        Err(e) => {
            return Err(e);
        },
    };
    let py = match b.get_16() {
        Ok(v) => v,
        Err(e) => {
            return Err(e);
        },
    };
    let rotation_bits = match b.get_f32_bits() {
        Ok(v) => v,
        Err(e) => {
            return Err(e);
        },
    };
    let vx = match b.get_16() {
        Ok(v) => v,
        Err(e) => {
            return Err(e);
        },
    };
    let vy = match b.get_16() {
        Ok(v) => v,
        Err(e) => {
            return Err(e);
        },
    };
    let mockup = match b.get_u8() {
        Ok(v) => v,
        Err(e) => {
            return Err(e);
        },
    };
    let health_raw = match b.get_f32_bits() {
        Ok(v) => v,
        Err(e) => {
            return Err(e);
        },
    };
    let radius = match b.get_u16() {
        Ok(v) => v,
        Err(e) => {
            return Err(e);
        },
    };
    let name = match b.get_utf8() {
        Ok(v) => v,
        Err(e) => {
            return Err(e);
        },
    };
    let message = match b.get_utf8() {
        Ok(v) => v,
        Err(e) => {
            return Err(e);
        },
    };
    proof {
        lemma_be_bytes_concrete(s, p0 + 16);
    }
    Ok(TankPacket {
        id,
        position: Vector2 { x: px, y: py },
        rotation_bits,
        velocity: Vector2 { x: vx, y: vy },
        mockup,
        health_bits: clamp_health_bits(health_raw),
        radius,
        name,
        message,
    })
}

/// Decode the body of a shape record.
fn decode_shape(b: &mut StreamPeerBuffer) -> (r: Result<ShapePacket, DecodeError>)
    requires
        old(b).wf(),
    ensures
        final(b).wf(),
        final(b).data@ == old(b).data@,
        ({
            match parse_shape(old(b).data@, old(b).pos as int) {
                Ok((tv, p2)) => {
                    &&& (r matches Ok(t) && t == tv)
                    &&& final(b).pos == p2
                },
                Err(e) => r == Result::<ShapePacket, DecodeError>::Err(e),
            }
        }),
{
    if b.remaining() < 14 {
        return Err(DecodeError::Truncated);
    }
    let id = match b.get_u32() {
        Ok(v) => v,
        Err(e) => {
            return Err(e);
        },
    };
    let px = match b.get_16() {
        Ok(v) => v,
        Err(e) => {
            return Err(e);
        },
    };
    let py = match b.get_16() {
        Ok(v) => v,
        Err(e) => {
            return Err(e);
        },
    };
    let health_bits = match b.get_f32_bits() {
        Ok(v) => v,
        Err(e) => {
            return Err(e);
        },
    };
    let radius = match b.get_u16() {
        Ok(v) => v,
        Err(e) => {
            return Err(e);
        },
    };
    Ok(ShapePacket { id, position: Vector2 { x: px, y: py }, health_bits, radius })
}

/// Decode the body of a bullet record.
fn decode_bullet(b: &mut StreamPeerBuffer) -> (r: Result<BulletPacket, DecodeError>)
    requires
        old(b).wf(),
    ensures
        final(b).wf(),
        final(b).data@ == old(b).data@,
        ({
            match parse_bullet(old(b).data@, old(b).pos as int) {
                Ok((tv, p2)) => {
                    &&& (r matches Ok(t) && t == tv)
                    &&& final(b).pos == p2
                },
                Err(e) => r == Result::<BulletPacket, DecodeError>::Err(e),
            }
        }),
{
    if b.remaining() < 18 {
        return Err(DecodeError::Truncated);
    }
    let id = match b.get_u32() {
        Ok(v) => v,
        Err(e) => {
            return Err(e);
        },
    };
    let px = match b.get_16() {
        Ok(v) => v,
        Err(e) => {
            return Err(e);
        },
    };
    let py = match b.get_16() {
        Ok(v) => v,
        Err(e) => {
            return Err(e);
        },
    };
    let radius = match b.get_u16() {
        Ok(v) => v,
        Err(e) => {
            return Err(e);
        },
    };
    let vx = match b.get_16() {
        Ok(v) => v,
        Err(e) => {
            return Err(e);
        },
    };
    let vy = match b.get_16() {
        Ok(v) => v,
        Err(e) => {
            return Err(e);
        },
    };
    let owner = match b.get_u32() {
        Ok(v) => v,
        Err(e) => {
            return Err(e);
        },
    };
    Ok(BulletPacket {
        id,
        position: Vector2 { x: px, y: py },
        radius,
        velocity: Vector2 { x: vx, y: vy },
        owner,
    })
}

/// A barrel's geometry as packed into a handshake (three `f32` bit
/// patterns: width, length, angle).
#[derive(Clone, Copy, Debug, PartialEq, Eq, Structural)]
pub struct BarrelMockup {
    pub width_bits: u32,
    pub length_bits: u32,
    pub angle_bits: u32,
}

/// A server-defined tank template: name, field of view and barrel layout.
/// Received once and treated as immutable session configuration.
#[derive(Debug)]
pub struct TankMockup {
    pub name: Vec<u8>,
    pub fov: u8,
    pub barrels: Vec<BarrelMockup>,
}

/// Mathematical model of a [`TankMockup`].
pub struct TankMockupV {
    pub name: Seq<u8>,
    pub fov: u8,
    pub barrels: Seq<BarrelMockup>,
}

impl View for TankMockup {
    type V = TankMockupV;

    open spec fn view(&self) -> TankMockupV {
        TankMockupV { name: self.name@, fov: self.fov, barrels: self.barrels@ }
    }
}

/// Packet acknowledging the init: the assigned local entity id and the
/// tank mockup catalog.
#[derive(Debug)]
pub struct HandshakePacket {
    pub id: u32,
    pub mockups: Vec<TankMockup>,
}

/// Mathematical model of a [`HandshakePacket`].
pub struct HandshakePacketV {
    pub id: u32,
    pub mockups: Seq<TankMockupV>,
}

impl View for HandshakePacket {
    type V = HandshakePacketV;

    open spec fn view(&self) -> HandshakePacketV {
        HandshakePacketV { id: self.id, mockups: self.mockups@.map_values(|m: TankMockup| m@) }
    }
}

/// Reading `n` barrel records of twelve bytes each.
pub open spec fn parse_barrels(s: Seq<u8>, p: int, n: nat, acc: Seq<BarrelMockup>) -> Result<
    (Seq<BarrelMockup>, int),
    DecodeError,
>
    decreases n,
{
    if n == 0 {
        Ok((acc, p))
    } else if p + 12 > s.len() {
        Err(DecodeError::Truncated)
    } else {
        parse_barrels(
            s,
            p + 12,
            (n - 1) as nat,
            acc.push(
                BarrelMockup {
                    width_bits: be_bytes(s, p, 4) as u32,
                    length_bits: be_bytes(s, p + 4, 4) as u32,
                    angle_bits: be_bytes(s, p + 8, 4) as u32,
                },
            ),
        )
    }
}

/// Reading one mockup: name, field of view, then its barrels.
pub open spec fn parse_mockup(s: Seq<u8>, p: int) -> Result<(TankMockupV, int), DecodeError> {
    match parse_utf8(s, p) {
        Err(e) => Err(e),
        Ok((name, p2)) => {
            if p2 + 2 > s.len() {
                Err(DecodeError::Truncated)
            } else {
                match parse_barrels(s, p2 + 2, s[p2 + 1] as nat, Seq::empty()) {
                    Err(e) => Err(e),
                    Ok((bs, p3)) => Ok(
                        (TankMockupV { name: name, fov: s[p2], barrels: bs }, p3),
                    ),
                }
            }
        },
    }
}

/// Reading `n` mockups in order.
pub open spec fn parse_mockups(s: Seq<u8>, p: int, n: nat, acc: Seq<TankMockupV>) -> Result<
    (Seq<TankMockupV>, int),
    DecodeError,
>
    decreases n,
{
    if n == 0 {
        Ok((acc, p))
    } else {
        match parse_mockup(s, p) {
            Err(e) => Err(e),
            Ok((m, p2)) => parse_mockups(s, p2, (n - 1) as nat, acc.push(m)),
        }
    }
}

/// Reading a handshake (after its discriminant): the assigned id, the
/// mockup count, then the mockups.
pub open spec fn parse_handshake(s: Seq<u8>, p: int) -> Result<
    (HandshakePacketV, int),
    DecodeError,
> {
    if p + 5 > s.len() {
        Err(DecodeError::Truncated)
    } else {
        match parse_mockups(s, p + 5, s[p + 4] as nat, Seq::empty()) {
            Err(e) => Err(e),
            Ok((ms, p2)) => Ok(
                (HandshakePacketV { id: be_bytes(s, p, 4) as u32, mockups: ms }, p2),
            ),
        }
    }
}

impl HandshakePacket {
    /// Decode a handshake from the buffer's cursor onward.
    #[verifier::rlimit(50)]
    pub fn decode(buf: StreamPeerBuffer) -> (r: Result<HandshakePacket, DecodeError>)
        requires
            buf.wf(),
        ensures
            ({
                match parse_handshake(buf.data@, buf.pos as int) {
                    Ok((hv, _)) => r matches Ok(h) && h@ == hv,
                    Err(e) => r == Result::<HandshakePacket, DecodeError>::Err(e),
                }
            }),
    {
        let mut b = buf;
        let ghost s = b.data@;
        let ghost p0 = b.pos as int;
        if b.remaining() < 5 {
            return Err(DecodeError::Truncated);
        }
        let my_id = match b.get_u32() {
            Ok(v) => v,
            Err(e) => {
                return Err(e);
            },
        };
        let mockup_count = match b.get_u8() {
            Ok(v) => v,
            Err(e) => {
                return Err(e);
            },
        };
        proof {
            lemma_be_bytes_concrete(s, p0 + 4);
        }
        let mut mockups: Vec<TankMockup> = Vec::new();
        let mut i: u8 = 0;
        proof {
            assert(mockups@.map_values(|m: TankMockup| m@) =~= Seq::<TankMockupV>::empty());
        }
        while i < mockup_count
            invariant
                i <= mockup_count,
                b.wf(),
                b.data@ == s,
                s == buf.data@,
                p0 == buf.pos as int,
                p0 + 5 <= s.len(),
                mockup_count as int == s[p0 + 4],
                parse_mockups(s, p0 + 5, mockup_count as nat, Seq::empty()) == parse_mockups(
                    s,
                    b.pos as int,
                    (mockup_count - i) as nat,
                    mockups@.map_values(|m: TankMockup| m@),
                ),
            decreases mockup_count - i,
        {
            let ghost pos_before = b.pos as int;
            let ghost rem = (mockup_count - i) as nat;
            let ghost accv = mockups@.map_values(|m: TankMockup| m@);
            let m = match decode_mockup(&mut b) {
                Ok(m) => m,
                Err(err) => {
                    proof {
                        assert(parse_mockups(s, pos_before, rem, accv) == Result::<
                            (Seq<TankMockupV>, int),
                            DecodeError,
                        >::Err(err));
                        assert(parse_handshake(s, p0) == Result::<
                            (HandshakePacketV, int),
                            DecodeError,
                        >::Err(err));
                    }
                    return Err(err);
                },
            };
            proof {
                assert(parse_mockups(s, pos_before, rem, accv) == parse_mockups(
                    s,
                    b.pos as int,
                    (rem - 1) as nat,
                    accv.push(m@),
                ));
            }
            mockups.push(m);
            proof {
                assert(mockups@.map_values(|m2: TankMockup| m2@) =~= accv.push(m@));
            }
            i = i + 1;
        }
        Ok(HandshakePacket { id: my_id, mockups })
    }
}

/// Decode one mockup at the buffer's cursor.
fn decode_mockup(b: &mut StreamPeerBuffer) -> (r: Result<TankMockup, DecodeError>)
    requires
        old(b).wf(),
    ensures
        final(b).wf(),
        final(b).data@ == old(b).data@,
        ({
            match parse_mockup(old(b).data@, old(b).pos as int) {
                Ok((mv, p2)) => {
                    &&& (r matches Ok(m) && m@ == mv)
                    &&& final(b).pos == p2
                },
                Err(e) => r == Result::<TankMockup, DecodeError>::Err(e),
            }
        }),
{
    let ghost s = b.data@;
    let name = match b.get_utf8() {
        Ok(v) => v,
        Err(e) => {
            return Err(e);
        },
    };
    let ghost p2 = b.pos as int;
    if b.remaining() < 2 {
        return Err(DecodeError::Truncated);
    }
    let fov = match b.get_u8() {
        Ok(v) => v,
        Err(e) => {
            return Err(e);
        },
    };
    let barrel_count = match b.get_u8() {
        Ok(v) => v,
        Err(e) => {
            return Err(e);
        },
    };
    proof {
        lemma_be_bytes_concrete(s, p2);
        lemma_be_bytes_concrete(s, p2 + 1);
    }
    let mut barrels: Vec<BarrelMockup> = Vec::new();
    let mut i: u8 = 0;
    proof {
        assert(barrels@ =~= Seq::<BarrelMockup>::empty());
    }
    while i < barrel_count
        invariant
            i <= barrel_count,
            b.wf(),
            b.data@ == s,
            s == old(b).data@,
            parse_utf8(s, old(b).pos as int) == Result::<(Seq<u8>, int), DecodeError>::Ok(
                (name@, p2),
            ),
            p2 + 2 <= s.len(),
            fov == s[p2],
            barrel_count as int == s[p2 + 1],
            parse_barrels(s, p2 + 2, barrel_count as nat, Seq::empty()) == parse_barrels(
                s,
                b.pos as int,
                (barrel_count - i) as nat,
                barrels@,
            ),
        decreases barrel_count - i,
    {
        let ghost pos_before = b.pos as int;
        if b.remaining() < 12 {
            return Err(DecodeError::Truncated);
        }
        let width_bits = match b.get_f32_bits() {
            Ok(v) => v,
            Err(e) => {
                return Err(e);
            },
        };
        let length_bits = match b.get_f32_bits() {
            Ok(v) => v,
            Err(e) => {
                return Err(e);
            },
        };
        let angle_bits = match b.get_f32_bits() {
            Ok(v) => v,
            Err(e) => {
                return Err(e);
            },
        };
        barrels.push(BarrelMockup { width_bits, length_bits, angle_bits });
        proof {
            assert(barrels@ =~= barrels@.subrange(0, barrels@.len() - 1).push(
                BarrelMockup { width_bits, length_bits, angle_bits },
            ));
        }
        i = i + 1;
    }
    Ok(TankMockup { name, fov, barrels })
}

/// One row of the leaderboard.
#[derive(Debug)]
pub struct LeaderboardEntry {
    pub name: Vec<u8>,
    pub level_bits: u32,
    pub mockup: u8,
}

/// Mathematical model of a [`LeaderboardEntry`].
pub struct LeaderboardEntryV {
    pub name: Seq<u8>,
    pub level_bits: u32,
    pub mockup: u8,
}

impl View for LeaderboardEntry {
    type V = LeaderboardEntryV;

    open spec fn view(&self) -> LeaderboardEntryV {
        LeaderboardEntryV { name: self.name@, level_bits: self.level_bits, mockup: self.mockup }
    }
}

/// The current leaderboard, as the server reports it.
#[derive(Debug)]
pub struct LeaderboardPacket {
    pub entries: Vec<LeaderboardEntry>,
}

/// Mathematical model of a [`LeaderboardPacket`].
pub struct LeaderboardPacketV {
    pub entries: Seq<LeaderboardEntryV>,
}

impl View for LeaderboardPacket {
    type V = LeaderboardPacketV;

    open spec fn view(&self) -> LeaderboardPacketV {
        LeaderboardPacketV { entries: self.entries@.map_values(|e: LeaderboardEntry| e@) }
    }
}

/// Reading one leaderboard row: name, level, mockup id.
pub open spec fn parse_lb_entry(s: Seq<u8>, p: int) -> Result<
    (LeaderboardEntryV, int),
    DecodeError,
> {
    match parse_utf8(s, p) {
        Err(e) => Err(e),
        Ok((name, p2)) => {
            if p2 + 5 > s.len() {
                Err(DecodeError::Truncated)
            } else {
                Ok(
                    (
                        LeaderboardEntryV {
                            name: name,
                            level_bits: be_bytes(s, p2, 4) as u32,
                            mockup: s[p2 + 4],
                        },
                        p2 + 5,
                    ),
                )
            }
        },
    }
}

/// Reading `n` leaderboard rows in order.
pub open spec fn parse_lb_entries(s: Seq<u8>, p: int, n: nat, acc: Seq<LeaderboardEntryV>)
    -> Result<(Seq<LeaderboardEntryV>, int), DecodeError>
    decreases n,
{
    if n == 0 {
        Ok((acc, p))
    } else {
        match parse_lb_entry(s, p) {
            Err(e) => Err(e),
            Ok((en, p2)) => parse_lb_entries(s, p2, (n - 1) as nat, acc.push(en)),
        }
    }
}

/// Reading a leaderboard (after its discriminant): a row count, then the
/// rows.
pub open spec fn parse_leaderboard(s: Seq<u8>, p: int) -> Result<
    (LeaderboardPacketV, int),
    DecodeError,
> {
    if p + 1 > s.len() {
        Err(DecodeError::Truncated)
    } else {
        match parse_lb_entries(s, p + 1, s[p] as nat, Seq::empty()) {
            Err(e) => Err(e),
            Ok((es, p2)) => Ok((LeaderboardPacketV { entries: es }, p2)),
        }
    }
}

impl LeaderboardPacket {
    /// Decode a leaderboard from the buffer's cursor onward.
    #[verifier::rlimit(50)]
    pub fn decode(buf: StreamPeerBuffer) -> (r: Result<LeaderboardPacket, DecodeError>)
        requires
            buf.wf(),
        ensures
            ({
                match parse_leaderboard(buf.data@, buf.pos as int) {
                    Ok((lv, _)) => r matches Ok(l) && l@ == lv,
                    Err(e) => r == Result::<LeaderboardPacket, DecodeError>::Err(e),
                }
            }),
    {
        let mut b = buf;
        let ghost s = b.data@;
        let ghost p0 = b.pos as int;
        let count = match b.get_u8() {
            Ok(v) => v,
            Err(e) => {
                return Err(e);
            },
        };
        proof {
            lemma_be_bytes_concrete(s, p0);
        }
        let mut entries: Vec<LeaderboardEntry> = Vec::new();
        let mut i: u8 = 0;
        proof {
            assert(entries@.map_values(|e: LeaderboardEntry| e@) =~= Seq::<
                LeaderboardEntryV,
            >::empty());
        }
        while i < count
            invariant
                i <= count,
                b.wf(),
                b.data@ == s,
                s == buf.data@,
                p0 == buf.pos as int,
                p0 + 1 <= s.len(),
                count as int == s[p0],
                parse_lb_entries(s, p0 + 1, count as nat, Seq::empty()) == parse_lb_entries(
                    s,
                    b.pos as int,
                    (count - i) as nat,
                    entries@.map_values(|e: LeaderboardEntry| e@),
                ),
            decreases count - i,
        {
            let ghost pos_before = b.pos as int;
            let ghost rem = (count - i) as nat;
            let ghost accv = entries@.map_values(|e: LeaderboardEntry| e@);
            let name = match b.get_utf8() {
                Ok(v) => v,
                Err(e) => {
                    proof {
                        assert(parse_lb_entries(s, pos_before, rem, accv) == Result::<
                            (Seq<LeaderboardEntryV>, int),
                            DecodeError,
                        >::Err(e));
                    }
                    return Err(e);
                },
            };
            let ghost p2 = b.pos as int;
            if b.remaining() < 5 {
                return Err(DecodeError::Truncated);
            }
            let level_bits = match b.get_f32_bits() {
                Ok(v) => v,
                Err(e) => {
                    return Err(e);
                },
            };
            let mockup = match b.get_u8() {
                Ok(v) => v,
                Err(e) => {
                    return Err(e);
                },
            };
            proof {
                lemma_be_bytes_concrete(s, p2 + 4);
            }
            entries.push(LeaderboardEntry { name, level_bits, mockup });
            proof {
                assert(entries@.map_values(|e: LeaderboardEntry| e@) =~= accv.push(
                    LeaderboardEntryV { name: name@, level_bits: level_bits, mockup: mockup },
                ));
            }
            i = i + 1;
        }
        Ok(LeaderboardPacket { entries })
    }
}

/// Insert a record into the decoded list with map semantics: replace the
/// record already holding its id, or append.
fn upsert_exec(es: &mut Vec<Entity>, e: Entity)
    ensures
        final(es)@.map_values(|x: Entity| x@) == upsert_entity(
            old(es)@.map_values(|x: Entity| x@),
            e@,
        ),
{
    let ghost evs = es@.map_values(|x: Entity| x@);
    let id = entity_id(&e);
    let mut j: usize = 0;
    while j < es.len()
        invariant
            j <= es@.len(),
            es@ == old(es)@,
            forall|k: int| 0 <= k < j ==> entity_v_id(#[trigger] evs[k]) != id,
            evs == es@.map_values(|x: Entity| x@),
            id == entity_v_id(e@),
        decreases es@.len() - j,
    {
        if entity_id(&es[j]) == id {
            proof {
                lemma_index_of_id_converse(evs, id, j as int);
            }
            es.set(j, e);
            proof {
                assert(es@.map_values(|x: Entity| x@) =~= upsert_entity(evs, e@));
            }
            return ;
        }
        j = j + 1;
    }
    proof {
        lemma_index_of_id_none(evs, id);
    }
    es.push(e);
    proof {
        assert(es@.map_values(|x: Entity| x@) =~= upsert_entity(evs, e@));
    }
}

} // verus!
