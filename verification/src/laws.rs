//! The reconciler's laws: the census-derived store keeps unique,
//! well-formed entities; feeding the same census twice changes no target;
//! and a disappeared entity fades monotonically to its removal.

use vstd::prelude::*;

verus! {

use crate::fx::{Fx, FX_ONE, f32_exp, f32_sig, f32_mag_q16, f32_is_nan};
use crate::util::{Vector2, Scalar};
use crate::engine::{
    EntityV, TankV, Shape, Bullet, WorldV, GameState, PlayerState, entity_id_v, entity_opacity_v,
    entity_opacity_tv_v, entity_wf_v, store_unique_ids, fx_of_i16, fx_of_u16, fx_of_bits,
    fx_divided, FADE_EPS_RAW, FADE_RATE_RAW, SCALE_POP_RAW, TANK_UPDATE_VEL_DIV,
    TANK_SPAWN_VEL_DIV, BULLET_VEL_DIV,
};
use crate::protocol;
use crate::protocol::{CensusV, TankPacketV, ShapePacket, BulletPacket, unique_ids};
use crate::reconcile::{
    census_find, same_kind, fade_entity_spec, update_tank_spec, update_shape_spec,
    update_bullet_spec, update_entity_spec, step_existing, reconcile_existing, rng_next,
    sides_from, fresh_tank_spec, fresh_shape_spec, fresh_bullet_spec, retain_match, retained,
    spawn_new, update_self_spec, apply_census_spec,
};

/// Some cached entity carries the id.
pub open spec fn has_id(es: Seq<EntityV>, id: u32) -> bool {
    exists|j: int| 0 <= j < es.len() && entity_id_v(#[trigger] es[j]) == id
}

/// Some census record carries the id.
pub open spec fn has_pid(cs: Seq<protocol::EntityV>, id: u32) -> bool {
    exists|j: int| 0 <= j < cs.len() && protocol::entity_v_id(#[trigger] cs[j]) == id
}

/// The fixed-point reading of float bits stays in range.
proof fn lemma_fx_of_bits_wf(b: u32)
    ensures
        fx_of_bits(b).wf(),
{
    if !f32_is_nan(b) {
        let e = f32_exp(b);
        if e != 255 {
            let eff = if e == 0 {
                1int
            } else {
                e
            };
            if eff >= 134 {
                vstd::arithmetic::power2::lemma_pow2_pos((eff - 134) as nat);
                vstd::arithmetic::mul::lemma_mul_nonnegative(
                    f32_sig(b),
                    vstd::arithmetic::power2::pow2((eff - 134) as nat) as int,
                );
            } else {
                vstd::arithmetic::power2::lemma_pow2_pos((134 - eff) as nat);
                vstd::arithmetic::div_mod::lemma_div_pos_is_pos(
                    f32_sig(b),
                    vstd::arithmetic::power2::pow2((134 - eff) as nat) as int,
                );
            }
        }
    }
}

/// The fixed-point embedding of a 16-bit value stays in range.
proof fn lemma_fx_of_i16_wf(v: i16)
    ensures
        fx_of_i16(v).wf(),
{
}

/// Truncating division keeps a value in range.
proof fn lemma_fx_divided_wf(x: Fx, d: int)
    requires
        x.wf(),
        1 <= d,
    ensures
        fx_divided(x, d).wf(),
{
    if x.raw >= 0 {
        vstd::arithmetic::div_mod::lemma_div_nonincreasing(x.raw as int, d);
        vstd::arithmetic::div_mod::lemma_div_pos_is_pos(x.raw as int, d);
    } else {
        vstd::arithmetic::div_mod::lemma_div_nonincreasing(-(x.raw as int), d);
        vstd::arithmetic::div_mod::lemma_div_pos_is_pos(-(x.raw as int), d);
    }
}

/// A fade keeps an entity well-formed, keeps its id and kind, sets its
/// opacity target to zero, and moves its rendered opacity toward zero
/// without crossing it.
pub proof fn lemma_fade_facts(e: EntityV)
    requires
        entity_wf_v(e),
    ensures
        entity_wf_v(fade_entity_spec(e)),
        entity_id_v(fade_entity_spec(e)) == entity_id_v(e),
        entity_opacity_tv_v(fade_entity_spec(e)).raw == 0,
        fade_entity_spec(e) is Tank <==> e is Tank,
        fade_entity_spec(e) is Shape <==> e is Shape,
        fade_entity_spec(e) is Bullet <==> e is Bullet,
        entity_opacity_v(e).raw >= 0 ==> 0 <= entity_opacity_v(fade_entity_spec(e)).raw
            <= entity_opacity_v(e).raw,
{
    let rate = Fx { raw: FADE_RATE_RAW };
    match e {
        EntityV::Tank(t) => {
            crate::fx::lemma_lerp_bounds(t.opacity.value.raw as int, 0, rate.raw as int);
        },
        EntityV::Shape(s) => {
            crate::fx::lemma_lerp_bounds(s.opacity.value.raw as int, 0, rate.raw as int);
        },
        EntityV::Bullet(b) => {
            crate::fx::lemma_lerp_bounds(b.opacity.value.raw as int, 0, rate.raw as int);
            crate::fx::lemma_lerp_bounds(b.scale.value.raw as int, SCALE_POP_RAW as int, rate.raw as int);
        },
    }
}

/// A refresh keeps an entity well-formed and keeps its id, kind, and
/// rendered opacity (value and target).
pub proof fn lemma_update_facts(e: EntityV, c: protocol::EntityV)
    requires
        entity_wf_v(e),
        same_kind(e, c),
    ensures
        entity_wf_v(update_entity_spec(e, c)),
        entity_id_v(update_entity_spec(e, c)) == entity_id_v(e),
        entity_opacity_v(update_entity_spec(e, c)) == entity_opacity_v(e),
        entity_opacity_tv_v(update_entity_spec(e, c)) == entity_opacity_tv_v(e),
{
    match (e, c) {
        (EntityV::Tank(t), protocol::EntityV::Tank(tc)) => {
            lemma_fx_of_bits_wf(tc.health_bits);
            lemma_fx_of_bits_wf(tc.rotation_bits);
            lemma_fx_of_i16_wf(tc.position.x);
            lemma_fx_of_i16_wf(tc.position.y);
            lemma_fx_of_i16_wf(tc.velocity.x);
            lemma_fx_of_i16_wf(tc.velocity.y);
            lemma_fx_divided_wf(fx_of_i16(tc.velocity.x), TANK_UPDATE_VEL_DIV as int);
            lemma_fx_divided_wf(fx_of_i16(tc.velocity.y), TANK_UPDATE_VEL_DIV as int);
        },
        (EntityV::Shape(s), protocol::EntityV::Shape(sc)) => {
            lemma_fx_of_bits_wf(sc.health_bits);
            lemma_fx_of_i16_wf(sc.position.x);
            lemma_fx_of_i16_wf(sc.position.y);
        },
        (EntityV::Bullet(b), protocol::EntityV::Bullet(bc)) => {
            lemma_fx_of_i16_wf(bc.position.x);
            lemma_fx_of_i16_wf(bc.position.y);
            lemma_fx_of_i16_wf(bc.velocity.x);
            lemma_fx_of_i16_wf(bc.velocity.y);
            lemma_fx_divided_wf(fx_of_i16(bc.velocity.x), BULLET_VEL_DIV as int);
            lemma_fx_divided_wf(fx_of_i16(bc.velocity.y), BULLET_VEL_DIV as int);
        },
        _ => {},
    }
}

/// A step keeps id and well-formedness of whatever it emits.
pub proof fn lemma_step_facts(e: EntityV, c: Seq<protocol::EntityV>, yid: u32)
    requires
        entity_wf_v(e),
    ensures
        step_existing(e, c, yid) matches Some(e2) ==> entity_id_v(e2) == entity_id_v(e)
            && entity_wf_v(e2),
{
    if entity_opacity_v(e).raw >= FADE_EPS_RAW {
        match census_find(c, entity_id_v(e)) {
            None => {
                lemma_fade_facts(e);
            },
            Some(snap) => {
                if entity_id_v(e) != yid && same_kind(e, snap) {
                    lemma_update_facts(e, snap);
                }
            },
        }
    }
}

/// Every entity the purge/refresh pass emits is the step of some cached
/// entity.
#[verifier::spinoff_prover]
#[verifier::rlimit(100)]
pub proof fn lemma_reconcile_membership_fwd(
    old_es: Seq<EntityV>,
    c: Seq<protocol::EntityV>,
    yid: u32,
)
    ensures
        forall|k: int|
            #![trigger reconcile_existing(old_es, c, yid)[k]]
            0 <= k < reconcile_existing(old_es, c, yid).len() ==> exists|j: int|
                0 <= j < old_es.len() && step_existing(#[trigger] old_es[j], c, yid) == Some(
                    reconcile_existing(old_es, c, yid)[k],
                ),
    decreases old_es.len(),
{
    if old_es.len() > 0 {
        let tail = old_es.subrange(1, old_es.len() as int);
        let pa = reconcile_existing(old_es, c, yid);
        let pat = reconcile_existing(tail, c, yid);
        lemma_reconcile_membership_fwd(tail, c, yid);
        assert(forall|j: int| 1 <= j < old_es.len() ==> #[trigger] old_es[j] == tail[j - 1]);
        match step_existing(old_es[0], c, yid) {
            None => {
                assert(pa == pat);
                assert forall|k: int| #![trigger pa[k]] 0 <= k < pa.len() implies exists|j: int|
                    0 <= j < old_es.len() && step_existing(#[trigger] old_es[j], c, yid) == Some(
                        pa[k],
                    ) by {
                    let j0 = choose|j: int|
                        0 <= j < tail.len() && step_existing(#[trigger] tail[j], c, yid) == Some(
                            pat[k],
                        );
                    assert(old_es[j0 + 1] == tail[j0]);
                    assert(step_existing(old_es[j0 + 1], c, yid) == Some(pa[k]));
                }
            },
            Some(e2) => {
                assert(pa == seq![e2] + pat);
                assert(pa[0] == e2);
                assert(forall|k: int| 1 <= k < pa.len() ==> #[trigger] pa[k] == pat[k - 1]);
                assert forall|k: int| #![trigger pa[k]] 0 <= k < pa.len() implies exists|j: int|
                    0 <= j < old_es.len() && step_existing(#[trigger] old_es[j], c, yid) == Some(
                        pa[k],
                    ) by {
                    if k == 0 {
                        assert(step_existing(old_es[0], c, yid) == Some(pa[0]));
                    } else {
                        let k1 = k - 1;
                        let j0 = choose|j: int|
                            0 <= j < tail.len() && step_existing(#[trigger] tail[j], c, yid)
                                == Some(pat[k1]);
                        assert(old_es[j0 + 1] == tail[j0]);
                        assert(step_existing(old_es[j0 + 1], c, yid) == Some(pa[k]));
                    }
                }
            },
        }
    }
}

/// Every step that emits something appears in the purge/refresh output.
#[verifier::spinoff_prover]
#[verifier::rlimit(100)]
pub proof fn lemma_reconcile_membership_bwd(
    old_es: Seq<EntityV>,
    c: Seq<protocol::EntityV>,
    yid: u32,
)
    ensures
        forall|j: int|
            0 <= j < old_es.len() && step_existing(#[trigger] old_es[j], c, yid) is Some
                ==> exists|k: int|
                0 <= k < reconcile_existing(old_es, c, yid).len() && step_existing(
                    old_es[j],
                    c,
                    yid,
                ) == Some(#[trigger] reconcile_existing(old_es, c, yid)[k]),
    decreases old_es.len(),
{
    if old_es.len() > 0 {
        let tail = old_es.subrange(1, old_es.len() as int);
        let pa = reconcile_existing(old_es, c, yid);
        let pat = reconcile_existing(tail, c, yid);
        lemma_reconcile_membership_bwd(tail, c, yid);
        assert(forall|j: int| 1 <= j < old_es.len() ==> #[trigger] old_es[j] == tail[j - 1]);
        match step_existing(old_es[0], c, yid) {
            None => {
                assert(pa == pat);
                assert forall|j: int|
                    0 <= j < old_es.len() && step_existing(#[trigger] old_es[j], c, yid)
                        is Some implies exists|k: int|
                    0 <= k < pa.len() && step_existing(old_es[j], c, yid) == Some(
                        #[trigger] pa[k],
                    ) by {
                    if j >= 1 {
                        assert(tail[j - 1] == old_es[j]);
                        let k0 = choose|k: int|
                            0 <= k < pat.len() && step_existing(tail[j - 1], c, yid) == Some(
                                #[trigger] pat[k],
                            );
                        assert(step_existing(old_es[j], c, yid) == Some(pa[k0]));
                    }
                }
            },
            Some(e2) => {
                assert(pa == seq![e2] + pat);
                assert(pa[0] == e2);
                assert(forall|k: int| 1 <= k < pa.len() ==> #[trigger] pa[k] == pat[k - 1]);
                assert forall|j: int|
                    0 <= j < old_es.len() && step_existing(#[trigger] old_es[j], c, yid)
                        is Some implies exists|k: int|
                    0 <= k < pa.len() && step_existing(old_es[j], c, yid) == Some(
                        #[trigger] pa[k],
                    ) by {
                    if j == 0 {
                        assert(step_existing(old_es[0], c, yid) == Some(pa[0]));
                    } else {
                        assert(tail[j - 1] == old_es[j]);
                        let k0 = choose|k: int|
                            0 <= k < pat.len() && step_existing(tail[j - 1], c, yid) == Some(
                                #[trigger] pat[k],
                            );
                        assert(step_existing(old_es[j], c, yid) == Some(pa[k0 + 1]));
                    }
                }
            },
        }
    }
}

/// Every entity the insert pass emits is fresh for some census record that
/// is neither the local player nor already represented; and every such
/// record's fresh entity appears.
#[verifier::rlimit(100)]
pub proof fn lemma_spawn_membership(
    c: Seq<protocol::EntityV>,
    old_es: Seq<EntityV>,
    yid: u32,
    rng: u64,
)
    ensures
        forall|k: int|
            #![trigger spawn_new(c, old_es, yid, rng).0[k]]
            0 <= k < spawn_new(c, old_es, yid, rng).0.len() ==> exists|j: int|
                0 <= j < c.len() && protocol::entity_v_id(#[trigger] c[j]) != yid && !retained(
                    old_es,
                    c[j],
                ) && protocol::entity_v_id(c[j]) == entity_id_v(
                    spawn_new(c, old_es, yid, rng).0[k],
                ),
        forall|j: int|
            0 <= j < c.len() && protocol::entity_v_id(#[trigger] c[j]) != yid && !retained(
                old_es,
                c[j],
            ) ==> exists|k: int|
                0 <= k < spawn_new(c, old_es, yid, rng).0.len() && entity_id_v(
                    #[trigger] spawn_new(c, old_es, yid, rng).0[k],
                ) == protocol::entity_v_id(c[j]) && same_kind(
                    spawn_new(c, old_es, yid, rng).0[k],
                    c[j],
                ) && entity_opacity_v(spawn_new(c, old_es, yid, rng).0[k]).raw == FX_ONE,
        forall|k: int|
            0 <= k < spawn_new(c, old_es, yid, rng).0.len() ==> entity_wf_v(
                #[trigger] spawn_new(c, old_es, yid, rng).0[k],
            ) && entity_opacity_v(spawn_new(c, old_es, yid, rng).0[k]).raw == FX_ONE,

    decreases c.len(),
{
    if c.len() > 0 {
        let tail = c.subrange(1, c.len() as int);
        let snap = c[0];
        let pb = spawn_new(c, old_es, yid, rng).0;
        assert(forall|j: int| 1 <= j < c.len() ==> #[trigger] c[j] == tail[j - 1]);
        if protocol::entity_v_id(snap) == yid || retained(old_es, snap) {
            lemma_spawn_membership(tail, old_es, yid, rng);
            let pbt = spawn_new(tail, old_es, yid, rng).0;
            assert(pb == pbt);
            assert forall|k: int| #![trigger pb[k]] 0 <= k < pb.len() implies exists|j: int|
                0 <= j < c.len() && protocol::entity_v_id(#[trigger] c[j]) != yid && !retained(
                    old_es,
                    c[j],
                ) && protocol::entity_v_id(c[j]) == entity_id_v(pb[k]) by {
                let j0 = choose|j: int|
                    0 <= j < tail.len() && protocol::entity_v_id(#[trigger] tail[j]) != yid
                        && !retained(old_es, tail[j]) && protocol::entity_v_id(tail[j])
                        == entity_id_v(pbt[k]);
                assert(c[j0 + 1] == tail[j0]);
                assert(protocol::entity_v_id(c[j0 + 1]) != yid && !retained(old_es, c[j0 + 1])
                    && protocol::entity_v_id(c[j0 + 1]) == entity_id_v(pb[k]));
            }
            assert forall|j: int|
                0 <= j < c.len() && protocol::entity_v_id(#[trigger] c[j]) != yid && !retained(
                    old_es,
                    c[j],
                ) implies exists|k: int|
                0 <= k < pb.len() && entity_id_v(#[trigger] pb[k]) == protocol::entity_v_id(c[j])
                    && same_kind(pb[k], c[j]) && entity_opacity_v(pb[k]).raw == FX_ONE by {
                assert(j >= 1);
                assert(tail[j - 1] == c[j]);
                let pbt = spawn_new(tail, old_es, yid, rng).0;
                let k0 = choose|k: int|
                    0 <= k < pbt.len() && entity_id_v(#[trigger] pbt[k]) == protocol::entity_v_id(
                        tail[j - 1],
                    ) && same_kind(pbt[k], tail[j - 1]) && entity_opacity_v(pbt[k]).raw == FX_ONE;
                assert(pb[k0] == pbt[k0]);
            }
        } else {
            let rng2 = if snap is Shape {
                rng_next(rng)
            } else {
                rng
            };
            lemma_spawn_membership(tail, old_es, yid, rng2);
            let pbt = spawn_new(tail, old_es, yid, rng2).0;
            let head: EntityV = match snap {
                protocol::EntityV::Tank(t) => EntityV::Tank(fresh_tank_spec(t)),
                protocol::EntityV::Shape(sp) => EntityV::Shape(
                    fresh_shape_spec(sp, sides_from(rng_next(rng))),
                ),
                protocol::EntityV::Bullet(b) => EntityV::Bullet(fresh_bullet_spec(b, yid)),
            };
            assert(pb == seq![head] + pbt);
            assert(pb[0] == head);
            assert(forall|k: int| 1 <= k < pb.len() ==> #[trigger] pb[k] == pbt[k - 1]);
            lemma_fresh_facts(snap, yid, rng);
            assert forall|k: int| #![trigger pb[k]] 0 <= k < pb.len() implies exists|j: int|
                0 <= j < c.len() && protocol::entity_v_id(#[trigger] c[j]) != yid && !retained(
                    old_es,
                    c[j],
                ) && protocol::entity_v_id(c[j]) == entity_id_v(pb[k]) by {
                if k == 0 {
                    assert(protocol::entity_v_id(c[0]) != yid && !retained(old_es, c[0])
                        && protocol::entity_v_id(c[0]) == entity_id_v(pb[0]));
                } else {
                    let j0 = choose|j: int|
                        0 <= j < tail.len() && protocol::entity_v_id(#[trigger] tail[j]) != yid
                            && !retained(old_es, tail[j]) && protocol::entity_v_id(tail[j])
                            == entity_id_v(pbt[k - 1]);
                    assert(c[j0 + 1] == tail[j0]);
                    assert(protocol::entity_v_id(c[j0 + 1]) != yid && !retained(
                        old_es,
                        c[j0 + 1],
                    ) && protocol::entity_v_id(c[j0 + 1]) == entity_id_v(pb[k]));
                }
            }
            assert forall|j: int|
                0 <= j < c.len() && protocol::entity_v_id(#[trigger] c[j]) != yid && !retained(
                    old_es,
                    c[j],
                ) implies exists|k: int|
                0 <= k < pb.len() && entity_id_v(#[trigger] pb[k]) == protocol::entity_v_id(c[j])
                    && same_kind(pb[k], c[j]) && entity_opacity_v(pb[k]).raw == FX_ONE by {
                if j == 0 {
                    assert(entity_id_v(pb[0]) == protocol::entity_v_id(c[0]) && same_kind(
                        pb[0],
                        c[0],
                    ) && entity_opacity_v(pb[0]).raw == FX_ONE);
                } else {
                    assert(tail[j - 1] == c[j]);
                    let k0 = choose|k: int|
                        0 <= k < pbt.len() && entity_id_v(#[trigger] pbt[k])
                            == protocol::entity_v_id(tail[j - 1]) && same_kind(
                            pbt[k],
                            tail[j - 1],
                        ) && entity_opacity_v(pbt[k]).raw == FX_ONE;
                    assert(pb[k0 + 1] == pbt[k0]);
                }
            }
        }
    }
}

/// Fresh entities carry their record's id, are well-formed, and start
/// fully opaque.
pub proof fn lemma_fresh_facts(snap: protocol::EntityV, yid: u32, rng: u64)
    ensures
        ({
            let head: EntityV = match snap {
                protocol::EntityV::Tank(t) => EntityV::Tank(fresh_tank_spec(t)),
                protocol::EntityV::Shape(sp) => EntityV::Shape(
                    fresh_shape_spec(sp, sides_from(rng_next(rng))),
                ),
                protocol::EntityV::Bullet(b) => EntityV::Bullet(fresh_bullet_spec(b, yid)),
            };
            &&& entity_id_v(head) == protocol::entity_v_id(snap)
            &&& entity_wf_v(head)
            &&& entity_opacity_v(head).raw == FX_ONE
            &&& same_kind(head, snap)
        }),
{
    match snap {
        protocol::EntityV::Tank(t) => {
            lemma_fx_of_bits_wf(t.health_bits);
            lemma_fx_of_bits_wf(t.rotation_bits);
            lemma_fx_of_i16_wf(t.position.x);
            lemma_fx_of_i16_wf(t.position.y);
            lemma_fx_of_i16_wf(t.velocity.x);
            lemma_fx_of_i16_wf(t.velocity.y);
            lemma_fx_divided_wf(fx_of_i16(t.velocity.x), TANK_SPAWN_VEL_DIV as int);
            lemma_fx_divided_wf(fx_of_i16(t.velocity.y), TANK_SPAWN_VEL_DIV as int);
        },
        protocol::EntityV::Shape(sp) => {
            lemma_fx_of_bits_wf(sp.health_bits);
            lemma_fx_of_i16_wf(sp.position.x);
            lemma_fx_of_i16_wf(sp.position.y);
        },
        protocol::EntityV::Bullet(b) => {
            lemma_fx_of_i16_wf(b.position.x);
            lemma_fx_of_i16_wf(b.position.y);
            lemma_fx_of_i16_wf(b.velocity.x);
            lemma_fx_of_i16_wf(b.velocity.y);
            lemma_fx_divided_wf(fx_of_i16(b.velocity.x), BULLET_VEL_DIV as int);
            lemma_fx_divided_wf(fx_of_i16(b.velocity.y), BULLET_VEL_DIV as int);
        },
    }
}

/// The purge/refresh pass emits well-formed entities whose ids all come
/// from the cache, without ever duplicating an id.
pub proof fn lemma_reconcile_unique(old_es: Seq<EntityV>, c: Seq<protocol::EntityV>, yid: u32)
    requires
        store_unique_ids(old_es),
        forall|k: int| 0 <= k < old_es.len() ==> entity_wf_v(#[trigger] old_es[k]),
    ensures
        store_unique_ids(reconcile_existing(old_es, c, yid)),
        forall|k: int|
            0 <= k < reconcile_existing(old_es, c, yid).len() ==> entity_wf_v(
                #[trigger] reconcile_existing(old_es, c, yid)[k],
            ),
        forall|k: int|
            0 <= k < reconcile_existing(old_es, c, yid).len() ==> has_id(
                old_es,
                entity_id_v(#[trigger] reconcile_existing(old_es, c, yid)[k]),
            ),
    decreases old_es.len(),
{
    if old_es.len() > 0 {
        let tail = old_es.subrange(1, old_es.len() as int);
        let pa = reconcile_existing(old_es, c, yid);
        let pat = reconcile_existing(tail, c, yid);
        assert(forall|j: int| 1 <= j < old_es.len() ==> #[trigger] old_es[j] == tail[j - 1]);
        lemma_reconcile_unique(tail, c, yid);
        lemma_step_facts(old_es[0], c, yid);
        assert forall|k: int| 0 <= k < pat.len() implies has_id(
            old_es,
            entity_id_v(#[trigger] pat[k]),
        ) by {
            let j0 = choose|j: int|
                0 <= j < tail.len() && entity_id_v(#[trigger] tail[j]) == entity_id_v(pat[k]);
            assert(entity_id_v(old_es[j0 + 1]) == entity_id_v(pat[k]));
        }
        match step_existing(old_es[0], c, yid) {
            None => {
                assert(pa == pat);
            },
            Some(e2) => {
                assert(pa == seq![e2] + pat);
                assert(pa[0] == e2);
                assert(forall|k: int| 1 <= k < pa.len() ==> #[trigger] pa[k] == pat[k - 1]);
                assert forall|a: int, b: int| 0 <= a < b < pa.len() implies entity_id_v(
                    #[trigger] pa[a],
                ) != entity_id_v(#[trigger] pa[b]) by {
                    if a == 0 {
                        assert(has_id(old_es, entity_id_v(pat[b - 1])));
                        let j0 = choose|j: int|
                            0 <= j < tail.len() && entity_id_v(#[trigger] tail[j]) == entity_id_v(
                                pat[b - 1],
                            );
                        assert(entity_id_v(old_es[j0 + 1]) != entity_id_v(old_es[0]));
                    } else {
                        assert(pa[a] == pat[a - 1] && pa[b] == pat[b - 1]);
                    }
                }
            },
        }
    }
}

/// The insert pass never duplicates an id, because the census itself has
/// unique ids.
pub proof fn lemma_spawn_unique(
    c: Seq<protocol::EntityV>,
    old_es: Seq<EntityV>,
    yid: u32,
    rng: u64,
)
    requires
        unique_ids(c),
    ensures
        store_unique_ids(spawn_new(c, old_es, yid, rng).0),
        forall|k: int|
            0 <= k < spawn_new(c, old_es, yid, rng).0.len() ==> has_pid(
                c,
                entity_id_v(#[trigger] spawn_new(c, old_es, yid, rng).0[k]),
            ),
    decreases c.len(),
{
    if c.len() > 0 {
        let tail = c.subrange(1, c.len() as int);
        let snap = c[0];
        let pb = spawn_new(c, old_es, yid, rng).0;
        assert(forall|j: int| 1 <= j < c.len() ==> #[trigger] c[j] == tail[j - 1]);
        if protocol::entity_v_id(snap) == yid || retained(old_es, snap) {
            lemma_spawn_unique(tail, old_es, yid, rng);
            let pbt = spawn_new(tail, old_es, yid, rng).0;
            assert(pb == pbt);
            assert forall|k: int| 0 <= k < pb.len() implies has_pid(
                c,
                entity_id_v(#[trigger] pb[k]),
            ) by {
                let j0 = choose|j: int|
                    0 <= j < tail.len() && protocol::entity_v_id(#[trigger] tail[j])
                        == entity_id_v(pbt[k]);
                assert(protocol::entity_v_id(c[j0 + 1]) == entity_id_v(pb[k]));
            }
        } else {
            let rng2 = if snap is Shape {
                rng_next(rng)
            } else {
                rng
            };
            lemma_spawn_unique(tail, old_es, yid, rng2);
            let pbt = spawn_new(tail, old_es, yid, rng2).0;
            lemma_fresh_facts(snap, yid, rng);
            assert(pb[0] == pb.subrange(0, 1)[0]);
            assert(forall|k: int| 1 <= k < pb.len() ==> #[trigger] pb[k] == pbt[k - 1]);
            assert(entity_id_v(pb[0]) == protocol::entity_v_id(c[0]));
            assert forall|k: int| 0 <= k < pb.len() implies has_pid(
                c,
                entity_id_v(#[trigger] pb[k]),
            ) by {
                if k >= 1 {
                    let j0 = choose|j: int|
                        0 <= j < tail.len() && protocol::entity_v_id(#[trigger] tail[j])
                            == entity_id_v(pbt[k - 1]);
                    assert(protocol::entity_v_id(c[j0 + 1]) == entity_id_v(pb[k]));
                }
            }
            assert forall|a: int, b: int| 0 <= a < b < pb.len() implies entity_id_v(
                #[trigger] pb[a],
            ) != entity_id_v(#[trigger] pb[b]) by {
                if a == 0 {
                    assert(has_pid(tail, entity_id_v(pbt[b - 1])));
                    let j0 = choose|j: int|
                        0 <= j < tail.len() && protocol::entity_v_id(#[trigger] tail[j])
                            == entity_id_v(pbt[b - 1]);
                    assert(protocol::entity_v_id(c[j0 + 1]) != protocol::entity_v_id(c[0]));
                } else {
                    assert(pb[a] == pbt[a - 1] && pb[b] == pbt[b - 1]);
                }
            }
        }
    }
}

/// With unique census ids, a record carrying an id is the record the
/// census lookup finds for that id.
pub proof fn lemma_census_find_unique(c: Seq<protocol::EntityV>, j: int)
    requires
        unique_ids(c),
        0 <= j < c.len(),
    ensures
        census_find(c, protocol::entity_v_id(c[j])) == Some(c[j]),
{
    let id = protocol::entity_v_id(c[j]);
    protocol::lemma_index_of_id_char(c, id);
    let i = protocol::index_of_id(c, id);
    assert(i != -1);
    if i != j {
        assert(protocol::entity_v_id(c[i]) == protocol::entity_v_id(c[j]));
        assert(false);
    }
}

/// The two passes never hand out the same id: whatever the purge pass kept
/// under an id also keeps that id out of the insert pass.
pub proof fn lemma_passes_disjoint(
    old_es: Seq<EntityV>,
    c: Seq<protocol::EntityV>,
    yid: u32,
    rng: u64,
)
    requires
        store_unique_ids(old_es),
        forall|k: int| 0 <= k < old_es.len() ==> entity_wf_v(#[trigger] old_es[k]),
        unique_ids(c),
    ensures
        forall|k1: int, k2: int|
            0 <= k1 < reconcile_existing(old_es, c, yid).len() && 0 <= k2 < spawn_new(
                c,
                old_es,
                yid,
                rng,
            ).0.len() ==> entity_id_v(#[trigger] reconcile_existing(old_es, c, yid)[k1])
                != entity_id_v(#[trigger] spawn_new(c, old_es, yid, rng).0[k2]),
{
    let pa = reconcile_existing(old_es, c, yid);
    let pb = spawn_new(c, old_es, yid, rng).0;
    lemma_reconcile_membership_fwd(old_es, c, yid);
    lemma_spawn_membership(c, old_es, yid, rng);
    assert forall|k1: int, k2: int|
        0 <= k1 < pa.len() && 0 <= k2 < pb.len() implies entity_id_v(#[trigger] pa[k1])
        != entity_id_v(#[trigger] pb[k2]) by {
        if entity_id_v(pa[k1]) == entity_id_v(pb[k2]) {
            let x = entity_id_v(pa[k1]);
            let j1 = choose|j: int|
                0 <= j < old_es.len() && step_existing(#[trigger] old_es[j], c, yid) == Some(
                    pa[k1],
                );
            lemma_step_facts(old_es[j1], c, yid);
            assert(entity_id_v(old_es[j1]) == x);
            let j2 = choose|j: int|
                0 <= j < c.len() && protocol::entity_v_id(#[trigger] c[j]) != yid && !retained(
                    old_es,
                    c[j],
                ) && protocol::entity_v_id(c[j]) == entity_id_v(pb[k2]);
            lemma_census_find_unique(c, j2);
            assert(census_find(c, x) == Some(c[j2]));
            assert(entity_opacity_v(old_es[j1]).raw >= FADE_EPS_RAW);
            if same_kind(old_es[j1], c[j2]) {
                assert(retain_match(old_es[j1], c[j2]));
                assert(retained(old_es, c[j2]));
            } else {
                assert(step_existing(old_es[j1], c, yid) is None);
            }
            assert(false);
        }
    }
}

/// Reconciliation preserves the world invariant.
pub proof fn lemma_apply_census_wf(w: WorldV, c: CensusV)
    requires
        w.wf(),
        unique_ids(c.entities),
    ensures
        apply_census_spec(w, c).wf(),
{
    let yid = w.yourself.id;
    let pa = reconcile_existing(w.entities, c.entities, yid);
    let pb = spawn_new(c.entities, w.entities, yid, w.rng);
    let w2 = apply_census_spec(w, c);
    lemma_fx_of_bits_wf(c.level_bits);
    lemma_reconcile_unique(w.entities, c.entities, yid);
    lemma_spawn_unique(c.entities, w.entities, yid, w.rng);
    lemma_spawn_membership(c.entities, w.entities, yid, w.rng);
    lemma_passes_disjoint(w.entities, c.entities, yid, w.rng);
    match census_find(c.entities, yid) {
        Some(protocol::EntityV::Tank(t)) => {
            lemma_fx_of_bits_wf(t.health_bits);
            lemma_fx_of_i16_wf(t.position.x);
            lemma_fx_of_i16_wf(t.position.y);
        },
        _ => {},
    }
    assert(w2.entities == pa + pb.0);
    assert forall|i: int| 0 <= i < w2.entities.len() implies entity_wf_v(
        #[trigger] w2.entities[i],
    ) by {
        if i < pa.len() {
            assert(w2.entities[i] == pa[i]);
        } else {
            assert(w2.entities[i] == pb.0[i - pa.len()]);
        }
    }
    assert forall|i: int, j: int| 0 <= i < j < w2.entities.len() implies entity_id_v(
        #[trigger] w2.entities[i],
    ) != entity_id_v(#[trigger] w2.entities[j]) by {
        if j < pa.len() {
            assert(w2.entities[i] == pa[i] && w2.entities[j] == pa[j]);
        } else if i >= pa.len() {
            assert(w2.entities[i] == pb.0[i - pa.len()] && w2.entities[j] == pb.0[j - pa.len()]);
        } else {
            assert(w2.entities[i] == pa[i] && w2.entities[j] == pb.0[j - pa.len()]);
        }
    }
}

/// Whether two cached entities agree on identity, kind and every
/// authoritative target (network position, rotation and health targets,
/// opacity and scale targets).  Rendered values may differ: they are
/// mid-flight toward the targets.
pub open spec fn same_targets(a: EntityV, b: EntityV) -> bool {
    match (a, b) {
        (EntityV::Tank(x), EntityV::Tank(y)) => {
            &&& x.id == y.id
            &&& x.net_position == y.net_position
            &&& x.net_rotation == y.net_rotation
            &&& x.health.tv == y.health.tv
            &&& x.opacity.tv == y.opacity.tv
        },
        (EntityV::Shape(x), EntityV::Shape(y)) => {
            &&& x.id == y.id
            &&& x.net_position == y.net_position
            &&& x.health == y.health
            &&& x.opacity.tv == y.opacity.tv
        },
        (EntityV::Bullet(x), EntityV::Bullet(y)) => {
            &&& x.id == y.id
            &&& x.net_position == y.net_position
            &&& x.opacity.tv == y.opacity.tv
            &&& x.scale.tv == y.scale.tv
        },
        _ => false,
    }
}

/// The authoritative targets an entity would carry right after being
/// refreshed from (or created for) the given census record.
pub open spec fn targets_from(e: EntityV, snap: protocol::EntityV) -> bool {
    match (e, snap) {
        (EntityV::Tank(t), protocol::EntityV::Tank(tc)) => {
            &&& t.net_position == Vector2 {
                x: fx_of_i16(tc.position.x),
                y: fx_of_i16(tc.position.y),
            }
            &&& t.net_rotation == fx_of_bits(tc.rotation_bits)
            &&& t.health.tv == fx_of_bits(tc.health_bits)
        },
        (EntityV::Shape(s), protocol::EntityV::Shape(sc)) => {
            &&& s.net_position == Vector2 {
                x: fx_of_i16(sc.position.x),
                y: fx_of_i16(sc.position.y),
            }
            &&& s.health == fx_of_bits(sc.health_bits)
        },
        (EntityV::Bullet(b), protocol::EntityV::Bullet(bc)) => {
            b.net_position == Vector2 { x: fx_of_i16(bc.position.x), y: fx_of_i16(bc.position.y) }
        },
        _ => false,
    }
}

/// Where an entity of a just-reconciled world stands: if the census lacks
/// its id it is mid-fade (opacity target zero, bullets scale-popped); if
/// the census carries its id (and it is not the local player) it already
/// holds exactly the census-derived targets.
pub open spec fn provenance_prop(e: EntityV, c: Seq<protocol::EntityV>, yid: u32) -> bool {
    &&& (!has_pid(c, entity_id_v(e)) ==> entity_opacity_tv_v(e).raw == 0 && (e matches
        EntityV::Bullet(b) ==> b.scale.tv.raw == SCALE_POP_RAW))
    &&& ((has_pid(c, entity_id_v(e)) && entity_id_v(e) != yid) ==> targets_from(
        e,
        census_find(c, entity_id_v(e))->Some_0,
    ) && same_kind(e, census_find(c, entity_id_v(e))->Some_0))
}

/// Every entity the purge/refresh pass emits satisfies
/// [`provenance_prop`].
#[verifier::spinoff_prover]
#[verifier::rlimit(100)]
pub proof fn lemma_pa_provenance(old_es: Seq<EntityV>, c: Seq<protocol::EntityV>, yid: u32, k: int)
    requires
        store_unique_ids(old_es),
        forall|i: int| 0 <= i < old_es.len() ==> entity_wf_v(#[trigger] old_es[i]),
        unique_ids(c),
        0 <= k < reconcile_existing(old_es, c, yid).len(),
    ensures
        provenance_prop(reconcile_existing(old_es, c, yid)[k], c, yid),
{
    let pa = reconcile_existing(old_es, c, yid);
    lemma_reconcile_membership_fwd(old_es, c, yid);
    let j = choose|j: int|
        0 <= j < old_es.len() && step_existing(#[trigger] old_es[j], c, yid) == Some(pa[k]);
    let x = old_es[j];
    assert(entity_wf_v(x));
    lemma_step_facts(x, c, yid);
    match census_find(c, entity_id_v(x)) {
        None => {
            assert(pa[k] == fade_entity_spec(x));
            protocol::lemma_index_of_id_char(c, entity_id_v(x));
            lemma_fade_facts(x);
            assert(!has_pid(c, entity_id_v(pa[k]))) by {
                if has_pid(c, entity_id_v(pa[k])) {
                    let j2 = choose|j2: int|
                        0 <= j2 < c.len() && protocol::entity_v_id(#[trigger] c[j2])
                            == entity_id_v(pa[k]);
                    assert(protocol::index_of_id(c, entity_id_v(x)) != -1);
                }
            }
        },
        Some(snap) => {
            assert(has_pid(c, entity_id_v(pa[k]))) by {
                protocol::lemma_index_of_id_char(c, entity_id_v(x));
            }
            if entity_id_v(x) != yid {
                assert(same_kind(x, snap));
                assert(pa[k] == update_entity_spec(x, snap));
                lemma_update_facts(x, snap);
            }
        },
    }
}

/// Every entity the insert pass emits satisfies [`provenance_prop`].
#[verifier::rlimit(100)]
pub proof fn lemma_pb_provenance(
    c: Seq<protocol::EntityV>,
    old_es: Seq<EntityV>,
    yid: u32,
    rng: u64,
    k: int,
)
    requires
        unique_ids(c),
        0 <= k < spawn_new(c, old_es, yid, rng).0.len(),
    ensures
        provenance_prop(spawn_new(c, old_es, yid, rng).0[k], c, yid),
{
    let pb = spawn_new(c, old_es, yid, rng).0;
    lemma_spawn_membership(c, old_es, yid, rng);
    let j = choose|j: int|
        0 <= j < c.len() && protocol::entity_v_id(#[trigger] c[j]) != yid && !retained(
            old_es,
            c[j],
        ) && protocol::entity_v_id(c[j]) == entity_id_v(pb[k]);
    assert(has_pid(c, entity_id_v(pb[k])));
    assert forall|j2: int| 0 <= j2 < c.len() implies census_find(
        c,
        protocol::entity_v_id(#[trigger] c[j2]),
    ) == Some(c[j2]) by {
        lemma_census_find_unique(c, j2);
    }
    assert forall|j2: int| 0 <= j2 < c.len() implies has_pid(
        c,
        protocol::entity_v_id(#[trigger] c[j2]),
    ) by {}
    lemma_spawn_targets(c, c, old_es, yid, rng);
}

/// Every entity of a just-reconciled world satisfies [`provenance_prop`].
pub proof fn lemma_apply_provenance(w: WorldV, c: CensusV, k: int)
    requires
        w.wf(),
        unique_ids(c.entities),
        0 <= k < apply_census_spec(w, c).entities.len(),
    ensures
        provenance_prop(apply_census_spec(w, c).entities[k], c.entities, w.yourself.id),
{
    let yid = w.yourself.id;
    let pa = reconcile_existing(w.entities, c.entities, yid);
    let pb = spawn_new(c.entities, w.entities, yid, w.rng);
    assert(apply_census_spec(w, c).entities == pa + pb.0);
    if k < pa.len() {
        assert(apply_census_spec(w, c).entities[k] == pa[k]);
        lemma_pa_provenance(w.entities, c.entities, yid, k);
    } else {
        assert(apply_census_spec(w, c).entities[k] == pb.0[k - pa.len()]);
        lemma_pb_provenance(c.entities, w.entities, yid, w.rng, k - pa.len());
    }
}

/// Proof that the insert pass emits exactly census-derived targets.
pub proof fn lemma_spawn_targets(
    c: Seq<protocol::EntityV>,
    full: Seq<protocol::EntityV>,
    old_es: Seq<EntityV>,
    yid: u32,
    rng: u64,
)
    requires
        unique_ids(full),
        forall|j: int| 0 <= j < c.len() ==> has_pid(full, protocol::entity_v_id(#[trigger] c[j])),
        forall|j: int|
            0 <= j < c.len() ==> census_find(full, protocol::entity_v_id(#[trigger] c[j]))
                == Some(c[j]),
    ensures
        forall|k: int|
            0 <= k < spawn_new(c, old_es, yid, rng).0.len() ==> ({
                let e = #[trigger] spawn_new(c, old_es, yid, rng).0[k];
                targets_from(e, census_find(full, entity_id_v(e))->Some_0) && same_kind(
                    e,
                    census_find(full, entity_id_v(e))->Some_0,
                )
            }),
    decreases c.len(),
{
    if c.len() > 0 {
        let tail = c.subrange(1, c.len() as int);
        let snap = c[0];
        let pb = spawn_new(c, old_es, yid, rng).0;
        assert(forall|j: int| 1 <= j < c.len() ==> #[trigger] c[j] == tail[j - 1]);
        if protocol::entity_v_id(snap) == yid || retained(old_es, snap) {
            lemma_spawn_targets(tail, full, old_es, yid, rng);
            assert(pb == spawn_new(tail, old_es, yid, rng).0);
        } else {
            let rng2 = if snap is Shape {
                rng_next(rng)
            } else {
                rng
            };
            lemma_spawn_targets(tail, full, old_es, yid, rng2);
            let pbt = spawn_new(tail, old_es, yid, rng2).0;
            lemma_fresh_facts(snap, yid, rng);
            assert(forall|k: int| 1 <= k < pb.len() ==> #[trigger] pb[k] == pbt[k - 1]);
            assert forall|k: int| 0 <= k < pb.len() implies ({
                let e = #[trigger] pb[k];
                targets_from(e, census_find(full, entity_id_v(e))->Some_0) && same_kind(
                    e,
                    census_find(full, entity_id_v(e))->Some_0,
                )
            }) by {
                if k == 0 {
                    assert(census_find(full, protocol::entity_v_id(c[0])) == Some(c[0]));
                    assert(targets_from(pb[0], snap));
                } else {
                    assert(pb[k] == pbt[k - 1]);
                }
            }
        }
    }
}

/// Reconciler idempotence: feeding the same census twice in a row changes
/// no target.  Session targets are equal after the second pass, the local
/// tank's authoritative values are equal, no cosmetic randomness is
/// re-rolled, and every entity present after the second pass has a
/// counterpart with identical targets after the first.
/// After one reconciliation, every census record other than the local
/// player is represented in the store.
#[verifier::rlimit(100)]
pub proof fn lemma_all_retained_after_apply(w: WorldV, c: CensusV)
    requires
        w.wf(),
        unique_ids(c.entities),
    ensures
        forall|j: int|
            0 <= j < c.entities.len() ==> (protocol::entity_v_id(#[trigger] c.entities[j])
                == w.yourself.id || retained(apply_census_spec(w, c).entities, c.entities[j])),
{
    let yid = w.yourself.id;
    let w1 = apply_census_spec(w, c);
    lemma_reconcile_membership_bwd(w.entities, c.entities, yid);
    lemma_spawn_membership(c.entities, w.entities, yid, w.rng);
    assert forall|j: int|
        0 <= j < c.entities.len() implies (protocol::entity_v_id(#[trigger] c.entities[j]) == yid
        || retained(w1.entities, c.entities[j])) by {
        let snap = c.entities[j];
        let x = protocol::entity_v_id(snap);
        if x != yid {
            let pa = reconcile_existing(w.entities, c.entities, yid);
            let pb = spawn_new(c.entities, w.entities, yid, w.rng).0;
            if retained(w.entities, snap) {
                let j1 = choose|j1: int|
                    0 <= j1 < w.entities.len() && retain_match(#[trigger] w.entities[j1], snap);
                let m = w.entities[j1];
                lemma_census_find_unique(c.entities, j);
                assert(census_find(c.entities, entity_id_v(m)) == Some(snap));
                assert(step_existing(m, c.entities, yid) == Some(update_entity_spec(m, snap)));
                let k = choose|k: int|
                    0 <= k < pa.len() && step_existing(m, c.entities, yid) == Some(
                        #[trigger] pa[k],
                    );
                lemma_update_facts(m, snap);
                assert(w1.entities[k] == pa[k]);
                assert(retain_match(w1.entities[k], snap));
            } else {
                let k = choose|k: int|
                    0 <= k < pb.len() && entity_id_v(#[trigger] pb[k]) == x && same_kind(
                        pb[k],
                        snap,
                    ) && entity_opacity_v(pb[k]).raw == FX_ONE;
                assert(w1.entities[pa.len() + k] == pb[k]);
                assert(retain_match(w1.entities[pa.len() + k], snap));
            }
        }
    }
}

/// One purge/refresh step over a store whose entities already satisfy
/// [`provenance_prop`] keeps every target in place.
#[verifier::rlimit(100)]
pub proof fn lemma_idempotent_entity(es: Seq<EntityV>, c: Seq<protocol::EntityV>, yid: u32, k2: int)
    requires
        unique_ids(c),
        forall|k: int| 0 <= k < es.len() ==> entity_wf_v(#[trigger] es[k]),
        forall|k: int| 0 <= k < es.len() ==> provenance_prop(#[trigger] es[k], c, yid),
        0 <= k2 < reconcile_existing(es, c, yid).len(),
    ensures
        exists|k1: int|
            0 <= k1 < es.len() && same_targets(
                reconcile_existing(es, c, yid)[k2],
                #[trigger] es[k1],
            ),
{
    lemma_reconcile_membership_fwd(es, c, yid);
    let pa2 = reconcile_existing(es, c, yid);
    let j = choose|j: int|
        0 <= j < es.len() && step_existing(#[trigger] es[j], c, yid) == Some(pa2[k2]);
    let e = es[j];
    assert(provenance_prop(e, c, yid));
    lemma_step_facts(e, c, yid);
    match census_find(c, entity_id_v(e)) {
        None => {
            protocol::lemma_index_of_id_char(c, entity_id_v(e));
            assert(!has_pid(c, entity_id_v(e))) by {
                if has_pid(c, entity_id_v(e)) {
                    let jj = choose|jj: int|
                        0 <= jj < c.len() && protocol::entity_v_id(#[trigger] c[jj])
                            == entity_id_v(e);
                    assert(false);
                }
            }
            assert(pa2[k2] == fade_entity_spec(e));
            assert(same_targets(fade_entity_spec(e), e));
        },
        Some(snap) => {
            if entity_id_v(e) == yid {
                assert(pa2[k2] == e);
                assert(same_targets(e, e));
            } else {
                assert(has_pid(c, entity_id_v(e))) by {
                    protocol::lemma_index_of_id_char(c, entity_id_v(e));
                }
                assert(targets_from(e, snap) && same_kind(e, snap));
                assert(pa2[k2] == update_entity_spec(e, snap));
                lemma_update_facts(e, snap);
                assert(same_targets(update_entity_spec(e, snap), e));
            }
        },
    }
}

/// Reconciler idempotence: feeding the same census twice in a row changes
/// no target.  Session targets are equal after the second pass, the local
/// tank's authoritative values are equal, no cosmetic randomness is
/// re-rolled, and every entity present after the second pass has a
/// counterpart with identical targets after the first.
pub proof fn lemma_census_idempotent(w: WorldV, c: CensusV)
    requires
        w.wf(),
        unique_ids(c.entities),
    ensures
        ({
            let w1 = apply_census_spec(w, c);
            let w2 = apply_census_spec(w1, c);
            &&& w2.size.tv == w1.size.tv
            &&& w2.state.level.tv == w1.state.level.tv
            &&& w2.yourself.net_position == w1.yourself.net_position
            &&& w2.yourself.health.tv == w1.yourself.health.tv
            &&& w2.yourself.mockup == w1.yourself.mockup
            &&& w2.yourself.radius == w1.yourself.radius
            &&& w2.rng == w1.rng
            &&& forall|k2: int|
                0 <= k2 < w2.entities.len() ==> exists|k1: int|
                    0 <= k1 < w1.entities.len() && same_targets(
                        #[trigger] w2.entities[k2],
                        w1.entities[k1],
                    )
        }),
{
    let yid = w.yourself.id;
    let w1 = apply_census_spec(w, c);
    let w2 = apply_census_spec(w1, c);
    assert(w1.yourself.id == yid);
    lemma_apply_census_wf(w, c);
    lemma_all_retained_after_apply(w, c);
    lemma_spawn_empty(c.entities, w1.entities, yid, w1.rng);
    let pa2 = reconcile_existing(w1.entities, c.entities, yid);
    assert(w2.entities =~= pa2);
    assert forall|k: int| 0 <= k < w1.entities.len() implies provenance_prop(
        #[trigger] w1.entities[k],
        c.entities,
        yid,
    ) by {
        lemma_apply_provenance(w, c, k);
    }
    assert forall|k: int| 0 <= k < w1.entities.len() implies entity_wf_v(
        #[trigger] w1.entities[k],
    ) by {
        assert(w1.wf());
    }
    assert forall|k2: int| 0 <= k2 < w2.entities.len() implies exists|k1: int|
        0 <= k1 < w1.entities.len() && same_targets(
            #[trigger] w2.entities[k2],
            w1.entities[k1],
        ) by {
        lemma_idempotent_entity(w1.entities, c.entities, yid, k2);
        assert(w2.entities[k2] == pa2[k2]);
    }
}

/// When every record is already represented (or is the local player), the
/// insert pass creates nothing and rolls no randomness.
pub proof fn lemma_spawn_empty(c: Seq<protocol::EntityV>, es: Seq<EntityV>, yid: u32, rng: u64)
    requires
        forall|j: int|
            0 <= j < c.len() ==> (protocol::entity_v_id(#[trigger] c[j]) == yid || retained(
                es,
                c[j],
            )),
    ensures
        spawn_new(c, es, yid, rng) == (Seq::<EntityV>::empty(), rng),
    decreases c.len(),
{
    if c.len() > 0 {
        let tail = c.subrange(1, c.len() as int);
        assert(forall|j: int| 1 <= j < c.len() ==> #[trigger] c[j] == tail[j - 1]);
        lemma_spawn_empty(tail, es, yid, rng);
    }
}

/// Fade-out monotonicity: once an id is absent from a census, the
/// reconciled entity for it is the faded form of the cached one — its
/// opacity target is zero and its rendered opacity has not grown — and
/// once the rendered opacity is below the removal threshold the entity is
/// purged and its id is gone.  Refreshes never touch opacity targets
/// (see [`lemma_update_facts`]), so a stale update cannot resurrect a
/// fading entity.
pub proof fn lemma_fade_out(w: WorldV, c: CensusV, k: int)
    requires
        w.wf(),
        unique_ids(c.entities),
        0 <= k < w.entities.len(),
        !has_pid(c.entities, entity_id_v(w.entities[k])),
    ensures
        ({
            let w1 = apply_census_spec(w, c);
            let e = w.entities[k];
            &&& (entity_opacity_v(e).raw >= FADE_EPS_RAW ==> exists|k1: int|
                0 <= k1 < w1.entities.len() && #[trigger] w1.entities[k1] == fade_entity_spec(e))
            &&& (entity_opacity_v(e).raw < FADE_EPS_RAW ==> !has_id(
                w1.entities,
                entity_id_v(e),
            ))
            &&& entity_opacity_tv_v(fade_entity_spec(e)).raw == 0
            &&& (entity_opacity_v(e).raw >= 0 ==> 0 <= entity_opacity_v(
                fade_entity_spec(e),
            ).raw <= entity_opacity_v(e).raw)
        }),
{
    let yid = w.yourself.id;
    let w1 = apply_census_spec(w, c);
    let e = w.entities[k];
    let x = entity_id_v(e);
    let pa = reconcile_existing(w.entities, c.entities, yid);
    let pb = spawn_new(c.entities, w.entities, yid, w.rng).0;
    assert(entity_wf_v(e));
    lemma_fade_facts(e);
    lemma_reconcile_membership_fwd(w.entities, c.entities, yid);
    lemma_reconcile_membership_bwd(w.entities, c.entities, yid);
    lemma_spawn_membership(c.entities, w.entities, yid, w.rng);
    protocol::lemma_index_of_id_char(c.entities, x);
    assert(protocol::index_of_id(c.entities, x) == -1) by {
        if protocol::index_of_id(c.entities, x) != -1 {
            let i = protocol::index_of_id(c.entities, x);
            assert(protocol::entity_v_id(c.entities[i]) == x);
            assert(has_pid(c.entities, x));
        }
    }
    assert(census_find(c.entities, x) is None);
    if entity_opacity_v(e).raw >= FADE_EPS_RAW {
        assert(step_existing(e, c.entities, yid) == Some(fade_entity_spec(e)));
        let k1 = choose|k1: int|
            0 <= k1 < pa.len() && step_existing(e, c.entities, yid) == Some(#[trigger] pa[k1]);
        assert(w1.entities[k1] == pa[k1]);
    } else {
        assert forall|k1: int| 0 <= k1 < w1.entities.len() implies entity_id_v(
            #[trigger] w1.entities[k1],
        ) != x by {
            if k1 < pa.len() {
                assert(w1.entities[k1] == pa[k1]);
                let j = choose|j: int|
                    0 <= j < w.entities.len() && step_existing(
                        #[trigger] w.entities[j],
                        c.entities,
                        yid,
                    ) == Some(pa[k1]);
                lemma_step_facts(w.entities[j], c.entities, yid);
                if entity_id_v(pa[k1]) == x {
                    assert(entity_id_v(w.entities[j]) == x);
                    if j != k {
                        assert(entity_id_v(w.entities[j]) != entity_id_v(w.entities[k]));
                        assert(false);
                    }
                    assert(step_existing(e, c.entities, yid) is None);
                    assert(false);
                }
            } else {
                assert(w1.entities[k1] == pb[k1 - pa.len()]);
                let j = choose|j: int|
                    0 <= j < c.entities.len() && protocol::entity_v_id(#[trigger] c.entities[j])
                        != yid && !retained(w.entities, c.entities[j]) && protocol::entity_v_id(
                        c.entities[j],
                    ) == entity_id_v(pb[k1 - pa.len()]);
                if entity_id_v(w1.entities[k1]) == x {
                    assert(has_pid(c.entities, x));
                    assert(false);
                }
            }
        }
    }
}


} // verus!
