//! Laws of the simulation, stated and proved over the transition
//! relations of `world`.

use vstd::prelude::*;

use vstd::arithmetic::power::lemma_pow0;
use vstd::arithmetic::power::lemma_pow_positive;
use vstd::arithmetic::power::pow;

use crate::geom::Vec2;
use crate::num::abs_val;
use crate::num::damp_spec;
use crate::num::lemma_damp_rate;
use crate::num::lemma_damp_shrinks;
use crate::num::lemma_isqrt_unique;
use crate::num::lemma_sq_le;
use crate::num::sat_add_spec;
use crate::world::clamp_spec;
use crate::world::control_transition;
use crate::world::first_hit;
use crate::world::key_dir;
use crate::world::key_transition;
use crate::world::lemma_first_hit_from_range;
use crate::world::momentum_ok;
use crate::world::stepped_entity;
use crate::world::Entity;
use crate::world::Key;
use crate::world::World;
use crate::IMPULSE_GAIN;
use crate::MAX_PRE_CLAMP;
use crate::MOMENTUM_CAP;
use crate::WORLD_MAX_X;
use crate::WORLD_MAX_Y;

verus! {

/// At most one entity is controlled, and `controlled_index` points to it:
/// in a well-formed world any two controlled entities coincide, and the
/// index is `None` exactly when no entity is controlled.
pub proof fn lemma_control_exclusive(w: World)
    requires
        w.wf(),
    ensures
        forall|i: int, j: int|
            0 <= i < w.entities@.len() && 0 <= j < w.entities@.len()
                && (#[trigger] w.entities@[i]).is_controlled
                && (#[trigger] w.entities@[j]).is_controlled ==> i == j,
        w.controlled_index is None <==> forall|j: int|
            0 <= j < w.entities@.len() ==> !(#[trigger] w.entities@[j]).is_controlled,
        forall|i: int|
            0 <= i < w.entities@.len() && (#[trigger] w.entities@[i]).is_controlled
                ==> (match w.controlled_index {
                    Some(c) => c as int == i,
                    None => false,
                }),
{
}

/// Toggling control: a secondary click that hits the controlled entity
/// unsets control; one that hits a different entity moves control there
/// and unsets the previous holder.
pub proof fn lemma_control_toggle(pre: World, post: World, pos: Vec2, i: int)
    requires
        pre.wf(),
        control_transition(pre, post, pos),
        first_hit(pre.entities@, pos) == Some(i),
    ensures
        pre.controlled_index == Some(i as usize) ==> post.controlled_index is None
            && !post.entities@[i].is_controlled,
        pre.controlled_index != Some(i as usize) ==> post.controlled_index == Some(i as usize)
            && post.entities@[i].is_controlled,
        match pre.controlled_index {
            Some(p) => p as int != i ==> !post.entities@[p as int].is_controlled,
            None => true,
        },
{
    lemma_first_hit_from_range(pre.entities@, pos, 0, i);
    assert(vstd::std_specs::vec::spec_vec_len(&pre.entities) == pre.entities@.len());
    assert(pre.entities@.len() <= usize::MAX);
}

/// Clamping an x-axis vector: within the cap it is unchanged, beyond it
/// the magnitude becomes exactly the cap, keeping the sign.
proof fn lemma_clamp_axis_x(v: int)
    requires
        v != 0,
        -MAX_PRE_CLAMP <= v <= MAX_PRE_CLAMP,
    ensures
        clamp_spec(v, 0).1 == 0,
        -MOMENTUM_CAP <= v <= MOMENTUM_CAP ==> clamp_spec(v, 0).0 == v,
        v > MOMENTUM_CAP ==> clamp_spec(v, 0).0 == MOMENTUM_CAP,
        v < -MOMENTUM_CAP ==> clamp_spec(v, 0).0 == -MOMENTUM_CAP,
{
    let a = abs_val(v);
    assert(v * v == a * a && v * v > 0 && 0 * 0 == 0) by (nonlinear_arith)
        requires
            a == abs_val(v),
            v != 0,
    ;
    if v * v + 0 * 0 <= MOMENTUM_CAP * MOMENTUM_CAP {
        lemma_sq_le(v, MOMENTUM_CAP as int);
    } else {
        assert(a > MOMENTUM_CAP) by (nonlinear_arith)
            requires
                a * a > MOMENTUM_CAP * MOMENTUM_CAP,
                a >= 0,
                MOMENTUM_CAP >= 0,
        ;
        assert(a * a < (a + 1) * (a + 1)) by (nonlinear_arith)
            requires
                a >= 0,
        ;
        lemma_isqrt_unique((v * v + 0 * 0) as nat, a as nat);
        assert((a * MOMENTUM_CAP) / a == MOMENTUM_CAP && 0int / a == 0) by (nonlinear_arith)
            requires
                a >= 1,
                MOMENTUM_CAP >= 0,
        ;
        if v > 0 {
            assert(v * MOMENTUM_CAP == a * MOMENTUM_CAP && 0 * MOMENTUM_CAP == 0)
                by (nonlinear_arith)
                requires
                    v == a,
            ;
        } else {
            assert(-(v * MOMENTUM_CAP) == a * MOMENTUM_CAP && v * MOMENTUM_CAP < 0 && 0
                * MOMENTUM_CAP == 0) by (nonlinear_arith)
                requires
                    -v == a,
                    a >= 1,
                    MOMENTUM_CAP >= 1,
            ;
        }
    }
}

/// Clamping a y-axis vector, symmetric to `lemma_clamp_axis_x`.
proof fn lemma_clamp_axis_y(v: int)
    requires
        v != 0,
        -MAX_PRE_CLAMP <= v <= MAX_PRE_CLAMP,
    ensures
        clamp_spec(0, v).0 == 0,
        -MOMENTUM_CAP <= v <= MOMENTUM_CAP ==> clamp_spec(0, v).1 == v,
        v > MOMENTUM_CAP ==> clamp_spec(0, v).1 == MOMENTUM_CAP,
        v < -MOMENTUM_CAP ==> clamp_spec(0, v).1 == -MOMENTUM_CAP,
{
    let a = abs_val(v);
    assert(v * v == a * a && v * v > 0 && 0 * 0 == 0) by (nonlinear_arith)
        requires
            a == abs_val(v),
            v != 0,
    ;
    if 0 * 0 + v * v <= MOMENTUM_CAP * MOMENTUM_CAP {
        lemma_sq_le(v, MOMENTUM_CAP as int);
    } else {
        assert(a > MOMENTUM_CAP) by (nonlinear_arith)
            requires
                a * a > MOMENTUM_CAP * MOMENTUM_CAP,
                a >= 0,
                MOMENTUM_CAP >= 0,
        ;
        assert(a * a < (a + 1) * (a + 1)) by (nonlinear_arith)
            requires
                a >= 0,
        ;
        lemma_isqrt_unique((0 * 0 + v * v) as nat, a as nat);
        assert((a * MOMENTUM_CAP) / a == MOMENTUM_CAP && 0int / a == 0) by (nonlinear_arith)
            requires
                a >= 1,
                MOMENTUM_CAP >= 0,
        ;
        if v > 0 {
            assert(v * MOMENTUM_CAP == a * MOMENTUM_CAP && 0 * MOMENTUM_CAP == 0)
                by (nonlinear_arith)
                requires
                    v == a,
            ;
        } else {
            assert(-(v * MOMENTUM_CAP) == a * MOMENTUM_CAP && v * MOMENTUM_CAP < 0 && 0
                * MOMENTUM_CAP == 0) by (nonlinear_arith)
                requires
                    -v == a,
                    a >= 1,
                    MOMENTUM_CAP >= 1,
            ;
        }
    }
}

/// A single directional key press from rest: the momentum lands on the
/// key's axis; it is the direction scaled by the spawn size and the gain
/// when that is within the cap, and exactly the cap beyond it.
pub proof fn lemma_impulse_clamp_from_rest(pre: World, post: World, key: Key, i: usize)
    requires
        pre.wf(),
        pre.controlled_index == Some(i),
        pre.entities@[i as int].momentum.x == 0,
        pre.entities@[i as int].momentum.y == 0,
        key_transition(pre, post, key, true),
    ensures
        ({
            let d = key_dir(key);
            let m = post.entities@[i as int].momentum;
            let vx = IMPULSE_GAIN * (d.0 * pre.spawn_size.x);
            let vy = IMPULSE_GAIN * (d.1 * pre.spawn_size.y);
            &&& (d.0 == 0 ==> m.x == 0)
            &&& (d.1 == 0 ==> m.y == 0)
            &&& (-MOMENTUM_CAP <= vx <= MOMENTUM_CAP ==> m.x == vx)
            &&& (-MOMENTUM_CAP <= vy <= MOMENTUM_CAP ==> m.y == vy)
            &&& (vx > MOMENTUM_CAP ==> m.x == MOMENTUM_CAP)
            &&& (vx < -MOMENTUM_CAP ==> m.x == -MOMENTUM_CAP)
            &&& (vy > MOMENTUM_CAP ==> m.y == MOMENTUM_CAP)
            &&& (vy < -MOMENTUM_CAP ==> m.y == -MOMENTUM_CAP)
        }),
{
    let sx = pre.spawn_size.x as int;
    let sy = pre.spawn_size.y as int;
    match key {
        Key::Other => {
            assert(0 * sx == 0 && 0 * sy == 0) by (nonlinear_arith);
        },
        Key::Right => {
            assert(1 * sx == sx && 0 * sy == 0) by (nonlinear_arith);
            lemma_clamp_axis_x(IMPULSE_GAIN * sx);
        },
        Key::Left => {
            assert(-1 * sx == -sx && 0 * sy == 0) by (nonlinear_arith);
            lemma_clamp_axis_x(IMPULSE_GAIN * -sx);
        },
        Key::Down => {
            assert(0 * sx == 0 && 1 * sy == sy) by (nonlinear_arith);
            lemma_clamp_axis_y(IMPULSE_GAIN * sy);
        },
        Key::Up => {
            assert(0 * sx == 0 && -1 * sy == -sy) by (nonlinear_arith);
            lemma_clamp_axis_y(IMPULSE_GAIN * -sy);
        },
    }
}

/// With no input, damping strictly shrinks every nonzero momentum
/// component each step, to nine tenths of its magnitude up to the
/// truncation loss, whether or not a bounce flips its sign; an entity at
/// rest is a fixed point of the step.
pub proof fn lemma_damping_decreases(e: Entity)
    requires
        momentum_ok(e),
    ensures
        ({
            let post = stepped_entity(e);
            &&& (e.momentum.x == 0 && e.momentum.y == 0 ==> post == e)
            &&& abs_val(post.momentum.x as int) <= abs_val(e.momentum.x as int)
            &&& abs_val(post.momentum.y as int) <= abs_val(e.momentum.y as int)
            &&& (e.momentum.x != 0 ==> abs_val(post.momentum.x as int) < abs_val(
                e.momentum.x as int,
            ))
            &&& (e.momentum.y != 0 ==> abs_val(post.momentum.y as int) < abs_val(
                e.momentum.y as int,
            ))
            &&& 9 * abs_val(e.momentum.x as int) - 9 <= 10 * abs_val(post.momentum.x as int)
            &&& 10 * abs_val(post.momentum.x as int) <= 9 * abs_val(e.momentum.x as int)
            &&& 9 * abs_val(e.momentum.y as int) - 9 <= 10 * abs_val(post.momentum.y as int)
            &&& 10 * abs_val(post.momentum.y as int) <= 9 * abs_val(e.momentum.y as int)
        }),
{
    lemma_damp_shrinks(e.momentum.x as int);
    lemma_damp_shrinks(e.momentum.y as int);
    lemma_damp_rate(e.momentum.x as int);
    lemma_damp_rate(e.momentum.y as int);
}

/// The entity after `n` physics steps with no input in between.
pub open spec fn stepped_iter(e: Entity, n: nat) -> Entity
    decreases n,
{
    if n == 0 {
        e
    } else {
        stepped_entity(stepped_iter(e, (n - 1) as nat))
    }
}

/// Over `n` input-free frames a momentum component decays at least as
/// fast as nine tenths per frame: scaled by `10^n` it stays below the
/// starting magnitude scaled by `9^n`.
pub proof fn lemma_damping_rate_over_frames(e: Entity, n: nat)
    requires
        momentum_ok(e),
    ensures
        momentum_ok(stepped_iter(e, n)),
        pow(10, n) * abs_val(stepped_iter(e, n).momentum.x as int) <= pow(9, n) * abs_val(
            e.momentum.x as int,
        ),
        pow(10, n) * abs_val(stepped_iter(e, n).momentum.y as int) <= pow(9, n) * abs_val(
            e.momentum.y as int,
        ),
    decreases n,
{
    if n == 0 {
        lemma_pow0(10);
        lemma_pow0(9);
    } else {
        let prev = stepped_iter(e, (n - 1) as nat);
        lemma_damping_rate_over_frames(e, (n - 1) as nat);
        lemma_damping_decreases(prev);
        lemma_pow_positive(10, (n - 1) as nat);
        lemma_pow_positive(9, (n - 1) as nat);
        let cur = stepped_iter(e, n);
        assert(cur == stepped_entity(prev));
        let a10 = pow(10, (n - 1) as nat);
        let a9 = pow(9, (n - 1) as nat);
        assert(pow(10, n) == 10 * a10 && pow(9, n) == 9 * a9) by {
            reveal(pow);
        }
        assert(10 * a10 * abs_val(cur.momentum.x as int) <= 9 * a9 * abs_val(
            e.momentum.x as int,
        )) by (nonlinear_arith)
            requires
                a10 >= 1,
                a9 >= 1,
                abs_val(cur.momentum.x as int) >= 0,
                abs_val(prev.momentum.x as int) >= 0,
                abs_val(e.momentum.x as int) >= 0,
                10 * abs_val(cur.momentum.x as int) <= 9 * abs_val(prev.momentum.x as int),
                a10 * abs_val(prev.momentum.x as int) <= a9 * abs_val(e.momentum.x as int),
        ;
        assert(10 * a10 * abs_val(cur.momentum.y as int) <= 9 * a9 * abs_val(
            e.momentum.y as int,
        )) by (nonlinear_arith)
            requires
                a10 >= 1,
                a9 >= 1,
                abs_val(cur.momentum.y as int) >= 0,
                abs_val(prev.momentum.y as int) >= 0,
                abs_val(e.momentum.y as int) >= 0,
                10 * abs_val(cur.momentum.y as int) <= 9 * abs_val(prev.momentum.y as int),
                a10 * abs_val(prev.momentum.y as int) <= a9 * abs_val(e.momentum.y as int),
        ;
    }
}

/// An entity moving right whose translated bounds cross the right world
/// edge leaves the physics step moving left; crossing the left edge while
/// moving left turns it right. The fixed-point grain matters only at
/// magnitude one, which damps to zero, so the law asks for at least two.
pub proof fn lemma_bounce_x(e: Entity)
    requires
        momentum_ok(e),
        sat_add_spec(e.bounds.max.x as int, e.momentum.x as int) > WORLD_MAX_X
            || sat_add_spec(e.bounds.min.x as int, e.momentum.x as int) < 0,
    ensures
        e.momentum.x >= 2 ==> stepped_entity(e).momentum.x < 0,
        e.momentum.x <= -2 ==> stepped_entity(e).momentum.x > 0,
{
    lemma_damp_shrinks(e.momentum.x as int);
    assert(e.momentum.x >= 2 ==> damp_spec(e.momentum.x as int) >= 1);
    assert(e.momentum.x <= -2 ==> damp_spec(e.momentum.x as int) <= -1);
}

/// The y-axis bounce, independent of and symmetric to the x-axis one.
pub proof fn lemma_bounce_y(e: Entity)
    requires
        momentum_ok(e),
        sat_add_spec(e.bounds.max.y as int, e.momentum.y as int) > WORLD_MAX_Y
            || sat_add_spec(e.bounds.min.y as int, e.momentum.y as int) < 0,
    ensures
        e.momentum.y >= 2 ==> stepped_entity(e).momentum.y < 0,
        e.momentum.y <= -2 ==> stepped_entity(e).momentum.y > 0,
{
    lemma_damp_shrinks(e.momentum.y as int);
    assert(e.momentum.y >= 2 ==> damp_spec(e.momentum.y as int) >= 1);
    assert(e.momentum.y <= -2 ==> damp_spec(e.momentum.y as int) <= -1);
}

} // verus!
