//! One tick of the world: moving the bodies, stopping them where they meet,
//! and keeping account of the time of the tick.

use vstd::prelude::*;
use crate::collisions::Hit;
use crate::entities::{position_of, Entity, EntityPool, ID};
use crate::collisions::relative_velocity;
use crate::math::{angle_swept, clamp, lemma_reversed, lemma_rotate_within, normalize_angle, normalized, quotient, scaled, swept_angle, unit_length, Axes, Heading, Vector, TICK, UNIT, UNIT_TOLERANCE};
use crate::partition::distance;
use crate::partition::Location;

verus! {

/// Drag keeps `DRAG_NUMERATOR / DRAG_DENOMINATOR` of every velocity per tick.
pub const DRAG_NUMERATOR: i64 = 19;

pub const DRAG_DENOMINATOR: i64 = 20;

/// The number of contacts in a row without motion between them at which the
/// bodies are taken to be wedged, and stopped on both axes.
pub const WEDGE_LIMIT: u32 = 3;

/// `entity` after drag.
pub open spec fn dragged(entity: Entity) -> Entity {
    Entity {
        velocity: entity.velocity.spec_scaled(DRAG_NUMERATOR as int, DRAG_DENOMINATOR as int),
        angular_velocity: clamp(
            quotient(entity.angular_velocity * DRAG_NUMERATOR, DRAG_DENOMINATOR as int),
        ) as i64,
        ..entity
    }
}

/// The rotation of `entity` after `delta_tick` quanta.
pub open spec fn spec_rotation_after(entity: Entity, delta_tick: u64) -> u32 {
    normalized(
        entity.rotation + normalized(swept_angle(entity.angular_velocity as int, delta_tick as int)),
    ) as u32
}

/// `entity` after `delta_tick` quanta of free motion, with `forward` for the
/// heading of its new rotation.
pub open spec fn moved(entity: Entity, delta_tick: u64, forward: Heading) -> Entity {
    Entity {
        location: Location {
            position: entity.location.position.spec_plus(
                entity.velocity.spec_travelled(delta_tick as int),
            ),
            ..entity.location
        },
        rotation: spec_rotation_after(entity, delta_tick),
        forward,
        ..entity
    }
}

/// The velocity of `owner` as seen from `target`, on the axes of `walls` in
/// the frame of `target`, turned back into the world.
pub open spec fn world_impulse(owner: Entity, target: Entity, walls: Axes) -> Vector {
    owner.velocity.spec_minus(target.velocity).spec_rotate(
        target.forward.spec_reversed(),
    ).spec_masked(walls).spec_rotate(target.forward)
}

/// `entity` after a contact: its velocity changed by `change`, its spin gone.
pub open spec fn stopped(entity: Entity, velocity: Vector) -> Entity {
    Entity { velocity, angular_velocity: 0, ..entity }
}

/// How the impulse of a contact is shared: what the owner loses and what
/// the target gains. A body that cannot be moved takes none of it and the
/// other takes it all; two bodies that can be moved take half each, the odd
/// unit going to the owner.
pub open spec fn shares(impulse: Vector, owner_moves: bool, target_moves: bool) -> (Vector, Vector) {
    let none = Vector { x: 0, y: 0 };
    if owner_moves && target_moves {
        (impulse.spec_minus(impulse.spec_scaled(1, 2)), impulse.spec_scaled(1, 2))
    } else if owner_moves {
        (impulse, none)
    } else if target_moves {
        (none, impulse)
    } else {
        (none, none)
    }
}

/// The entities after the contact `hit`: the velocity of the owner as seen
/// from the target is taken away along the walls of the hit, the owner
/// losing and the target gaining its share of it, and each body that can be
/// moved loses its spin. `static_thing` cannot be moved.
pub open spec fn after_normal_force(entities: Seq<Entity>, static_thing: ID, hit: Hit) -> Seq<Entity> {
    let owner = position_of(entities, hit.owner, entities.len() as int)->0;
    let target = position_of(entities, hit.target, entities.len() as int)->0;
    let impulse = world_impulse(entities[owner], entities[target], hit.walls);
    let (loss, gain) = shares(impulse, hit.owner != static_thing, hit.target != static_thing);
    let first = if hit.owner != static_thing {
        entities.update(owner, stopped(entities[owner], entities[owner].velocity.spec_minus(loss)))
    } else {
        entities
    };
    if hit.target != static_thing {
        first.update(target, stopped(first[target], first[target].velocity.spec_plus(gain)))
    } else {
        first
    }
}

/// The speed, along each axis, up to which a contact is resolved without
/// any velocity sticking to a bound.
pub const SPEED_LIMIT: i64 = 0x100_0000_0000;

/// Whether both components of `velocity` lie within `SPEED_LIMIT`.
pub open spec fn within_speed_limit(velocity: Vector) -> bool {
    -SPEED_LIMIT <= velocity.x <= SPEED_LIMIT && -SPEED_LIMIT <= velocity.y <= SPEED_LIMIT
}

/// Whether what is left of a velocity along an axis is no more than the
/// rounding of two turns can leave of `before`: less than three units and
/// the part of `before` by which the heading may fail to be of unit length.
pub open spec fn brought_to_rest(before: int, left: int) -> bool {
    distance(left) * (UNIT * UNIT) < 3 * (UNIT * UNIT) + distance(before) * UNIT_TOLERANCE
}

/// Whether a heading with these components points along an axis, exactly.
pub open spec fn along_an_axis(cos: int, sin: int) -> bool {
    ||| (cos == UNIT || cos == -UNIT) && sin == 0
    ||| cos == 0 && (sin == UNIT || sin == -UNIT)
}

/// Whether the contact `hit` can be resolved among `entities` without any
/// velocity sticking to a bound: its two bodies are there and are two, one
/// of them at least can be moved, and both keep to the speed limit.
pub open spec fn resolvable(entities: Seq<Entity>, static_thing: ID, hit: Hit) -> bool {
    let owner = position_of(entities, hit.owner, entities.len() as int);
    let target = position_of(entities, hit.target, entities.len() as int);
    &&& owner is Some
    &&& target is Some
    &&& owner != target
    &&& hit.owner != static_thing || hit.target != static_thing
    &&& within_speed_limit(entities[owner->0].velocity)
    &&& within_speed_limit(entities[target->0].velocity)
}

/// Whether, from `before` to `after`, the two bodies of `hit` have come to
/// rest against each other along the walls of the hit: of the velocity of
/// the owner as seen from the target, in the frame of the target, nothing
/// is left along a flagged axis but what the rounding of the turns leaves;
/// and where the target heads along an axis, nothing at all is left along a
/// flagged axis and the other axis keeps what it had.
pub open spec fn at_rest_along_walls(before: Seq<Entity>, after: Seq<Entity>, hit: Hit) -> bool {
    let owner = position_of(before, hit.owner, before.len() as int)->0;
    let target = position_of(before, hit.target, before.len() as int)->0;
    let was = relative_velocity(before[owner], before[target]);
    let left = relative_velocity(after[owner], after[target]);
    let forward = before[target].forward;
    &&& after.len() == before.len()
    &&& after[target].forward == forward
    &&& hit.walls.x ==> brought_to_rest(was.x as int, left.x as int)
    &&& hit.walls.y ==> brought_to_rest(was.y as int, left.y as int)
    &&& along_an_axis(forward.cos(), forward.sin()) ==> left == was.spec_masked(
        Axes { x: !hit.walls.x, y: !hit.walls.y },
    )
}

/// The distance between a number and its quotient by `UNIT`, times `UNIT`.
proof fn lemma_quotient_by_unit(a: int)
    ensures
        -UNIT < UNIT * quotient(a, UNIT as int) - a < UNIT,
        distance(quotient(a, UNIT as int)) * UNIT <= distance(a),
{
}

/// Taking away, along the flagged axes of a frame, what a vector comes to
/// in that frame leaves next to nothing of it along these axes in that
/// frame. `c` and `s` are the heading of the frame; `x` and `y` the vector.
proof fn lemma_residue(x: int, y: int, c: int, s: int, fx: bool, fy: bool)
    requires
        unit_length(c, s),
    ensures
        ({
            let lx = quotient(x * c + y * s, UNIT as int);
            let ly = quotient(y * c - x * s, UNIT as int);
            let mx = if fx { lx } else { 0 };
            let my = if fy { ly } else { 0 };
            let wx = quotient(mx * c - my * s, UNIT as int);
            let wy = quotient(mx * s + my * c, UNIT as int);
            let lx2 = quotient((x - wx) * c + (y - wy) * s, UNIT as int);
            let ly2 = quotient((y - wy) * c - (x - wx) * s, UNIT as int);
            &&& fx ==> brought_to_rest(lx, lx2)
            &&& fy ==> brought_to_rest(ly, ly2)
            &&& along_an_axis(c, s) ==> lx2 == (if fx { 0 } else { lx }) && ly2 == (if fy { 0 } else { ly })
        }),
{
    let u = UNIT as int;
    let t = UNIT_TOLERANCE as int;
    let a = x * c + y * s;
    let b = y * c - x * s;
    let lx = quotient(a, u);
    let ly = quotient(b, u);
    let mx = if fx { lx } else { 0 };
    let my = if fy { ly } else { 0 };
    let p = mx * c - my * s;
    let q = mx * s + my * c;
    let wx = quotient(p, u);
    let wy = quotient(q, u);
    let a2 = (x - wx) * c + (y - wy) * s;
    let b2 = (y - wy) * c - (x - wx) * s;
    let lx2 = quotient(a2, u);
    let ly2 = quotient(b2, u);
    lemma_quotient_by_unit(a);
    lemma_quotient_by_unit(b);
    lemma_quotient_by_unit(p);
    lemma_quotient_by_unit(q);
    lemma_quotient_by_unit(a2);
    lemma_quotient_by_unit(b2);
    let ea = u * lx - a;
    let eb = u * ly - b;
    let e1 = u * wx - p;
    let e2 = u * wy - q;
    let d = c * c + s * s - u * u;
    let e1c = e1 * c;
    let e2s = e2 * s;
    let e2c = e2 * c;
    let e1s = e1 * s;
    assert(-u * u <= e1c <= u * u && -u * u <= e2s <= u * u && -u * u <= e2c <= u * u && -u * u
        <= e1s <= u * u) by (nonlinear_arith)
        requires
            -u < e1 < u,
            -u < e2 < u,
            -u <= c <= u,
            -u <= s <= u,
            u == 0x10000,
            e1c == e1 * c,
            e2s == e2 * s,
            e2c == e2 * c,
            e1s == e1 * s,
    ;
    if fx {
        let lxd = lx * d;
        let wxc = wx * c;
        let wys = wy * s;
        let pc = p * c;
        let qs = q * s;
        assert(a2 == a - wxc - wys) by (nonlinear_arith)
            requires
                a2 == (x - wx) * c + (y - wy) * s,
                a == x * c + y * s,
                wxc == wx * c,
                wys == wy * s,
        ;
        assert(u * wxc == pc + e1c && u * wys == qs + e2s) by (nonlinear_arith)
            requires
                u * wx == p + e1,
                u * wy == q + e2,
                wxc == wx * c,
                wys == wy * s,
                pc == p * c,
                qs == q * s,
                e1c == e1 * c,
                e2s == e2 * s,
        ;
        assert(pc + qs == lx * (u * u) + lxd) by (nonlinear_arith)
            requires
                p == lx * c - my * s,
                q == lx * s + my * c,
                pc == p * c,
                qs == q * s,
                d == c * c + s * s - u * u,
                lxd == lx * d,
        ;
        assert(u * a2 == -(u * ea) - lxd - e1c - e2s);
        assert(distance(lxd) <= distance(lx) * t) by (nonlinear_arith)
            requires
                lxd == lx * d,
                -t <= d <= t,
                t >= 0,
        ;
        assert(distance(u * a2) < 3 * (u * u) + distance(lx) * t);
        assert(distance(lx2) * (u * u) <= distance(u * a2)) by (nonlinear_arith)
            requires
                distance(lx2) * u <= distance(a2),
                u == 0x10000,
        ;
    }
    if fy {
        let lyd = ly * d;
        let wyc = wy * c;
        let wxs = wx * s;
        let qc = q * c;
        let ps = p * s;
        assert(b2 == b - wyc + wxs) by (nonlinear_arith)
            requires
                b2 == (y - wy) * c - (x - wx) * s,
                b == y * c - x * s,
                wyc == wy * c,
                wxs == wx * s,
        ;
        assert(u * wyc == qc + e2c && u * wxs == ps + e1s) by (nonlinear_arith)
            requires
                u * wx == p + e1,
                u * wy == q + e2,
                wyc == wy * c,
                wxs == wx * s,
                qc == q * c,
                ps == p * s,
                e2c == e2 * c,
                e1s == e1 * s,
        ;
        assert(qc - ps == ly * (u * u) + lyd) by (nonlinear_arith)
            requires
                p == mx * c - ly * s,
                q == mx * s + ly * c,
                qc == q * c,
                ps == p * s,
                d == c * c + s * s - u * u,
                lyd == ly * d,
        ;
        assert(u * b2 == -(u * eb) - lyd - e2c + e1s);
        assert(distance(lyd) <= distance(ly) * t) by (nonlinear_arith)
            requires
                lyd == ly * d,
                -t <= d <= t,
                t >= 0,
        ;
        assert(distance(u * b2) < 3 * (u * u) + distance(ly) * t);
        assert(distance(ly2) * (u * u) <= distance(u * b2)) by (nonlinear_arith)
            requires
                distance(ly2) * u <= distance(b2),
                u == 0x10000,
        ;
    }
    if along_an_axis(c, s) {
        lemma_turn_along_an_axis(x, y, c, s);
        lemma_turn_along_an_axis(mx, my, c, -s);
        lemma_turn_along_an_axis(x - wx, y - wy, c, s);
        assert(mx * c - my * s == mx * c + my * (-s)) by (nonlinear_arith);
        assert(my * c - mx * (-s) == mx * s + my * c) by (nonlinear_arith);
    }
}

/// Turning by a heading along an axis only exchanges the components or
/// changes their signs: `(x c + y s, y c - x s)` is `UNIT` times a vector
/// that, turned back, is `(x, y)` again.
proof fn lemma_turn_along_an_axis(x: int, y: int, c: int, s: int)
    requires
        along_an_axis(c, s),
    ensures
        ({
            let lx = quotient(x * c + y * s, UNIT as int);
            let ly = quotient(y * c - x * s, UNIT as int);
            &&& x * c + y * s == UNIT * lx
            &&& y * c - x * s == UNIT * ly
            &&& lx == (if s == 0 { if c > 0 { x } else { -x } } else { if s > 0 { y } else { -y } })
            &&& ly == (if s == 0 { if c > 0 { y } else { -y } } else { if s > 0 { -x } else { x } })
        }),
{
    let u = UNIT as int;
    assert(x * c + y * s == (if s == 0 { if c > 0 { x * u } else { -x * u } } else { if s > 0 { y * u } else { -y * u } })
        && y * c - x * s == (if s == 0 { if c > 0 { y * u } else { -y * u } } else { if s > 0 { -x * u } else { x * u } }))
        by (nonlinear_arith)
        requires
            (c == u || c == -u) && s == 0 || c == 0 && (s == u || s == -u),
            u == 0x10000,
    ;
}

impl Entity {
    /// The rotation after `delta_tick` quanta of turning at the present rate.
    pub fn rotation_after(&self, delta_tick: u64) -> (r: u32)
        ensures
            r == spec_rotation_after(*self, delta_tick),
            r < crate::math::FULL_TURN,
    {
        let turn: i64 = normalize_angle(angle_swept(self.angular_velocity, delta_tick)) as i64;
        normalize_angle(self.rotation as i64 + turn)
    }

    /// Turns the entity by `angle`; `forward` is the heading of the new rotation.
    pub fn rel_rotate(&mut self, angle: i64, forward: Heading)
        ensures
            final(self).rotation == normalized(old(self).rotation + normalized(angle as int)),
            final(self).forward == forward,
            final(self).id == old(self).id,
            final(self).location == old(self).location,
            final(self).velocity == old(self).velocity,
            final(self).angular_velocity == old(self).angular_velocity,
            final(self).corners == old(self).corners,
    {
        let turn: i64 = normalize_angle(angle) as i64;
        self.rotation = normalize_angle(self.rotation as i64 + turn);
        self.forward = forward;
    }
}

/// Slows every entity down: each velocity and each spin keeps
/// `DRAG_NUMERATOR / DRAG_DENOMINATOR` of itself, rounded toward zero.
pub fn apply_drag(pool: &mut EntityPool)
    ensures
        final(pool).entities@.len() == old(pool).entities@.len(),
        forall|k: int|
            0 <= k < old(pool).entities@.len() ==> #[trigger] final(pool).entities@[k] == dragged(
                old(pool).entities@[k],
            ),
{
    let mut k: usize = 0;
    while k < pool.entities.len()
        invariant
            k <= pool.entities@.len(),
            pool.entities@.len() == old(pool).entities@.len(),
            forall|j: int|
                0 <= j < k ==> #[trigger] pool.entities@[j] == dragged(old(pool).entities@[j]),
            forall|j: int|
                k <= j < pool.entities@.len() ==> #[trigger] pool.entities@[j] == old(
                    pool,
                ).entities@[j],
        decreases pool.entities@.len() - k,
    {
        let velocity = pool.entities[k].velocity.scaled(DRAG_NUMERATOR, DRAG_DENOMINATOR);
        let angular: i64 = scaled(pool.entities[k].angular_velocity, DRAG_NUMERATOR, DRAG_DENOMINATOR);
        pool.entities[k].velocity = velocity;
        pool.entities[k].angular_velocity = angular;
        k = k + 1;
    }
}

/// Moves and turns every entity for `delta_tick` quanta. `headings` holds,
/// for each entity, the heading of its rotation afterwards, which is
/// [`Entity::rotation_after`].
pub fn tick_entities(pool: &mut EntityPool, delta_tick: u64, headings: &Vec<Heading>)
    requires
        headings@.len() == old(pool).entities@.len(),
    ensures
        final(pool).entities@.len() == old(pool).entities@.len(),
        forall|k: int|
            0 <= k < old(pool).entities@.len() ==> #[trigger] final(pool).entities@[k] == moved(
                old(pool).entities@[k],
                delta_tick,
                headings@[k],
            ),
{
    let mut k: usize = 0;
    while k < pool.entities.len()
        invariant
            k <= pool.entities@.len(),
            pool.entities@.len() == old(pool).entities@.len(),
            headings@.len() == pool.entities@.len(),
            forall|j: int|
                0 <= j < k ==> #[trigger] pool.entities@[j] == moved(
                    old(pool).entities@[j],
                    delta_tick,
                    headings@[j],
                ),
            forall|j: int|
                k <= j < pool.entities@.len() ==> #[trigger] pool.entities@[j] == old(
                    pool,
                ).entities@[j],
        decreases pool.entities@.len() - k,
    {
        let position = pool.entities[k].location.position.plus(
            pool.entities[k].velocity.travelled(delta_tick),
        );
        let rotation: u32 = pool.entities[k].rotation_after(delta_tick);
        pool.entities[k].location.position = position;
        pool.entities[k].rotation = rotation;
        pool.entities[k].forward = headings[k];
        k = k + 1;
    }
}

/// Stops the two bodies of `hit` against each other along the walls of the
/// hit: see [`after_normal_force`] for what each body is left with, and
/// [`at_rest_along_walls`] for what that comes to.
pub fn apply_normal_force(pool: &mut EntityPool, static_thing: ID, hit: Hit)
    requires
        old(pool).has(hit.owner),
        old(pool).has(hit.target),
    ensures
        final(pool).entities@ == after_normal_force(old(pool).entities@, static_thing, hit),
        resolvable(old(pool).entities@, static_thing, hit) ==> at_rest_along_walls(
            old(pool).entities@,
            final(pool).entities@,
            hit,
        ),
{
    let owner: usize = pool.index_of(hit.owner).unwrap();
    let target: usize = pool.index_of(hit.target).unwrap();
    let rel_velocity = pool.entities[owner].velocity.minus(pool.entities[target].velocity);
    let forward = pool.entities[target].forward;
    let world_impulse = rel_velocity.rotate(forward.reversed()).masked(hit.walls).rotate(forward);
    proof {
        if resolvable(old(pool).entities@, static_thing, hit) {
            lemma_contact_stops(old(pool).entities@, static_thing, hit);
        }
    }
    let owner_moves: bool = hit.owner != static_thing;
    let target_moves: bool = hit.target != static_thing;
    let (loss, gain) = if owner_moves && target_moves {
        let half = world_impulse.scaled(1, 2);
        (world_impulse.minus(half), half)
    } else if owner_moves {
        (world_impulse, Vector::zero())
    } else if target_moves {
        (Vector::zero(), world_impulse)
    } else {
        (Vector::zero(), Vector::zero())
    };
    if owner_moves {
        let velocity = pool.entities[owner].velocity.minus(loss);
        pool.entities[owner].velocity = velocity;
        pool.entities[owner].angular_velocity = 0;
    }
    if target_moves {
        let velocity = pool.entities[target].velocity.plus(gain);
        pool.entities[target].velocity = velocity;
        pool.entities[target].angular_velocity = 0;
    }
    proof {
        assert(pool.entities@ =~= after_normal_force(old(pool).entities@, static_thing, hit));
    }
}

/// A contact brings the two bodies to rest against each other along the
/// walls of the hit: of the velocity of the owner as seen from the target, in
/// the frame of the target, nothing is left along a flagged axis but what
/// the rounding of the turns leaves, and nothing at all where the target
/// heads along an axis; then the other axis keeps what it had. Each body
/// that can be moved has lost its spin, and `static_thing` is as it was.
pub proof fn lemma_contact_stops(entities: Seq<Entity>, static_thing: ID, hit: Hit)
    requires
        resolvable(entities, static_thing, hit),
        unit_length(
            entities[position_of(entities, hit.target, entities.len() as int)->0].forward.cos(),
            entities[position_of(entities, hit.target, entities.len() as int)->0].forward.sin(),
        ),
    ensures
        at_rest_along_walls(entities, after_normal_force(entities, static_thing, hit), hit),
        ({
            let owner = position_of(entities, hit.owner, entities.len() as int)->0;
            let target = position_of(entities, hit.target, entities.len() as int)->0;
            let after = after_normal_force(entities, static_thing, hit);
            &&& hit.owner != static_thing ==> after[owner].angular_velocity == 0
            &&& hit.target != static_thing ==> after[target].angular_velocity == 0
            &&& hit.owner == static_thing ==> after[owner] == entities[owner]
            &&& hit.target == static_thing ==> after[target] == entities[target]
        }),
{
    crate::entities::lemma_position_of(entities, hit.owner, entities.len() as int);
    crate::entities::lemma_position_of(entities, hit.target, entities.len() as int);
    let owner = position_of(entities, hit.owner, entities.len() as int)->0;
    let target = position_of(entities, hit.target, entities.len() as int)->0;
    let forward = entities[target].forward;
    let back = forward.spec_reversed();
    let c = forward.cos();
    let s = forward.sin();
    lemma_reversed(forward);
    let limit = SPEED_LIMIT as int;
    let rel = entities[owner].velocity.spec_minus(entities[target].velocity);
    let local = rel.spec_rotate(back);
    lemma_rotate_within(rel, back, 2 * limit);
    let masked = local.spec_masked(hit.walls);
    lemma_rotate_within(masked, forward, 4 * limit);
    let impulse = masked.spec_rotate(forward);
    assert(impulse == world_impulse(entities[owner], entities[target], hit.walls));
    let (loss, gain) = shares(impulse, hit.owner != static_thing, hit.target != static_thing);
    assert(loss.x - (-gain.x) == impulse.x && loss.y + gain.y == impulse.y);
    let after = after_normal_force(entities, static_thing, hit);
    let rel2 = after[owner].velocity.spec_minus(after[target].velocity);
    assert(rel2.x == rel.x - impulse.x && rel2.y == rel.y - impulse.y);
    lemma_rotate_within(rel2, back, 16 * limit);
    let left = rel2.spec_rotate(back);
    assert(left == relative_velocity(after[owner], after[target]));
    lemma_residue(rel.x as int, rel.y as int, c, s, hit.walls.x, hit.walls.y);
    assert(rel.x * c - rel.y * (-s) == rel.x * c + rel.y * s) by (nonlinear_arith);
    assert(rel.x * (-s) + rel.y * c == rel.y * c - rel.x * s) by (nonlinear_arith);
    assert(rel2.x * c - rel2.y * (-s) == (rel.x - impulse.x) * c + (rel.y - impulse.y) * s)
        by (nonlinear_arith)
        requires
            rel2.x == rel.x - impulse.x,
            rel2.y == rel.y - impulse.y,
    ;
    assert(rel2.x * (-s) + rel2.y * c == (rel.y - impulse.y) * c - (rel.x - impulse.x) * s)
        by (nonlinear_arith)
        requires
            rel2.x == rel.x - impulse.x,
            rel2.y == rel.y - impulse.y,
    ;
}

/// A whole tick of free motion, then drag.
pub fn just_move(pool: &mut EntityPool, headings: &Vec<Heading>)
    requires
        headings@.len() == old(pool).entities@.len(),
    ensures
        final(pool).entities@.len() == old(pool).entities@.len(),
        forall|k: int|
            0 <= k < old(pool).entities@.len() ==> #[trigger] final(pool).entities@[k] == dragged(
                moved(old(pool).entities@[k], TICK, headings@[k]),
            ),
{
    tick_entities(pool, TICK, headings);
    apply_drag(pool);
}

/// The account of one tick: the time still to spend, and how many contacts
/// in a row took no time.
#[derive(Clone, Copy, Debug, PartialEq, Eq, Structural)]
pub struct Substeps {
    pub tick_max: u64,
    pub wedge_count: u32,
}

/// What to do next in a tick.
#[derive(Clone, Copy, Debug, PartialEq, Eq, Structural)]
pub enum Step {
    /// Nothing is in the way: move every body for `ticks` quanta. The tick
    /// is over.
    Finish { ticks: u64 },
    /// Move every body for `ticks` quanta, then stop the two bodies of `hit`
    /// against each other.
    Resolve { ticks: u64, hit: Hit },
}

impl Step {
    /// The time the step takes.
    pub open spec fn ticks(self) -> nat {
        match self {
            Step::Finish { ticks } => ticks as nat,
            Step::Resolve { ticks, .. } => ticks as nat,
        }
    }
}

impl Substeps {
    /// The account and the step that follow from `found`, the earliest
    /// contact within the time still to spend, if there is one.
    ///
    /// Without a contact the rest of the tick is free motion. A contact
    /// after some time is moved up to and resolved as found; it takes its
    /// time off the account, and no more than is left. A contact after no time
    /// is resolved without motion, and the `WEDGE_LIMIT`th such contact in a
    /// row is resolved as a stop on both axes, whatever walls were found.
    pub open spec fn spec_step(self, found: Option<Hit>) -> (Substeps, Step) {
        match found {
            None => (Substeps { tick_max: 0, ..self }, Step::Finish { ticks: self.tick_max }),
            Some(hit) => if hit.ticks == 0 {
                let count = if self.wedge_count < u32::MAX {
                    (self.wedge_count + 1) as u32
                } else {
                    self.wedge_count
                };
                let walls = if count == WEDGE_LIMIT {
                    Axes { x: true, y: true }
                } else {
                    hit.walls
                };
                (
                    Substeps { wedge_count: count, ..self },
                    Step::Resolve { ticks: 0, hit: Hit { walls, ..hit } },
                )
            } else {
                let ticks = if hit.ticks <= self.tick_max {
                    hit.ticks
                } else {
                    self.tick_max
                };
                (
                    Substeps { tick_max: (self.tick_max - ticks) as u64, wedge_count: 0 },
                    Step::Resolve { ticks, hit },
                )
            },
        }
    }

    /// The account after the steps for `events`, one after another, and the
    /// time that these steps take together.
    pub open spec fn run(self, events: Seq<Option<Hit>>) -> (Substeps, nat)
        decreases events.len(),
    {
        if events.len() == 0 {
            (self, 0)
        } else {
            let (next, step) = self.spec_step(events[0]);
            let (last, rest) = next.run(events.drop_first());
            (last, step.ticks() + rest)
        }
    }

    /// The account at the start of a tick.
    pub fn new() -> (r: Self)
        ensures
            r == (Substeps { tick_max: TICK, wedge_count: 0 }),
    {
        Substeps { tick_max: TICK, wedge_count: 0 }
    }

    /// The time of the tick still to spend.
    pub fn remaining(&self) -> (r: u64)
        ensures
            r == self.tick_max,
    {
        self.tick_max
    }

    /// See [`Substeps::spec_step`].
    pub fn step(&mut self, found: Option<Hit>) -> (r: Step)
        ensures
            (*final(self), r) == old(self).spec_step(found),
            final(self).tick_max + r.ticks() == old(self).tick_max,
    {
        match found {
            None => {
                let ticks: u64 = self.tick_max;
                self.tick_max = 0;
                Step::Finish { ticks }
            },
            Some(mut hit) => {
                if hit.ticks == 0 {
                    if self.wedge_count < u32::MAX {
                        self.wedge_count = self.wedge_count + 1;
                    }
                    if self.wedge_count == WEDGE_LIMIT {
                        hit.walls = Axes::both();
                    }
                    Step::Resolve { ticks: 0, hit }
                } else {
                    let ticks: u64 = if hit.ticks <= self.tick_max {
                        hit.ticks
                    } else {
                        self.tick_max
                    };
                    self.wedge_count = 0;
                    self.tick_max = self.tick_max - ticks;
                    Step::Resolve { ticks, hit }
                }
            },
        }
    }
}

/// A tick in which nothing is in the way is one step of free motion for
/// the whole tick, and leaves no time.
pub proof fn lemma_free_tick()
    ensures
        (Substeps { tick_max: TICK, wedge_count: 0 }).spec_step(None) == (
            Substeps { tick_max: 0, wedge_count: 0 },
            Step::Finish { ticks: TICK },
        ),
{
}

/// Time is neither lost nor made: whatever is found, the time taken by the
/// steps and the time still to spend add up to the time there was.
pub proof fn lemma_time_is_kept(start: Substeps, events: Seq<Option<Hit>>)
    ensures
        start.run(events).1 + start.run(events).0.tick_max == start.tick_max,
    decreases events.len(),
{
    if events.len() > 0 {
        lemma_time_is_kept(start.spec_step(events[0]).0, events.drop_first());
    }
}

/// Once there is no time to spend, none is spent.
pub proof fn lemma_spent_stays_spent(start: Substeps, events: Seq<Option<Hit>>)
    requires
        start.tick_max == 0,
    ensures
        start.run(events).1 == 0,
        start.run(events).0.tick_max == 0,
    decreases events.len(),
{
    if events.len() > 0 {
        lemma_spent_stays_spent(start.spec_step(events[0]).0, events.drop_first());
    }
}

/// A tick takes a tick: the substeps of a tick that ends in free motion,
/// the free motion counted in, take `TICK` quanta together.
pub proof fn lemma_whole_tick(events: Seq<Option<Hit>>)
    requires
        exists|k: int| 0 <= k < events.len() && events[k] is None,
    ensures
        (Substeps { tick_max: TICK, wedge_count: 0 }).run(events).1 == TICK,
{
    let start = Substeps { tick_max: TICK, wedge_count: 0 };
    lemma_time_is_kept(start, events);
    lemma_free_motion_ends(start, events);
}

proof fn lemma_free_motion_ends(start: Substeps, events: Seq<Option<Hit>>)
    requires
        exists|k: int| 0 <= k < events.len() && events[k] is None,
    ensures
        start.run(events).0.tick_max == 0,
    decreases events.len(),
{
    let k = choose|k: int| 0 <= k < events.len() && events[k] is None;
    let next = start.spec_step(events[0]).0;
    if k == 0 {
        lemma_spent_stays_spent(next, events.drop_first());
    } else {
        assert(events.drop_first()[k - 1] is None);
        lemma_free_motion_ends(next, events.drop_first());
    }
}

} // verus!
