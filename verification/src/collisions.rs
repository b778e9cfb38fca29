//! Collision objects: one body seen from another, in the frame in which the
//! other is at rest.

use vstd::prelude::*;
use vstd::multiset::Multiset;
use crate::corners::{bit, CornerType};
use crate::entities::{Entity, EntityPool, ID};
use crate::math::{Axes, Vector};
use crate::particles::{Particle, ParticleHeap};
use crate::partition::{Bounds, Location};
use crate::zorder::MAX_DEPTH;

verus! {

/// A body, the owner, swept against another, the target, in the frame of the
/// target: positions are turned back by the target's rotation about the
/// target's center, and `linear_velocity` is the owner's velocity less the
/// target's, turned likewise. `particles` holds the corners still to search.
pub struct CollisionObject {
    pub target_location: Location,
    pub target_angular: i64,
    pub target: ID,
    pub owner_position: Vector,
    pub owner_angular: i64,
    pub owner: ID,
    pub linear_velocity: Vector,
    pub particles: ParticleHeap,
}

/// What a collision object holds.
pub struct CollisionObjectView {
    pub target_location: Location,
    pub target_angular: i64,
    pub target: ID,
    pub owner_position: Vector,
    pub owner_angular: i64,
    pub owner: ID,
    pub linear_velocity: Vector,
    pub particles: Multiset<Particle>,
}

impl View for CollisionObject {
    type V = CollisionObjectView;

    open spec fn view(&self) -> CollisionObjectView {
        CollisionObjectView {
            target_location: self.target_location,
            target_angular: self.target_angular,
            target: self.target,
            owner_position: self.owner_position,
            owner_angular: self.owner_angular,
            owner: self.owner,
            linear_velocity: self.linear_velocity,
            particles: self.particles@,
        }
    }
}

/// A contact: the corner of `owner` that meets `target` first, the axes of
/// the target's frame along which it is stopped, and the time into the tick.
#[derive(Clone, Copy, Debug, PartialEq, Eq, Structural)]
pub struct Hit {
    pub owner: ID,
    pub target: ID,
    pub walls: Axes,
    pub ticks: u64,
}

impl CollisionObject {
    pub fn new(
        target_location: Location,
        target_angular: i64,
        target: ID,
        owner_position: Vector,
        owner_angular: i64,
        owner: ID,
        linear_velocity: Vector,
        particles: ParticleHeap,
    ) -> (r: Self)
        ensures
            r@ == (CollisionObjectView {
                target_location,
                target_angular,
                target,
                owner_position,
                owner_angular,
                owner,
                linear_velocity,
                particles: particles@,
            }),
    {
        Self {
            target_location,
            target_angular,
            target,
            owner_position,
            owner_angular,
            owner,
            linear_velocity,
            particles,
        }
    }
}

/// The velocity of `owner` less that of `target`, in the frame of `target`.
pub open spec fn relative_velocity(owner: Entity, target: Entity) -> Vector {
    owner.velocity.spec_minus(target.velocity).spec_rotate(target.forward.spec_reversed())
}

/// Whether `owner` neither moves nor turns as seen from `target`.
pub open spec fn at_rest(owner: Entity, target: Entity) -> bool {
    relative_velocity(owner, target).spec_is_zero() && owner.angular_velocity
        == target.angular_velocity
}

/// `point`, a point of the world, in the frame of `target`.
pub open spec fn in_frame(target: Entity, point: Vector) -> Vector {
    point.spec_minus(target.location.position).spec_rotate(
        target.forward.spec_reversed(),
    ).spec_plus(target.location.position)
}

/// `point`, given from the top left corner of the tree of `owner`, as a point
/// of the world.
pub open spec fn in_world(owner: Entity, point: Vector) -> Vector {
    point.spec_minus(
        Bounds::spec_center_to_edges(owner.location.pointer.height, owner.location.min_cell_length),
    ).spec_rotate(owner.forward).spec_plus(owner.location.position)
}

/// The particle for corner `corner` of group `group` of `owner`.
pub open spec fn seed(owner: Entity, target: Entity, group: int, corner: int) -> Particle {
    Particle {
        offset: in_frame(target, in_world(owner, owner.corners@[group].points[corner])).spec_minus(
            in_frame(target, owner.location.position),
        ),
        corner_type: CornerType::spec_from_index(corner).spec_rotate(
            owner.rotation - target.rotation,
        ),
        ticks_into_projection: 0,
    }
}

/// The particles for the exposed ones among the first `upto` corners of
/// group `group`.
pub open spec fn group_seeds(owner: Entity, target: Entity, group: int, upto: int) -> Multiset<
    Particle,
>
    decreases upto,
{
    if upto <= 0 {
        Multiset::empty()
    } else if bit(owner.corners@[group].mask, upto - 1) {
        group_seeds(owner, target, group, upto - 1).insert(seed(owner, target, group, upto - 1))
    } else {
        group_seeds(owner, target, group, upto - 1)
    }
}

/// The particles for the exposed corners of the first `groups` groups.
pub open spec fn seeds(owner: Entity, target: Entity, groups: int) -> Multiset<Particle>
    decreases groups,
{
    if groups <= 0 {
        Multiset::empty()
    } else {
        seeds(owner, target, groups - 1).add(group_seeds(owner, target, groups - 1, 4))
    }
}

/// What `owner` swept against `target` comes to.
pub open spec fn spec_entity_to_collision_object(owner: Entity, target: Entity) -> Option<
    CollisionObjectView,
> {
    if at_rest(owner, target) {
        None
    } else {
        Some(
            CollisionObjectView {
                target_location: target.location,
                target_angular: target.angular_velocity,
                target: target.id,
                owner_position: in_frame(target, owner.location.position),
                owner_angular: owner.angular_velocity,
                owner: owner.id,
                linear_velocity: relative_velocity(owner, target),
                particles: seeds(owner, target, owner.corners@.len() as int),
            },
        )
    }
}

/// The collision object for `owner` swept against `target`: one particle
/// per exposed corner of `owner`, each at the start of the tick. `None` where
/// `owner` neither moves nor turns as seen from `target`.
pub fn entity_to_collision_object(owner: &Entity, target: &Entity) -> (r: Option<CollisionObject>)
    requires
        owner.location.pointer.height <= MAX_DEPTH,
    ensures
        r is None <==> at_rest(*owner, *target),
        match r {
            Some(object) => Some(object@) == spec_entity_to_collision_object(*owner, *target),
            None => spec_entity_to_collision_object(*owner, *target) is None,
        },
{
    let mut collision_points = ParticleHeap::new();
    let offset = Bounds::center_to_edges(
        owner.location.pointer.height,
        owner.location.min_cell_length,
    );
    let align_target = target.forward.reversed();
    let rel_velocity = owner.velocity.minus(target.velocity).rotate(align_target);
    if rel_velocity.is_zero() && owner.angular_velocity == target.angular_velocity {
        return None;
    }
    let rotated_owner_pos = owner.location.position.minus(target.location.position).rotate(
        align_target,
    ).plus(target.location.position);
    let turn: i64 = owner.rotation as i64 - target.rotation as i64;
    let mut group: usize = 0;
    while group < owner.corners.len()
        invariant
            group <= owner.corners@.len(),
            offset == Bounds::spec_center_to_edges(
                owner.location.pointer.height,
                owner.location.min_cell_length,
            ),
            align_target == target.forward.spec_reversed(),
            rotated_owner_pos == in_frame(*target, owner.location.position),
            turn == owner.rotation - target.rotation,
            collision_points@ == seeds(*owner, *target, group as int),
        decreases owner.corners@.len() - group,
    {
        let mut i: usize = 0;
        while i < 4
            invariant
                i <= 4,
                group < owner.corners@.len(),
                offset == Bounds::spec_center_to_edges(
                    owner.location.pointer.height,
                    owner.location.min_cell_length,
                ),
                align_target == target.forward.spec_reversed(),
                rotated_owner_pos == in_frame(*target, owner.location.position),
                turn == owner.rotation - target.rotation,
                collision_points@ == seeds(*owner, *target, group as int).add(
                    group_seeds(*owner, *target, group as int, i as int),
                ),
            decreases 4 - i,
        {
            let ghost before = collision_points@;
            if owner.corners[group].exposed(i) {
                let point = owner.corners[group].points[i];
                let offset = point.minus(offset).rotate(owner.forward).plus(
                    owner.location.position,
                ).minus(target.location.position).rotate(align_target).plus(
                    target.location.position,
                ).minus(rotated_owner_pos);
                collision_points.push(Particle::new(offset, CornerType::from_index(i).rotate(turn)));
            }
            proof {
                let base = seeds(*owner, *target, group as int);
                let done = group_seeds(*owner, *target, group as int, i as int);
                let next = group_seeds(*owner, *target, group as int, i + 1);
                if bit(owner.corners@[group as int].mask, i as int) {
                    let particle = seed(*owner, *target, group as int, i as int);
                    assert(next == done.insert(particle));
                    assert(base.add(done).insert(particle) =~= base.add(next));
                } else {
                    assert(next == done);
                }
            }
            i = i + 1;
        }
        proof {
            assert(seeds(*owner, *target, group + 1) == seeds(*owner, *target, group as int).add(
                group_seeds(*owner, *target, group as int, 4),
            ));
        }
        group = group + 1;
        proof {
            assert(collision_points@.add(group_seeds(*owner, *target, group as int, 0))
                =~= collision_points@);
        }
    }
    Some(
        CollisionObject::new(
            target.location,
            target.angular_velocity,
            target.id,
            rotated_owner_pos,
            owner.angular_velocity,
            owner.id,
            rel_velocity,
            collision_points,
        ),
    )
}

/// Two bodies that move alike and turn alike are at rest to each other:
/// neither is swept against the other.
pub proof fn lemma_moving_alike_is_at_rest(owner: Entity, target: Entity)
    requires
        owner.velocity == target.velocity,
        owner.angular_velocity == target.angular_velocity,
    ensures
        at_rest(owner, target),
        spec_entity_to_collision_object(owner, target) is None,
        at_rest(target, owner),
        spec_entity_to_collision_object(target, owner) is None,
{
    let still = Vector { x: 0, y: 0 };
    assert(owner.velocity.spec_minus(target.velocity) == still);
    assert(target.velocity.spec_minus(owner.velocity) == still);
    crate::math::lemma_rotate_zero(target.forward.spec_reversed());
    crate::math::lemma_rotate_zero(owner.forward.spec_reversed());
}

/// The object for `owner` against `target`, if there is one, as a sequence.
pub open spec fn swept(owner: Entity, target: Entity) -> Seq<CollisionObjectView> {
    match spec_entity_to_collision_object(owner, target) {
        Some(object) => seq![object],
        None => Seq::empty(),
    }
}

/// The objects of entity `first` with each of the entities from `first + 1`
/// up to `upto`: for each pair, the earlier swept against the later, then the
/// later against the earlier.
pub open spec fn row_objects(entities: Seq<Entity>, first: int, upto: int) -> Seq<
    CollisionObjectView,
>
    decreases upto - first,
{
    if upto <= first + 1 {
        Seq::empty()
    } else {
        row_objects(entities, first, upto - 1) + swept(entities[first], entities[upto - 1]) + swept(
            entities[upto - 1],
            entities[first],
        )
    }
}

/// The objects of every pair of entities whose earlier member is among the
/// first `rows`.
pub open spec fn all_objects(entities: Seq<Entity>, rows: int) -> Seq<CollisionObjectView>
    decreases rows,
{
    if rows <= 0 {
        Seq::empty()
    } else {
        all_objects(entities, rows - 1) + row_objects(entities, rows - 1, entities.len() as int)
    }
}

/// The views of `objects`.
pub open spec fn views(objects: Seq<CollisionObject>) -> Seq<CollisionObjectView> {
    Seq::new(objects.len(), |k: int| objects[k]@)
}

fn push_swept(objects: &mut Vec<CollisionObject>, owner: &Entity, target: &Entity)
    requires
        owner.location.pointer.height <= MAX_DEPTH,
    ensures
        views(final(objects)@) == views(old(objects)@) + swept(*owner, *target),
{
    if let Some(obj) = entity_to_collision_object(owner, target) {
        objects.push(obj);
    }
    proof {
        assert(views(objects@) =~= views(old(objects)@) + swept(*owner, *target));
    }
}

/// The collision objects of every ordered pair of distinct entities that
/// move or turn as seen from each other.
pub fn collect_collision_objects(pool: &EntityPool) -> (r: Vec<CollisionObject>)
    requires
        forall|k: int|
            0 <= k < pool.entities@.len() ==> (#[trigger] pool.entities@[k]).location.pointer.height
                <= MAX_DEPTH,
    ensures
        views(r@) == all_objects(pool.entities@, pool.entities@.len() as int),
{
    let mut objects: Vec<CollisionObject> = Vec::new();
    let mut idx: usize = 0;
    proof {
        assert(views(objects@) =~= all_objects(pool.entities@, 0));
    }
    while idx < pool.entities.len()
        invariant
            idx <= pool.entities@.len(),
            forall|k: int|
                0 <= k < pool.entities@.len() ==> (#[trigger] pool.entities@[k]).location.pointer.height
                    <= MAX_DEPTH,
            views(objects@) == all_objects(pool.entities@, idx as int),
        decreases pool.entities@.len() - idx,
    {
        let owner = &pool.entities[idx];
        let mut other_idx: usize = idx + 1;
        proof {
            assert(views(objects@) =~= all_objects(pool.entities@, idx as int) + row_objects(
                pool.entities@,
                idx as int,
                other_idx as int,
            ));
        }
        while other_idx < pool.entities.len()
            invariant
                idx < other_idx,
                idx < pool.entities@.len(),
                other_idx <= pool.entities@.len(),
                *owner == pool.entities@[idx as int],
                forall|k: int|
                    0 <= k < pool.entities@.len() ==> (
                    #[trigger] pool.entities@[k]).location.pointer.height <= MAX_DEPTH,
                views(objects@) == all_objects(pool.entities@, idx as int) + row_objects(
                    pool.entities@,
                    idx as int,
                    other_idx as int,
                ),
            decreases pool.entities@.len() - other_idx,
        {
            let target = &pool.entities[other_idx];
            let ghost before = views(objects@);
            push_swept(&mut objects, owner, target);
            push_swept(&mut objects, target, owner);
            proof {
                let row = row_objects(pool.entities@, idx as int, other_idx as int);
                let forth = swept(*owner, *target);
                let back = swept(*target, *owner);
                assert(row_objects(pool.entities@, idx as int, other_idx + 1) == row + forth + back);
                assert(before + forth + back =~= all_objects(pool.entities@, idx as int) + (row
                    + forth + back));
            }
            other_idx = other_idx + 1;
        }
        proof {
            assert(all_objects(pool.entities@, idx + 1) == all_objects(pool.entities@, idx as int)
                + row_objects(pool.entities@, idx as int, pool.entities@.len() as int));
        }
        idx = idx + 1;
    }
    objects
}

} // verus!
