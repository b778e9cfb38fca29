//! The bodies of the world.

use vstd::prelude::*;
use crate::corners::Corners;
use crate::math::{Heading, Vector};
use crate::partition::Location;

verus! {

/// The name of an entity.
#[derive(Clone, Copy, Debug, PartialEq, Eq, Structural)]
pub struct ID(pub u32);

/// A rigid body: a quadtree placed in the world, moving and turning.
///
/// `velocity` is in world units per tick and `angular_velocity` in angle units
/// per tick. `forward` is the heading of `rotation`; whoever sets one sets the
/// other. `corners` holds the corners of the leaves of the body's tree.
#[derive(Clone, Debug)]
pub struct Entity {
    pub id: ID,
    pub location: Location,
    pub velocity: Vector,
    pub angular_velocity: i64,
    pub rotation: u32,
    pub forward: Heading,
    pub corners: Vec<Corners>,
}

/// All the bodies of the world.
pub struct EntityPool {
    pub entities: Vec<Entity>,
}

/// The position in `entities` of the first entity named `id`, taken from the
/// first `upto` of them.
pub open spec fn position_of(entities: Seq<Entity>, id: ID, upto: int) -> Option<int>
    decreases upto,
{
    if upto <= 0 {
        None
    } else {
        match position_of(entities, id, upto - 1) {
            Some(k) => Some(k),
            None => if entities[upto - 1].id == id {
                Some(upto - 1)
            } else {
                None
            },
        }
    }
}

/// The position of the first entity named `id` is the position of an entity
/// named `id`, and no entity before it has that name.
pub proof fn lemma_position_of(entities: Seq<Entity>, id: ID, upto: int)
    requires
        0 <= upto <= entities.len(),
    ensures
        position_of(entities, id, upto) matches Some(k) ==> 0 <= k < upto && entities[k].id == id
            && forall|j: int| 0 <= j < k ==> (#[trigger] entities[j]).id != id,
        position_of(entities, id, upto) is None ==> forall|j: int|
            0 <= j < upto ==> (#[trigger] entities[j]).id != id,
    decreases upto,
{
    if upto > 0 {
        lemma_position_of(entities, id, upto - 1);
    }
}

proof fn lemma_position_stays(entities: Seq<Entity>, id: ID, upto: int, more: int)
    requires
        upto <= more,
        position_of(entities, id, upto) is Some,
    ensures
        position_of(entities, id, more) == position_of(entities, id, upto),
    decreases more - upto,
{
    if upto < more {
        lemma_position_stays(entities, id, upto, more - 1);
    }
}

impl Entity {
    pub fn new(
        id: ID,
        location: Location,
        velocity: Vector,
        angular_velocity: i64,
        rotation: u32,
        forward: Heading,
        corners: Vec<Corners>,
    ) -> (r: Self)
        ensures
            r.id == id,
            r.location == location,
            r.velocity == velocity,
            r.angular_velocity == angular_velocity,
            r.rotation == rotation,
            r.forward == forward,
            r.corners == corners,
    {
        Self { id, location, velocity, angular_velocity, rotation, forward, corners }
    }
}

impl EntityPool {
    pub open spec fn spec_index_of(&self, id: ID) -> Option<int> {
        position_of(self.entities@, id, self.entities@.len() as int)
    }

    /// Whether an entity is named `id`.
    pub open spec fn has(&self, id: ID) -> bool {
        self.spec_index_of(id) is Some
    }

    /// The pool without entities.
    pub fn new() -> (r: Self)
        ensures
            r.entities@.len() == 0,
    {
        Self { entities: Vec::new() }
    }

    /// The position of the first entity named `id`.
    pub fn index_of(&self, id: ID) -> (r: Option<usize>)
        ensures
            r is Some <==> self.has(id),
            r matches Some(k) ==> self.spec_index_of(id) == Some(k as int) && k
                < self.entities@.len() && self.entities@[k as int].id == id,
    {
        let mut k: usize = 0;
        while k < self.entities.len()
            invariant
                k <= self.entities@.len(),
                position_of(self.entities@, id, k as int) is None,
            decreases self.entities@.len() - k,
        {
            if self.entities[k].id == id {
                proof {
                    assert(position_of(self.entities@, id, k + 1) == Some(k as int));
                    lemma_position_stays(self.entities@, id, k + 1, self.entities@.len() as int);
                }
                return Some(k);
            }
            k = k + 1;
        }
        None
    }

    /// The first entity named `id`.
    pub fn get_entity(&self, id: ID) -> (r: Option<&Entity>)
        ensures
            r is Some <==> self.has(id),
            r matches Some(entity) ==> *entity == self.entities@[self.spec_index_of(id)->0],
    {
        match self.index_of(id) {
            Some(k) => Some(&self.entities[k]),
            None => None,
        }
    }
}

} // verus!
