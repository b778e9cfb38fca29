//! The search for the earliest contact of a tick.
//!
//! The objects are searched one after another. Of each, the earliest corner is
//! taken out and handed to the caller, who follows its motion to the next cell
//! boundary and reports where it ends up. A corner that meets a wall there
//! becomes the action to beat; one that does not goes back into its queue, at
//! its new time; one with nothing ahead of it in the time left is set aside
//! as it is. An object whose earliest corner is no earlier than the action to
//! beat is passed over, its corners left in place.

use vstd::prelude::*;
use crate::blocks::BlockPalette;
use crate::collisions::{CollisionObject, CollisionObjectView, Hit};
use crate::graph::SparseDirectedGraph;
use crate::intersection::{hitting_wall, lemma_wall_is_in_the_tree, spec_hitting_wall, surroundings};
use crate::math::{angle_swept, clamp, difference, swept_angle, Vector};
use crate::particles::{none_before, Particle};
use crate::partition::{Bounds, Gate};

verus! {

/// A corner handed out for the caller to follow, and the number of the
/// object it belongs to.
#[derive(Clone, Copy, Debug)]
pub struct Candidate {
    pub object: usize,
    pub particle: Particle,
}

/// Where a corner ends up: after `ticks_to_hit` more quanta it is at `point`,
/// a place of the target's frame, `offset` from the center of its body, and
/// moves at `velocity`.
#[derive(Clone, Copy, Debug, PartialEq, Eq, Structural)]
pub struct Contact {
    pub ticks_to_hit: u64,
    pub offset: Vector,
    pub point: Vector,
    pub velocity: Vector,
}

/// What becomes of a corner once the caller has reported on it.
pub enum Outcome {
    /// The corner is set aside for the rest of the search, as it was handed
    /// out; where no corner was pending, nothing happens.
    Deferred,
    /// The corner met a wall and is the earliest contact so far.
    Struck(Hit),
    /// The corner met no wall and waits in its queue, as given.
    Requeued(Particle),
}

pub struct Search<'a> {
    graph: &'a SparseDirectedGraph,
    blocks: &'a BlockPalette,
    objects: Vec<CollisionObject>,
    current: usize,
    pending: Option<Particle>,
    deferred: Vec<Candidate>,
    ticks_to_action: u64,
    action: Option<Hit>,
    tick_max: u64,
    popped: Ghost<Seq<u64>>,
}

/// Whether every object of `objects` is swept against a tree of `graph`.
pub open spec fn searchable(graph: &SparseDirectedGraph, objects: Seq<CollisionObject>) -> bool {
    forall|k: int|
        0 <= k < objects.len() ==> (#[trigger] objects[k]).target_location.wf() && graph.contains(
            objects[k].target_location.pointer.pointer.index,
        )
}

/// The corner `particle` of an object with view `object`, followed to `contact`.
pub open spec fn advanced(particle: Particle, object: CollisionObjectView, contact: Contact) -> Particle {
    Particle {
        offset: contact.offset,
        corner_type: particle.corner_type.spec_rotate(
            swept_angle(
                clamp(object.owner_angular - object.target_angular),
                contact.ticks_to_hit as int,
            ),
        ),
        ticks_into_projection: (particle.ticks_into_projection + contact.ticks_to_hit) as u64,
    }
}

impl<'a> Search<'a> {
    /// The graph that holds the trees of the targets.
    pub closed spec fn graph(&self) -> &SparseDirectedGraph {
        self.graph
    }

    /// The materials of the leaves.
    pub closed spec fn blocks(&self) -> &BlockPalette {
        self.blocks
    }

    /// The number of objects, searched or not.
    pub closed spec fn count(&self) -> nat {
        self.objects@.len()
    }

    /// What object `k` holds now.
    pub closed spec fn object_view(&self, k: int) -> CollisionObjectView {
        self.objects@[k]@
    }

    /// The number of the object being searched; `count()` once all are done.
    pub closed spec fn current(&self) -> nat {
        self.current as nat
    }

    /// The corner handed out and not yet reported on.
    pub closed spec fn pending(&self) -> Option<Particle> {
        self.pending
    }

    /// The corners set aside so far, each as it was handed out.
    pub closed spec fn set_aside(&self) -> Seq<Candidate> {
        self.deferred@
    }

    /// The corners set aside once the pending one, if there is one, has
    /// joined them.
    pub open spec fn with_pending_set_aside(&self) -> Seq<Candidate> {
        match self.pending() {
            Some(particle) => self.set_aside().push(
                Candidate { object: self.current() as usize, particle },
            ),
            None => self.set_aside(),
        }
    }

    /// The time of the earliest contact so far; the budget of the search
    /// while there is none.
    pub closed spec fn spec_ticks_to_action(&self) -> u64 {
        self.ticks_to_action
    }

    /// The earliest contact so far.
    pub closed spec fn spec_action(&self) -> Option<Hit> {
        self.action
    }

    /// The budget the search began with.
    pub closed spec fn tick_max(&self) -> u64 {
        self.tick_max
    }

    /// The times of the corners taken out of the current object so far, in
    /// the order they were taken.
    pub closed spec fn popped(&self) -> Seq<u64> {
        self.popped@
    }

    /// Whether the objects passed over hold no corner earlier than the
    /// earliest contact so far.
    pub open spec fn bounded(&self) -> bool {
        forall|k: int|
            0 <= k < self.current() ==> none_before(
                #[trigger] self.object_view(k).particles,
                self.spec_ticks_to_action() as int,
            )
    }

    pub closed spec fn wf(&self) -> bool {
        &&& forall|k: int|
            0 <= k < self.current ==> none_before(
                (#[trigger] self.objects@[k]).particles@,
                self.ticks_to_action as int,
            )
        &&& self.graph.wf()
        &&& searchable(self.graph, self.objects@)
        &&& self.current <= self.objects@.len()
        &&& self.ticks_to_action <= self.tick_max
        &&& match self.action {
            Some(hit) => hit.ticks == self.ticks_to_action,
            None => self.ticks_to_action == self.tick_max,
        }
        &&& match self.pending {
            Some(particle) => {
                &&& self.current < self.objects@.len()
                &&& particle.ticks_into_projection < self.ticks_to_action
                &&& self.popped@.len() > 0
                &&& self.popped@.last() == particle.ticks_into_projection
            },
            None => true,
        }
        &&& forall|i: int, j: int|
            0 <= i <= j < self.popped@.len() ==> self.popped@[i] <= self.popped@[j]
        &&& self.current < self.objects@.len() ==> forall|j: int|
            0 <= j < self.popped@.len() ==> none_before(
                self.objects@[self.current as int].particles@,
                #[trigger] self.popped@[j] as int,
            )
    }

    /// A search in good order has passed over nothing that could be earlier
    /// than the earliest contact so far.
    pub proof fn lemma_bounded(&self)
        requires
            self.wf(),
        ensures
            self.bounded(),
    {
        assert forall|k: int| 0 <= k < self.current() implies none_before(
            #[trigger] self.object_view(k).particles,
            self.spec_ticks_to_action() as int,
        ) by {
            assert(none_before(self.objects@[k].particles@, self.ticks_to_action as int));
        }
    }

    /// A corner never goes back in time, nor past the earliest contact so
    /// far: reported on, it is set aside or stands between where it stood
    /// and that contact.
    pub proof fn lemma_time_runs_forward(&self, contact: Option<Contact>)
        requires
            self.wf(),
        ensures
            match self.outcome(contact) {
                Outcome::Deferred => true,
                Outcome::Struck(hit) => self.pending() matches Some(particle)
                    && particle.ticks_into_projection <= hit.ticks <= self.spec_ticks_to_action(),
                Outcome::Requeued(corner) => self.pending() matches Some(particle)
                    && particle.ticks_into_projection <= corner.ticks_into_projection
                    <= self.spec_ticks_to_action(),
            },
    {
    }

    /// A corner that ends up away from the tree it is swept against, by more
    /// than a unit on some axis, is no contact: two bodies that keep apart
    /// give the search nothing to find.
    pub proof fn lemma_far_corner_is_no_contact(&self, contact: Contact)
        requires
            self.wf(),
            self.pending() is Some,
            ({
                let location = self.object_view(self.current() as int).target_location;
                let whole = Bounds::spec_cell_length(
                    location.pointer.height,
                    location.min_cell_length,
                );
                let x = Gate::from_edge(contact.point.x, location.position.x, whole.x);
                let y = Gate::from_edge(contact.point.y, location.position.y, whole.y);
                x < -1 || x > whole.x || y < -1 || y > whole.y
            }),
        ensures
            !(self.outcome(Some(contact)) is Struck),
    {
        let object = self.object_view(self.current() as int);
        let particle = self.pending()->0;
        let corner = advanced(particle, object, contact);
        lemma_wall_is_in_the_tree(
            self.graph(),
            self.blocks(),
            object.target_location,
            contact.point,
            contact.velocity,
            corner.corner_type,
        );
    }

    /// What reporting `contact` on the pending corner comes to.
    pub open spec fn outcome(&self, contact: Option<Contact>) -> Outcome {
        match (self.pending(), contact) {
            (Some(particle), Some(contact)) => {
                let object = self.object_view(self.current() as int);
                let corner = advanced(particle, object, contact);
                if contact.ticks_to_hit > self.spec_ticks_to_action()
                    - particle.ticks_into_projection {
                    Outcome::Deferred
                } else {
                    match spec_hitting_wall(
                        self.blocks(),
                        surroundings(self.graph(), object.target_location, contact.point),
                        contact.velocity,
                        corner.corner_type,
                    ) {
                        Some(walls) => Outcome::Struck(
                            Hit {
                                owner: object.owner,
                                target: object.target,
                                walls,
                                ticks: corner.ticks_into_projection,
                            },
                        ),
                        None => Outcome::Requeued(corner),
                    }
                }
            },
            _ => Outcome::Deferred,
        }
    }

    /// A search of `objects` for the earliest contact before `tick_max`.
    pub fn new(
        graph: &'a SparseDirectedGraph,
        blocks: &'a BlockPalette,
        objects: Vec<CollisionObject>,
        tick_max: u64,
    ) -> (r: Self)
        requires
            graph.wf(),
            searchable(graph, objects@),
        ensures
            r.wf(),
            r.bounded(),
            r.graph() == graph,
            r.blocks() == blocks,
            r.count() == objects@.len(),
            forall|k: int| 0 <= k < objects@.len() ==> r.object_view(k) == (#[trigger] objects@[k])@,
            r.current() == 0,
            r.pending() is None,
            r.set_aside() == Seq::<Candidate>::empty(),
            r.spec_ticks_to_action() == tick_max,
            r.spec_action() is None,
            r.tick_max() == tick_max,
            r.popped() == Seq::<u64>::empty(),
    {
        let search = Search {
            graph,
            blocks,
            objects,
            current: 0,
            pending: None,
            deferred: Vec::new(),
            ticks_to_action: tick_max,
            action: None,
            tick_max,
            popped: Ghost(Seq::empty()),
        };
        proof {
            search.lemma_bounded();
        }
        search
    }

    /// The time of the earliest contact so far; the budget of the search
    /// while there is none.
    pub fn ticks_to_action(&self) -> (r: u64)
        ensures
            r == self.spec_ticks_to_action(),
    {
        self.ticks_to_action
    }

    /// The earliest contact so far. Once [`Search::next_corner`] has returned
    /// `None`, it is the earliest contact of all.
    pub fn action(&self) -> (r: Option<Hit>)
        requires
            self.wf(),
        ensures
            r == self.spec_action(),
            r matches Some(hit) ==> hit.ticks == self.spec_ticks_to_action() && hit.ticks
                <= self.tick_max(),
    {
        self.action
    }

    /// The corners set aside so far, each as it was handed out.
    pub fn deferred(&self) -> (r: &Vec<Candidate>)
        ensures
            r@ == self.set_aside(),
    {
        &self.deferred
    }

    /// The number of objects.
    pub fn object_count(&self) -> (r: usize)
        ensures
            r == self.count(),
    {
        self.objects.len()
    }

    /// Object `k`.
    pub fn object(&self, k: usize) -> (r: &CollisionObject)
        requires
            k < self.count(),
        ensures
            r@ == self.object_view(k as int),
    {
        &self.objects[k]
    }

    /// The time left for the pending corner: from where it stands to the
    /// earliest contact so far.
    pub fn budget(&self) -> (r: Option<u64>)
        requires
            self.wf(),
        ensures
            match self.pending() {
                Some(particle) => r == Some(
                    (self.spec_ticks_to_action() - particle.ticks_into_projection) as u64,
                ) && particle.ticks_into_projection < self.spec_ticks_to_action(),
                None => r is None,
            },
    {
        match self.pending {
            Some(particle) => Some(self.ticks_to_action - particle.ticks_into_projection),
            None => None,
        }
    }

    /// Hands out the next corner to follow, or `None` once the search is over.
    ///
    /// A corner handed out before and not reported on is set aside. The corner
    /// is the earliest of the first object, from the current one on, that
    /// holds a corner earlier than the earliest contact so far; the objects
    /// passed over hold none, and stay as they are. Within one object, no
    /// corner is earlier than one handed out before it.
    pub fn next_corner(&mut self) -> (r: Option<Candidate>)
        requires
            old(self).wf(),
        ensures
            final(self).wf(),
            final(self).bounded(),
            final(self).graph() == old(self).graph(),
            final(self).blocks() == old(self).blocks(),
            final(self).count() == old(self).count(),
            final(self).spec_ticks_to_action() == old(self).spec_ticks_to_action(),
            final(self).spec_action() == old(self).spec_action(),
            final(self).tick_max() == old(self).tick_max(),
            final(self).set_aside() == old(self).with_pending_set_aside(),
            forall|k: int|
                0 <= k < old(self).count() && k != final(self).current() ==> final(self).object_view(
                    k,
                ) == old(self).object_view(k),
            forall|k: int|
                old(self).current() <= k < final(self).current() ==> none_before(
                    #[trigger] old(self).object_view(k).particles,
                    old(self).spec_ticks_to_action() as int,
                ),
            match r {
                Some(candidate) => {
                    let before = old(self).object_view(candidate.object as int);
                    let after = final(self).object_view(candidate.object as int);
                    let ticks = candidate.particle.ticks_into_projection;
                    &&& old(self).current() <= candidate.object < old(self).count()
                    &&& final(self).current() == candidate.object
                    &&& final(self).pending() == Some(candidate.particle)
                    &&& ticks < old(self).spec_ticks_to_action()
                    &&& before.particles.count(candidate.particle) > 0
                    &&& none_before(before.particles, ticks as int)
                    &&& after == (CollisionObjectView {
                        particles: before.particles.remove(candidate.particle),
                        ..before
                    })
                    &&& final(self).popped() == if candidate.object == old(self).current() {
                        old(self).popped().push(ticks)
                    } else {
                        seq![ticks]
                    }
                    &&& forall|j: int|
                        0 <= j < final(self).popped().len() ==> final(self).popped()[j] <= ticks
                },
                None => {
                    &&& final(self).current() == old(self).count()
                    &&& final(self).pending() is None
                },
            },
    {
        match self.pending {
            Some(particle) => {
                self.deferred.push(Candidate { object: self.current, particle });
                self.pending = None;
            },
            None => {},
        }
        while self.current < self.objects.len()
            invariant
                self.wf(),
                self.pending is None,
                self.graph == old(self).graph,
                self.blocks == old(self).blocks,
                self.objects@.len() == old(self).objects@.len(),
                self.ticks_to_action == old(self).ticks_to_action,
                self.action == old(self).action,
                self.tick_max == old(self).tick_max,
                self.deferred@ == old(self).with_pending_set_aside(),
                old(self).current <= self.current,
                forall|k: int|
                    0 <= k < self.objects@.len() ==> (#[trigger] self.objects@[k])@ == old(
                        self,
                    ).objects@[k]@,
                forall|k: int|
                    old(self).current <= k < self.current ==> none_before(
                        #[trigger] old(self).object_view(k).particles,
                        old(self).ticks_to_action as int,
                    ),
                self.popped@ == if self.current == old(self).current {
                    old(self).popped@
                } else {
                    Seq::<u64>::empty()
                },
            decreases self.objects@.len() - self.current,
        {
            let ghost before = self.objects@[self.current as int]@;
            let ghost earlier = self.objects@;
            let found = self.objects[self.current].particles.pop();
            proof {
                assert forall|k: int| 0 <= k < self.objects@.len() && k != self.current implies (
                #[trigger] self.objects@[k]) == earlier[k] by {}
                assert(self.objects@[self.current as int].target_location
                    == earlier[self.current as int].target_location);
            }
            match found {
                Some(particle) => {
                    if particle.ticks_into_projection < self.ticks_to_action {
                        proof {
                            let ticks = particle.ticks_into_projection;
                            assert forall|j: int| 0 <= j < self.popped@.len() implies self.popped@[j]
                                <= ticks by {
                                assert(none_before(before.particles, self.popped@[j] as int));
                            }
                            assert forall|p: Particle|
                                before.particles.remove(particle).count(p) > 0 implies before.particles.count(
                            p) > 0 by {}
                        }
                        self.popped = Ghost(self.popped@.push(particle.ticks_into_projection));
                        self.pending = Some(particle);
                        proof {
                            self.lemma_bounded();
                        }
                        return Some(Candidate { object: self.current, particle });
                    }
                    let ghost popped_from = self.objects@;
                    self.objects[self.current].particles.push(particle);
                    proof {
                        assert(before.particles.remove(particle).insert(particle)
                            =~= before.particles);
                        assert forall|k: int|
                            0 <= k < self.objects@.len() && k != self.current implies (
                        #[trigger] self.objects@[k]) == popped_from[k] by {}
                        assert(self.objects@[self.current as int].target_location
                            == earlier[self.current as int].target_location);
                        assert(self.objects@[self.current as int]@ == before);
                        assert(none_before(before.particles, self.ticks_to_action as int));
                    }
                },
                None => {
                    proof {
                        assert(before.particles.len() == 0);
                        assert forall|p: Particle| before.particles.count(p) > 0 implies false by {
                            vstd::multiset::lemma_multiset_empty_len(before.particles);
                        }
                        assert(self.objects@[self.current as int]@ == before);
                    }
                },
            }
            self.current = self.current + 1;
            self.popped = Ghost(Seq::empty());
        }
        proof {
            self.lemma_bounded();
        }
        None
    }

    /// Reports what became of the pending corner: `None` where nothing lies
    /// ahead of it in time, else where it ends up. See [`Search::outcome`].
    ///
    /// A contact later than the earliest contact so far sets the corner aside.
    /// Else the corner moves on to the contact and turns with its body. Where
    /// it then meets a wall, it becomes the earliest contact so far; where it
    /// does not, it goes back into the queue of its object.
    pub fn settle(&mut self, contact: Option<Contact>)
        requires
            old(self).wf(),
            contact matches Some(c) ==> !c.velocity.spec_is_zero(),
        ensures
            final(self).wf(),
            final(self).bounded(),
            final(self).graph() == old(self).graph(),
            final(self).blocks() == old(self).blocks(),
            final(self).count() == old(self).count(),
            final(self).tick_max() == old(self).tick_max(),
            final(self).current() == old(self).current(),
            final(self).pending() is None,
            final(self).popped() == old(self).popped(),
            final(self).set_aside() == if old(self).outcome(contact) is Deferred {
                old(self).with_pending_set_aside()
            } else {
                old(self).set_aside()
            },
            forall|k: int|
                0 <= k < old(self).count() && k != old(self).current() ==> final(self).object_view(k)
                    == old(self).object_view(k),
            match old(self).outcome(contact) {
                Outcome::Deferred => {
                    &&& final(self).spec_action() == old(self).spec_action()
                    &&& final(self).spec_ticks_to_action() == old(self).spec_ticks_to_action()
                    &&& old(self).current() < old(self).count() ==> final(self).object_view(
                        old(self).current() as int,
                    ) == old(self).object_view(old(self).current() as int)
                },
                Outcome::Struck(hit) => {
                    &&& final(self).spec_action() == Some(hit)
                    &&& final(self).spec_ticks_to_action() == hit.ticks
                    &&& hit.ticks <= old(self).spec_ticks_to_action()
                    &&& final(self).object_view(old(self).current() as int) == old(self).object_view(
                        old(self).current() as int,
                    )
                },
                Outcome::Requeued(corner) => {
                    let before = old(self).object_view(old(self).current() as int);
                    &&& final(self).spec_action() == old(self).spec_action()
                    &&& final(self).spec_ticks_to_action() == old(self).spec_ticks_to_action()
                    &&& final(self).object_view(old(self).current() as int) == (CollisionObjectView {
                        particles: before.particles.insert(corner),
                        ..before
                    })
                },
            },
    {
        let pending = self.pending;
        self.pending = None;
        let mut corner = match pending {
            Some(particle) => particle,
            None => {
                proof {
                    self.lemma_bounded();
                }
                return ;
            },
        };
        let contact = match contact {
            Some(contact) if contact.ticks_to_hit <= self.ticks_to_action
                - corner.ticks_into_projection => contact,
            _ => {
                self.deferred.push(Candidate { object: self.current, particle: corner });
                proof {
                    self.lemma_bounded();
                }
                return ;
            },
        };
        let ghost started = corner;
        let target_location = self.objects[self.current].target_location;
        let owner = self.objects[self.current].owner;
        let target = self.objects[self.current].target;
        let spin: i64 = difference(
            self.objects[self.current].owner_angular,
            self.objects[self.current].target_angular,
        );
        corner.ticks_into_projection = corner.ticks_into_projection + contact.ticks_to_hit;
        corner.offset = contact.offset;
        corner.corner_type = corner.corner_type.rotate(angle_swept(spin, contact.ticks_to_hit));
        proof {
            assert(corner == advanced(
                started,
                old(self).object_view(old(self).current() as int),
                contact,
            ));
        }
        let position_data = Gate::point_to_real_cells(self.graph, target_location, contact.point);
        proof {
            assert(position_data =~= surroundings(self.graph, target_location, contact.point));
        }
        match hitting_wall(self.blocks, &position_data, contact.velocity, corner.corner_type) {
            Some(walls_hit) => {
                self.action =
                Some(Hit { owner, target, walls: walls_hit, ticks: corner.ticks_into_projection });
                self.ticks_to_action = corner.ticks_into_projection;
                proof {
                    assert forall|k: int| 0 <= k < self.current implies none_before(
                        (#[trigger] self.objects@[k]).particles@,
                        self.ticks_to_action as int,
                    ) by {
                        assert(none_before(
                            old(self).objects@[k].particles@,
                            old(self).ticks_to_action as int,
                        ));
                    }
                }
            },
            None => {
                let ghost earlier = self.objects@;
                self.objects[self.current].particles.push(corner);
                proof {
                    assert forall|k: int| 0 <= k < self.objects@.len() implies (
                    #[trigger] self.objects@[k]).target_location.wf() && self.graph.contains(
                        self.objects@[k].target_location.pointer.pointer.index,
                    ) by {
                        assert(earlier[k].target_location.wf());
                    }
                    assert forall|j: int| 0 <= j < self.popped@.len() implies none_before(
                        self.objects@[self.current as int].particles@,
                        #[trigger] self.popped@[j] as int,
                    ) by {
                        assert(none_before(
                            earlier[self.current as int].particles@,
                            self.popped@[j] as int,
                        ));
                        assert(self.popped@[j] <= self.popped@.last());
                    }
                    assert forall|k: int| 0 <= k < self.current implies none_before(
                        (#[trigger] self.objects@[k]).particles@,
                        self.ticks_to_action as int,
                    ) by {
                        assert(self.objects@[k] == earlier[k]);
                    }
                }
            },
        }
        proof {
            self.lemma_bounded();
        }
    }
}

} // verus!
