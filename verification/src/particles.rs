//! Tracked corners and the queue that hands them out, earliest first.

use vstd::prelude::*;
use vstd::multiset::Multiset;
use vstd::std_specs::cmp::{PartialEqSpecImpl, PartialOrdSpecImpl};
use std::cmp::Ordering;
use crate::corners::CornerType;
use crate::math::Vector;

verus! {

/// One tracked corner of a moving body.
///
/// `offset` leads from the center of the body to the corner, in the frame of
/// the body it is swept against. `ticks_into_projection` is how far into the
/// tick the corner has been followed.
///
/// Particles compare by `ticks_into_projection` alone: two particles at the
/// same time are equal, whatever else they hold.
#[derive(Clone, Copy, Debug)]
pub struct Particle {
    pub offset: Vector,
    pub corner_type: CornerType,
    pub ticks_into_projection: u64,
}

impl PartialEq for Particle {
    fn eq(&self, other: &Self) -> (r: bool) {
        self.ticks_into_projection == other.ticks_into_projection
    }
}

impl Eq for Particle {

}

impl PartialEqSpecImpl for Particle {
    open spec fn obeys_eq_spec() -> bool {
        true
    }

    open spec fn eq_spec(&self, other: &Self) -> bool {
        self.ticks_into_projection == other.ticks_into_projection
    }
}

impl PartialOrd for Particle {
    fn partial_cmp(&self, other: &Self) -> (r: Option<Ordering>) {
        if self.ticks_into_projection == other.ticks_into_projection {
            Some(Ordering::Equal)
        } else if self.ticks_into_projection < other.ticks_into_projection {
            Some(Ordering::Less)
        } else {
            Some(Ordering::Greater)
        }
    }
}

impl PartialOrdSpecImpl for Particle {
    open spec fn obeys_partial_cmp_spec() -> bool {
        true
    }

    open spec fn partial_cmp_spec(&self, other: &Self) -> Option<Ordering> {
        if self.ticks_into_projection == other.ticks_into_projection {
            Some(Ordering::Equal)
        } else if self.ticks_into_projection < other.ticks_into_projection {
            Some(Ordering::Less)
        } else {
            Some(Ordering::Greater)
        }
    }
}

impl Particle {
    /// A corner at the start of the tick.
    pub fn new(offset: Vector, corner_type: CornerType) -> (r: Self)
        ensures
            r == (Particle { offset, corner_type, ticks_into_projection: 0 }),
    {
        Self { offset, corner_type, ticks_into_projection: 0 }
    }
}

/// A priority queue of particles: `pop` hands out one that no other in the
/// queue precedes.
///
/// The particles are kept as a binary heap: each is no earlier than its
/// parent, so the first is the earliest.
pub struct ParticleHeap {
    items: Vec<Particle>,
}

impl View for ParticleHeap {
    type V = Multiset<Particle>;

    /// The particles in the queue.
    closed spec fn view(&self) -> Multiset<Particle> {
        self.items@.to_multiset()
    }
}

/// Whether every particle of `particles` is at `ticks` or later.
pub open spec fn none_before(particles: Multiset<Particle>, ticks: int) -> bool {
    forall|p: Particle| particles.count(p) > 0 ==> ticks <= (#[trigger] p.ticks_into_projection)
}

/// What leaves a queue later is no earlier: a particle still in the queue
/// once an earliest one has been taken out is no earlier than that one, and
/// the same holds of any particle put in that is no earlier than it.
pub proof fn lemma_taken_in_order(queue: Multiset<Particle>, first: Particle, added: Particle, second: Particle)
    requires
        queue.count(first) > 0,
        none_before(queue, first.ticks_into_projection as int),
        first.ticks_into_projection <= added.ticks_into_projection,
        queue.remove(first).insert(added).count(second) > 0,
    ensures
        first.ticks_into_projection <= second.ticks_into_projection,
        none_before(queue.remove(first).insert(added), first.ticks_into_projection as int),
{
    let rest = queue.remove(first).insert(added);
    assert forall|p: Particle| rest.count(p) > 0 implies first.ticks_into_projection
        <= #[trigger] p.ticks_into_projection by {
        if p != added {
            assert(queue.count(p) > 0);
        }
    }
}

/// The place of the parent of the particle at place `i`.
spec fn parent(i: int) -> int {
    (i - 1) / 2
}

/// Whether the particle at place `i` is no earlier than its parent.
spec fn follows_parent(s: Seq<Particle>, i: int) -> bool {
    s[parent(i)].ticks_into_projection <= s[i].ticks_into_projection
}

/// Whether the particle at place `i` is no earlier than its grandparent.
spec fn follows_grandparent(s: Seq<Particle>, i: int) -> bool {
    s[parent(parent(i))].ticks_into_projection <= s[i].ticks_into_projection
}

/// Whether every particle but the first is no earlier than its parent.
spec fn heaped(s: Seq<Particle>) -> bool {
    forall|i: int| 0 < i < s.len() ==> #[trigger] follows_parent(s, i)
}

/// Whether `s` is a heap but for the particle at `hole`, which may be earlier
/// than its parent.
spec fn heaped_but_above(s: Seq<Particle>, hole: int) -> bool {
    &&& forall|i: int| 0 < i < s.len() && i != hole ==> #[trigger] follows_parent(s, i)
    &&& forall|i: int|
        0 < i < s.len() && parent(i) == hole && hole > 0 ==> #[trigger] follows_grandparent(s, i)
}

/// Whether `s` is a heap but for the particle at `hole`, which may be later
/// than its children.
spec fn heaped_but_below(s: Seq<Particle>, hole: int) -> bool {
    &&& forall|i: int| 0 < i < s.len() && parent(i) != hole ==> #[trigger] follows_parent(s, i)
    &&& forall|i: int|
        0 < i < s.len() && parent(i) == hole && hole > 0 ==> #[trigger] follows_grandparent(s, i)
}

/// The first particle of a heap is the earliest.
proof fn lemma_first_is_earliest(s: Seq<Particle>, i: int)
    requires
        heaped(s),
        0 <= i < s.len(),
    ensures
        s[0].ticks_into_projection <= s[i].ticks_into_projection,
    decreases i,
{
    if i > 0 {
        assert(follows_parent(s, i));
        lemma_first_is_earliest(s, parent(i));
    }
}

/// Exchanging two particles changes their places, not what the queue holds.
proof fn lemma_exchange(s: Seq<Particle>, i: int, j: int)
    requires
        0 <= i < s.len(),
        0 <= j < s.len(),
    ensures
        s.update(i, s[j]).update(j, s[i]).to_multiset() == s.to_multiset(),
{
    let once = s.update(i, s[j]);
    vstd::seq_lib::to_multiset_update(s, i, s[j]);
    vstd::seq_lib::to_multiset_update(once, j, s[i]);
    s.to_multiset_ensures();
    assert(s.contains(s[i]));
    assert(s.contains(s[j]));
    assert(once.update(j, s[i]).to_multiset() =~= s.to_multiset());
}

fn exchange(items: &mut Vec<Particle>, i: usize, j: usize)
    requires
        i < old(items)@.len(),
        j < old(items)@.len(),
    ensures
        final(items)@ == old(items)@.update(i as int, old(items)@[j as int]).update(
            j as int,
            old(items)@[i as int],
        ),
        final(items)@.to_multiset() == old(items)@.to_multiset(),
{
    let first = items[i];
    let second = items[j];
    items[i] = second;
    items[j] = first;
    proof {
        lemma_exchange(old(items)@, i as int, j as int);
    }
}

/// Moves the particle at `from` up until it is no earlier than its parent.
fn sift_up(items: &mut Vec<Particle>, from: usize)
    requires
        from < old(items)@.len(),
        heaped_but_above(old(items)@, from as int),
    ensures
        heaped(final(items)@),
        final(items)@.to_multiset() == old(items)@.to_multiset(),
{
    let mut hole: usize = from;
    while hole > 0 && items[hole].ticks_into_projection < items[(hole - 1)
        / 2].ticks_into_projection
        invariant
            hole < items@.len(),
            heaped_but_above(items@, hole as int),
            items@.to_multiset() == old(items)@.to_multiset(),
        decreases hole,
    {
        let above: usize = (hole - 1) / 2;
        let ghost before = items@;
        exchange(items, hole, above);
        proof {
            let after = items@;
            assert forall|i: int| 0 < i < after.len() && i != above implies #[trigger] follows_parent(
                after,
                i,
            ) by {
                if i == hole {
                } else if parent(i) == hole {
                    assert(follows_grandparent(before, i));
                } else if parent(i) == above {
                    assert(follows_parent(before, i));
                } else {
                    assert(follows_parent(before, i));
                }
            }
            assert forall|i: int|
                0 < i < after.len() && parent(i) == above && above > 0 implies #[trigger] follows_grandparent(
                after,
                i,
            ) by {
                assert(follows_parent(before, above as int));
                if i != hole {
                    assert(follows_parent(before, i));
                }
            }
        }
        hole = above;
    }
    proof {
        assert forall|i: int| 0 < i < items@.len() implies #[trigger] follows_parent(items@, i) by {
            if i != hole {
            }
        }
    }
}

/// Moves the particle at `from` down until it is no later than its children.
fn sift_down(items: &mut Vec<Particle>, from: usize)
    requires
        from < old(items)@.len(),
        heaped_but_below(old(items)@, from as int),
    ensures
        heaped(final(items)@),
        final(items)@.to_multiset() == old(items)@.to_multiset(),
{
    let mut hole: usize = from;
    let len: usize = items.len();
    loop
        invariant
            hole < len,
            len == items@.len(),
            heaped_but_below(items@, hole as int),
            items@.to_multiset() == old(items)@.to_multiset(),
        ensures
            heaped(items@),
            items@.to_multiset() == old(items)@.to_multiset(),
        decreases len - hole,
    {
        if hole >= len / 2 {
            proof {
                assert forall|i: int| 0 < i < items@.len() implies #[trigger] follows_parent(
                    items@,
                    i,
                ) by {
                    assert(parent(i) != hole);
                }
            }
            break ;
        }
        let left: usize = 2 * hole + 1;
        let right: usize = left + 1;
        let least: usize = if right < len && items[right].ticks_into_projection
            < items[left].ticks_into_projection {
            right
        } else {
            left
        };
        if items[hole].ticks_into_projection <= items[least].ticks_into_projection {
            proof {
                assert forall|i: int| 0 < i < items@.len() implies #[trigger] follows_parent(
                    items@,
                    i,
                ) by {
                    if parent(i) == hole {
                        assert(i == left || i == right);
                    }
                }
            }
            break ;
        }
        let ghost before = items@;
        exchange(items, hole, least);
        proof {
            let after = items@;
            assert forall|i: int|
                0 < i < after.len() && parent(i) != least implies #[trigger] follows_parent(
                after,
                i,
            ) by {
                if i == least {
                } else if parent(i) == hole {
                    assert(i == left || i == right);
                } else if i == hole {
                    assert(follows_grandparent(before, least as int));
                } else {
                    assert(follows_parent(before, i));
                }
            }
            assert forall|i: int|
                0 < i < after.len() && parent(i) == least && least > 0 implies #[trigger] follows_grandparent(
                after,
                i,
            ) by {
                assert(follows_parent(before, i));
            }
        }
        hole = least;
    }
}

impl ParticleHeap {
    #[verifier::type_invariant]
    spec fn is_heap(self) -> bool {
        heaped(self.items@)
    }

    /// The empty queue.
    pub fn new() -> (r: Self)
        ensures
            r@ == Multiset::<Particle>::empty(),
    {
        let r = Self { items: Vec::new() };
        proof {
            r.items@.to_multiset_ensures();
            assert(r@.len() == 0);
            assert(r@ =~= Multiset::<Particle>::empty());
        }
        r
    }

    /// The number of particles in the queue.
    pub fn len(&self) -> (r: usize)
        ensures
            r == self@.len(),
    {
        proof {
            self.items@.to_multiset_ensures();
        }
        self.items.len()
    }

    pub fn is_empty(&self) -> (r: bool)
        ensures
            r == (self@.len() == 0),
    {
        proof {
            self.items@.to_multiset_ensures();
        }
        self.items.len() == 0
    }

    /// Adds `particle` to the queue.
    pub fn push(&mut self, particle: Particle)
        ensures
            final(self)@ == old(self)@.insert(particle),
    {
        proof {
            use_type_invariant(&*self);
        }
        let mut items: Vec<Particle> = Vec::new();
        core::mem::swap(&mut items, &mut self.items);
        proof {
            items@.to_multiset_ensures();
        }
        items.push(particle);
        proof {
            let s = items@;
            let last = s.len() - 1;
            assert forall|i: int| 0 < i < s.len() && i != last implies #[trigger] follows_parent(
                s,
                i,
            ) by {
                assert(follows_parent(old(self).items@, i));
            }
            assert forall|i: int|
                0 < i < s.len() && parent(i) == last && last > 0 implies #[trigger] follows_grandparent(
                s,
                i,
            ) by {}
        }
        let last: usize = items.len() - 1;
        sift_up(&mut items, last);
        self.items = items;
    }

    /// Takes out a particle that none in the queue precedes, or returns
    /// `None` where the queue is empty.
    pub fn pop(&mut self) -> (r: Option<Particle>)
        ensures
            r is None <==> old(self)@.len() == 0,
            r is None ==> final(self)@ == old(self)@,
            r matches Some(particle) ==> {
                &&& old(self)@.count(particle) > 0
                &&& final(self)@ == old(self)@.remove(particle)
                &&& none_before(old(self)@, particle.ticks_into_projection as int)
            },
    {
        proof {
            use_type_invariant(&*self);
            self.items@.to_multiset_ensures();
        }
        if self.items.len() == 0 {
            return None;
        }
        let ghost before = self.items@;
        let mut items: Vec<Particle> = Vec::new();
        core::mem::swap(&mut items, &mut self.items);
        let last: usize = items.len() - 1;
        let first = items[0];
        let moved = items[last];
        items[0] = moved;
        let ghost replaced = items@;
        items.pop();
        proof {
            let rest = items@;
            vstd::seq_lib::to_multiset_update(before, 0, moved);
            assert(rest =~= replaced.remove(last as int));
            vstd::seq_lib::to_multiset_remove(replaced, last as int);
            assert(before.contains(first));
            assert(before.contains(moved));
            assert(rest.to_multiset() =~= before.to_multiset().remove(first));
            assert forall|p: Particle| before.to_multiset().count(p) > 0 implies first.ticks_into_projection
                <= (#[trigger] p.ticks_into_projection) by {
                assert(before.contains(p));
                let j = choose|j: int| 0 <= j < before.len() && before[j] == p;
                lemma_first_is_earliest(before, j);
            }
            assert forall|i: int| 0 < i < rest.len() && parent(i) != 0 implies #[trigger] follows_parent(
                rest,
                i,
            ) by {
                assert(follows_parent(before, i));
            }
        }
        if items.len() > 0 {
            sift_down(&mut items, 0);
        }
        self.items = items;
        Some(first)
    }
}

} // verus!
