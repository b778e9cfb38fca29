use grid_ccd::blocks::BlockPalette;
use grid_ccd::collisions::{CollisionObject, Hit};
use grid_ccd::corners::CornerType;
use grid_ccd::entities::ID;
use grid_ccd::graph::{ExternalPointer, Index, NodePointer, SparseDirectedGraph};
use grid_ccd::math::{Axes, Vector, EIGHTH_TURN, TICK};
use grid_ccd::particles::{Particle, ParticleHeap};
use grid_ccd::partition::Location;
use grid_ccd::search::{Contact, Search};

fn particle(ticks: u64, x: i64) -> Particle {
    Particle { offset: Vector::new(x, 0), corner_type: CornerType::BottomRight, ticks_into_projection: ticks }
}

fn heap(particles: &[Particle]) -> ParticleHeap {
    let mut heap = ParticleHeap::new();
    for p in particles {
        heap.push(*p);
    }
    heap
}

/// A solid cell from (0, 0) to (100, 100).
fn target() -> Location {
    Location::new(Vector::new(50, 50), ExternalPointer::new(NodePointer::new(Index(1)), 0), Vector::splat(100))
}

fn object(owner: u32, owner_angular: i64, particles: &[Particle]) -> CollisionObject {
    CollisionObject::new(target(), 0, ID(9), Vector::new(-500, 50), owner_angular, ID(owner), Vector::new(100, 100), heap(particles))
}

/// The corner ends up in the open, far from the target.
fn miss(ticks_to_hit: u64) -> Option<Contact> {
    Some(Contact { ticks_to_hit, offset: Vector::new(1, 2), point: Vector::new(-500, -500), velocity: Vector::new(100, 100) })
}

/// The corner ends up at the top left corner of the target.
fn strike(ticks_to_hit: u64) -> Option<Contact> {
    Some(Contact { ticks_to_hit, offset: Vector::new(1, 2), point: Vector::new(0, 0), velocity: Vector::new(100, 100) })
}

#[test]
fn particles_compare_by_time_alone() {
    let early = Particle::new(Vector::new(1, 2), CornerType::TopLeft);
    assert_eq!(early.ticks_into_projection, 0);
    assert!(early == particle(0, 77));
    assert!(early != particle(1, 77));
    assert!(early < particle(1, 0));
    assert!(particle(2, 0) > particle(1, 0));
    assert!(particle(2, 0) >= particle(2, 5));
    assert_eq!(particle(3, 0).partial_cmp(&particle(3, 9)), Some(std::cmp::Ordering::Equal));
}

#[test]
fn the_queue_hands_out_the_earliest_first() {
    let mut queue = heap(&[particle(30, 0), particle(10, 1), particle(20, 2), particle(10, 3), particle(0, 4)]);
    assert_eq!(queue.len(), 5);
    assert!(!queue.is_empty());
    let mut times = Vec::new();
    let mut offsets = Vec::new();
    while let Some(p) = queue.pop() {
        times.push(p.ticks_into_projection);
        offsets.push(p.offset.x);
    }
    assert_eq!(times, vec![0, 10, 10, 20, 30]);
    offsets.sort();
    assert_eq!(offsets, vec![0, 1, 2, 3, 4]);
    assert!(queue.is_empty());
    assert_eq!(queue.pop().map(|p| p.ticks_into_projection), None);
}

#[test]
fn a_new_search_has_no_action() {
    let graph = SparseDirectedGraph::new(5);
    let blocks = BlockPalette::new();
    let mut search = Search::new(&graph, &blocks, Vec::new(), TICK);
    assert_eq!(search.ticks_to_action(), TICK);
    assert_eq!(search.action(), None);
    assert_eq!(search.budget(), None);
    assert_eq!(search.object_count(), 0);
    assert!(search.next_corner().is_none());
    assert_eq!(search.action(), None);
}

#[test]
fn corners_come_out_in_order_of_time() {
    let graph = SparseDirectedGraph::new(5);
    let blocks = BlockPalette::new();
    let objects = vec![
        object(1, 0, &[particle(50, 0), particle(10, 1), particle(30, 2)]),
        object(2, 0, &[particle(5, 3), particle(40, 4)]),
    ];
    let mut search = Search::new(&graph, &blocks, objects, 1000);
    let mut seen: Vec<(usize, u64)> = Vec::new();
    let mut advance = [25, 0, 0, 100, 7, 0, 0, 3, 0].into_iter();
    while let Some(candidate) = search.next_corner() {
        seen.push((candidate.object, candidate.particle.ticks_into_projection));
        match advance.next() {
            Some(0) | None => search.settle(None),
            Some(ticks) => search.settle(miss(ticks)),
        }
    }
    assert_eq!(seen, vec![(0, 10), (0, 30), (0, 35), (0, 50), (0, 150), (0, 157), (1, 5), (1, 40), (1, 43)]);
    for pair in seen.windows(2) {
        assert!(pair[0].0 != pair[1].0 || pair[0].1 <= pair[1].1);
    }
    assert_eq!(search.action(), None);
    let aside: Vec<(usize, u64)> =
        search.deferred().iter().map(|c| (c.object, c.particle.ticks_into_projection)).collect();
    assert_eq!(aside, vec![(0, 30), (0, 35), (0, 157), (1, 5), (1, 43)]);
}

#[test]
fn a_corner_not_reported_on_is_set_aside() {
    let graph = SparseDirectedGraph::new(5);
    let blocks = BlockPalette::new();
    let mut search = Search::new(&graph, &blocks, vec![object(1, 0, &[particle(10, 0), particle(20, 1)])], 1000);
    assert_eq!(search.next_corner().unwrap().particle.ticks_into_projection, 10);
    assert_eq!(search.next_corner().unwrap().particle.ticks_into_projection, 20);
    assert!(search.next_corner().is_none());
    assert_eq!(search.deferred().len(), 2);
    assert_eq!(search.deferred()[0].particle.offset, Vector::new(0, 0));
    assert_eq!(search.deferred()[1].particle.offset, Vector::new(1, 0));
}

#[test]
fn a_contact_bounds_the_rest_of_the_search() {
    let graph = SparseDirectedGraph::new(5);
    let blocks = BlockPalette::new();
    let objects = vec![
        object(1, 0, &[particle(10, 0), particle(20, 1), particle(300, 2)]),
        object(2, 0, &[particle(250, 3), particle(260, 4)]),
        object(3, 0, &[particle(100, 5), particle(249, 6)]),
    ];
    let mut search = Search::new(&graph, &blocks, objects, 1000);

    let first = search.next_corner().unwrap();
    assert_eq!((first.object, first.particle.ticks_into_projection), (0, 10));
    assert_eq!(search.budget(), Some(990));
    search.settle(strike(240));
    let hit = Hit { owner: ID(1), target: ID(9), walls: Axes::both(), ticks: 250 };
    assert_eq!(search.action(), Some(hit));
    assert_eq!(search.ticks_to_action(), 250);
    assert_eq!(search.budget(), None);

    let second = search.next_corner().unwrap();
    assert_eq!((second.object, second.particle.ticks_into_projection), (0, 20));
    assert_eq!(search.budget(), Some(230));
    // Beyond the earliest contact so far: set aside.
    search.settle(strike(231));
    assert_eq!(search.action(), Some(hit));

    // The third corner of the first object and all of the second are too late.
    let third = search.next_corner().unwrap();
    assert_eq!((third.object, third.particle.ticks_into_projection), (2, 100));
    search.settle(strike(0));
    let earlier = Hit { owner: ID(3), target: ID(9), walls: Axes::both(), ticks: 100 };
    assert_eq!(search.action(), Some(earlier));
    assert!(search.next_corner().is_none());
    assert_eq!(search.action(), Some(earlier));
    // What was passed over is left in place; what was too late is set aside.
    assert_eq!(search.object(0).particles.len(), 1);
    assert_eq!(search.object(1).particles.len(), 2);
    assert_eq!(search.object(2).particles.len(), 1);
    let aside: Vec<(usize, u64)> =
        search.deferred().iter().map(|c| (c.object, c.particle.ticks_into_projection)).collect();
    assert_eq!(aside, vec![(0, 20)]);
}

#[test]
fn a_corner_that_meets_no_wall_goes_back() {
    let graph = SparseDirectedGraph::new(5);
    let blocks = BlockPalette::new();
    let mut search = Search::new(&graph, &blocks, vec![object(1, 0, &[particle(10, 0)])], 1000);
    let candidate = search.next_corner().unwrap();
    assert_eq!(search.object(candidate.object).particles.len(), 0);
    search.settle(miss(15));
    assert_eq!(search.object(0).particles.len(), 1);
    assert_eq!(search.action(), None);
    let again = search.next_corner().unwrap().particle;
    assert_eq!(again.ticks_into_projection, 25);
    assert_eq!(again.offset, Vector::new(1, 2));
    assert_eq!(again.corner_type, CornerType::BottomRight);
    // Reaching the budget is allowed; then nothing earlier is left.
    search.settle(miss(975));
    assert_eq!(search.object(0).particles.len(), 1);
    assert!(search.next_corner().is_none());
}

#[test]
fn a_corner_turns_with_its_body() {
    let graph = SparseDirectedGraph::new(5);
    let blocks = BlockPalette::new();
    let quarter = 2 * EIGHTH_TURN as i64;
    let mut search = Search::new(&graph, &blocks, vec![object(1, quarter, &[particle(0, 0)])], TICK);
    search.next_corner().unwrap();
    search.settle(miss(TICK / 2));
    let turned = search.next_corner().unwrap().particle;
    assert_eq!(turned.corner_type, CornerType::Bottom(2 * EIGHTH_TURN));
    search.settle(miss(TICK / 2));
    let mut rest = Search::new(&graph, &blocks, vec![object(1, quarter, &[particle(0, 0)])], 2 * TICK);
    rest.next_corner().unwrap();
    rest.settle(miss(TICK));
    assert_eq!(rest.next_corner().unwrap().particle.corner_type, CornerType::BottomLeft);
}

#[test]
fn settling_without_a_corner_changes_nothing() {
    let graph = SparseDirectedGraph::new(5);
    let blocks = BlockPalette::new();
    let mut search = Search::new(&graph, &blocks, vec![object(1, 0, &[particle(10, 0)])], 1000);
    search.settle(strike(0));
    assert_eq!(search.action(), None);
    assert_eq!(search.object(0).particles.len(), 1);
    assert_eq!(search.next_corner().unwrap().particle.ticks_into_projection, 10);
}

#[test]
fn a_corner_facing_away_is_no_contact() {
    let graph = SparseDirectedGraph::new(5);
    let blocks = BlockPalette::new();
    let facing_away = Particle { corner_type: CornerType::TopLeft, ..particle(0, 0) };
    let mut search = Search::new(&graph, &blocks, vec![object(1, 0, &[facing_away])], 1000);
    search.next_corner().unwrap();
    search.settle(strike(5));
    assert_eq!(search.action(), None);
    assert_eq!(search.object(0).particles.len(), 1);
}
