use grid_ccd::blocks::BlockPalette;
use grid_ccd::collisions::{collect_collision_objects, entity_to_collision_object, CollisionObject, Hit};
use grid_ccd::corners::tree_corners;
use grid_ccd::driver::{apply_drag, apply_normal_force, just_move, tick_entities, Step, Substeps};
use grid_ccd::entities::{Entity, EntityPool, ID};
use grid_ccd::graph::{ExternalPointer, Index, NodePointer, SparseDirectedGraph};
use grid_ccd::intersection::{next_intersection, second_budget, ticks_to_hit, ticks_to_line, Intersection};
use grid_ccd::math::{Axes, Heading, Vector, TICK};
use grid_ccd::partition::Location;
use grid_ccd::search::{Contact, Search};

const GRASS: usize = 1;

fn world() -> (SparseDirectedGraph, BlockPalette) {
    (SparseDirectedGraph::new(5), BlockPalette::new())
}

/// A body of one solid cell, `length` wide, centered at `position`.
fn block(
    graph: &SparseDirectedGraph,
    blocks: &BlockPalette,
    id: u32,
    position: Vector,
    length: i64,
    velocity: Vector,
) -> Entity {
    let root = ExternalPointer::new(NodePointer::new(Index(GRASS)), 0);
    let min_cell_length = Vector::splat(length);
    Entity::new(
        ID(id),
        Location::new(position, root, min_cell_length),
        velocity,
        0,
        0,
        Heading::east(),
        tree_corners(graph, blocks, root, min_cell_length),
    )
}

/// The search for bodies that do not turn: every corner moves in a straight line.
fn find_next_action(
    graph: &SparseDirectedGraph,
    blocks: &BlockPalette,
    objects: Vec<CollisionObject>,
    tick_max: u64,
) -> Option<Hit> {
    let mut search = Search::new(graph, blocks, objects, tick_max);
    let mut rounds = 0;
    while let Some(candidate) = search.next_corner() {
        rounds += 1;
        assert!(rounds < 1000);
        let (location, velocity, center) = {
            let object = search.object(candidate.object);
            (object.target_location, object.linear_velocity, object.owner_position)
        };
        let corner = candidate.particle;
        let budget = search.budget().unwrap();
        let at = |ticks: u64| center.plus(velocity.travelled(ticks)).plus(corner.offset);
        let point = at(corner.ticks_into_projection);
        let ticks = match next_intersection(graph, blocks, location, corner.corner_type, point, velocity) {
            Intersection::Touching => Some(0),
            Intersection::Clear => None,
            Intersection::Crossing { boundary_corner, within_bounds } => {
                let ticks_x = ticks_to_line(point.x, velocity.x, boundary_corner.x, budget);
                let ticks_y =
                    ticks_to_line(point.y, velocity.y, boundary_corner.y, second_budget(budget, ticks_x));
                ticks_to_hit(within_bounds, ticks_x, ticks_y, budget)
            }
        };
        search.settle(ticks.map(|ticks_to_hit| Contact {
            ticks_to_hit,
            offset: corner.offset,
            point: at(corner.ticks_into_projection + ticks_to_hit),
            velocity,
        }));
    }
    search.action()
}

fn headings(pool: &EntityPool) -> Vec<Heading> {
    pool.entities.iter().map(|_| Heading::east()).collect()
}

/// One whole tick; returns the steps taken.
fn n_body_collisions(
    graph: &SparseDirectedGraph,
    blocks: &BlockPalette,
    pool: &mut EntityPool,
    static_thing: ID,
) -> Vec<Step> {
    let mut substeps = Substeps::new();
    let mut steps = Vec::new();
    loop {
        assert!(steps.len() < 100);
        let objects = collect_collision_objects(pool);
        let found = find_next_action(graph, blocks, objects, substeps.remaining());
        let step = substeps.step(found);
        steps.push(step);
        match step {
            Step::Finish { ticks } => {
                let forward = headings(pool);
                tick_entities(pool, ticks, &forward);
                break;
            }
            Step::Resolve { ticks, hit } => {
                if ticks > 0 {
                    let forward = headings(pool);
                    tick_entities(pool, ticks, &forward);
                }
                apply_normal_force(pool, static_thing, hit);
            }
        }
    }
    apply_drag(pool);
    steps
}

#[test]
fn head_on_stop() {
    let (graph, blocks) = world();
    let a = block(&graph, &blocks, 1, Vector::new(0, 0), 200, Vector::new(1000, 0));
    let b = block(&graph, &blocks, 2, Vector::new(800, 0), 400, Vector::new(0, 0));
    let mut pool = EntityPool::new();
    pool.entities.push(a);
    pool.entities.push(b);

    let objects = collect_collision_objects(&pool);
    assert_eq!(objects.len(), 2);
    let hit = find_next_action(&graph, &blocks, objects, TICK).unwrap();
    assert_eq!(hit, Hit { owner: ID(1), target: ID(2), walls: Axes::new(true, false), ticks: TICK / 2 });

    let forward = headings(&pool);
    tick_entities(&mut pool, hit.ticks, &forward);
    assert_eq!(pool.entities[0].location.position, Vector::new(500, 0));
    apply_normal_force(&mut pool, ID(2), hit);
    assert_eq!(pool.entities[0].velocity, Vector::new(0, 0));
    assert_eq!(pool.entities[1].velocity, Vector::new(0, 0));
}

#[test]
fn head_on_stop_keeps_the_other_axis() {
    let (graph, blocks) = world();
    let a = block(&graph, &blocks, 1, Vector::new(0, 0), 200, Vector::new(1000, 100));
    let b = block(&graph, &blocks, 2, Vector::new(800, 0), 400, Vector::new(0, 0));
    let mut pool = EntityPool::new();
    pool.entities.push(a);
    pool.entities.push(b);
    let hit = find_next_action(&graph, &blocks, collect_collision_objects(&pool), TICK).unwrap();
    assert_eq!(hit.walls, Axes::new(true, false));
    assert_eq!(hit.ticks, TICK / 2);
    apply_normal_force(&mut pool, ID(2), hit);
    assert_eq!(pool.entities[0].velocity, Vector::new(0, 100));
}

#[test]
fn whole_tick_with_a_contact() {
    let (graph, blocks) = world();
    let mut pool = EntityPool::new();
    pool.entities.push(block(&graph, &blocks, 1, Vector::new(0, 0), 200, Vector::new(1000, 0)));
    pool.entities.push(block(&graph, &blocks, 2, Vector::new(800, 0), 400, Vector::new(0, 0)));
    let steps = n_body_collisions(&graph, &blocks, &mut pool, ID(2));
    assert_eq!(steps.len(), 2);
    assert!(matches!(steps[0], Step::Resolve { ticks, .. } if ticks == TICK / 2));
    assert_eq!(steps[1], Step::Finish { ticks: TICK / 2 });
    assert_eq!(pool.entities[0].location.position, Vector::new(500, 0));
    assert_eq!(pool.entities[0].velocity, Vector::new(0, 0));
    assert_eq!(pool.entities[1].location.position, Vector::new(800, 0));
}

#[test]
fn free_motion() {
    let (graph, blocks) = world();
    let mut pool = EntityPool::new();
    pool.entities.push(block(&graph, &blocks, 1, Vector::new(0, 0), 200, Vector::new(1000, 400)));
    pool.entities.push(block(&graph, &blocks, 2, Vector::new(0, 100_000), 200, Vector::new(-2000, 0)));
    let steps = n_body_collisions(&graph, &blocks, &mut pool, ID(0));
    assert_eq!(steps, vec![Step::Finish { ticks: TICK }]);
    assert_eq!(pool.entities[0].location.position, Vector::new(1000, 400));
    assert_eq!(pool.entities[1].location.position, Vector::new(-2000, 100_000));
    assert_eq!(pool.entities[0].velocity, Vector::new(950, 380));
    assert_eq!(pool.entities[1].velocity, Vector::new(-1900, 0));
}

#[test]
fn just_move_is_free_motion_and_drag() {
    let (graph, blocks) = world();
    let mut pool = EntityPool::new();
    pool.entities.push(block(&graph, &blocks, 1, Vector::new(10, 20), 200, Vector::new(100, -40)));
    let forward = headings(&pool);
    just_move(&mut pool, &forward);
    assert_eq!(pool.entities[0].location.position, Vector::new(110, -20));
    assert_eq!(pool.entities[0].velocity, Vector::new(95, -38));
}

#[test]
fn bodies_at_rest_to_each_other_make_no_object() {
    let (graph, blocks) = world();
    let a = block(&graph, &blocks, 1, Vector::new(0, 0), 200, Vector::new(70, -3));
    let b = block(&graph, &blocks, 2, Vector::new(800, 0), 400, Vector::new(70, -3));
    assert!(entity_to_collision_object(&a, &b).is_none());
    assert!(entity_to_collision_object(&b, &a).is_none());
    let mut pool = EntityPool::new();
    pool.entities.push(a);
    pool.entities.push(b);
    assert!(collect_collision_objects(&pool).is_empty());
}

#[test]
fn a_turning_body_makes_an_object() {
    let (graph, blocks) = world();
    let mut a = block(&graph, &blocks, 1, Vector::new(0, 0), 200, Vector::new(0, 0));
    let b = block(&graph, &blocks, 2, Vector::new(800, 0), 400, Vector::new(0, 0));
    a.angular_velocity = 5;
    let object = entity_to_collision_object(&a, &b).unwrap();
    assert_eq!(object.owner, ID(1));
    assert_eq!(object.target, ID(2));
    assert_eq!(object.linear_velocity, Vector::new(0, 0));
    assert_eq!(object.owner_angular, 5);
    assert_eq!(object.owner_position, Vector::new(0, 0));
    assert_eq!(object.particles.len(), 4);
}

#[test]
fn wedge_escape() {
    let mut substeps = Substeps::new();
    let slide = Hit { owner: ID(1), target: ID(2), walls: Axes::new(true, false), ticks: 0 };
    assert_eq!(substeps.step(Some(slide)), Step::Resolve { ticks: 0, hit: slide });
    assert_eq!(substeps.step(Some(slide)), Step::Resolve { ticks: 0, hit: slide });
    assert_eq!(
        substeps.step(Some(slide)),
        Step::Resolve { ticks: 0, hit: Hit { walls: Axes::both(), ..slide } }
    );
    assert_eq!(substeps.step(Some(slide)), Step::Resolve { ticks: 0, hit: slide });
    assert_eq!(substeps.remaining(), TICK);
}

#[test]
fn motion_resets_the_wedge_count() {
    let mut substeps = Substeps::new();
    let wedged = Hit { owner: ID(1), target: ID(2), walls: Axes::new(false, true), ticks: 0 };
    let later = Hit { ticks: 100, ..wedged };
    substeps.step(Some(wedged));
    substeps.step(Some(wedged));
    assert_eq!(substeps.step(Some(later)), Step::Resolve { ticks: 100, hit: later });
    assert_eq!(substeps.wedge_count, 0);
    assert_eq!(substeps.step(Some(wedged)), Step::Resolve { ticks: 0, hit: wedged });
    assert_eq!(substeps.remaining(), TICK - 100);
}

#[test]
fn substeps_add_up_to_a_tick() {
    let mut substeps = Substeps::new();
    let hit = |ticks: u64| Some(Hit { owner: ID(1), target: ID(2), walls: Axes::both(), ticks });
    let mut total = 0;
    for found in [hit(1000), hit(0), hit(30_000), hit(1), None] {
        total += match substeps.step(found) {
            Step::Finish { ticks } => ticks,
            Step::Resolve { ticks, .. } => ticks,
        };
    }
    assert_eq!(total, TICK);
    assert_eq!(substeps.remaining(), 0);
    assert_eq!(substeps.step(None), Step::Finish { ticks: 0 });
}

#[test]
fn a_contact_takes_no_more_time_than_is_left() {
    let mut substeps = Substeps::new();
    let late = Hit { owner: ID(1), target: ID(2), walls: Axes::both(), ticks: TICK + 5 };
    assert_eq!(substeps.step(Some(late)), Step::Resolve { ticks: TICK, hit: late });
    assert_eq!(substeps.remaining(), 0);
}

#[test]
fn normal_force_on_two_free_bodies() {
    let (graph, blocks) = world();
    let mut pool = EntityPool::new();
    pool.entities.push(block(&graph, &blocks, 1, Vector::new(0, 0), 200, Vector::new(300, 50)));
    pool.entities.push(block(&graph, &blocks, 2, Vector::new(800, 0), 400, Vector::new(-100, 0)));
    pool.entities[0].angular_velocity = 9;
    pool.entities[1].angular_velocity = -4;
    let hit = Hit { owner: ID(1), target: ID(2), walls: Axes::new(true, false), ticks: 10 };
    apply_normal_force(&mut pool, ID(0), hit);
    // Each takes half of the change; along x they now move as one.
    assert_eq!(pool.entities[0].velocity, Vector::new(100, 50));
    assert_eq!(pool.entities[1].velocity, Vector::new(100, 0));
    assert_eq!(pool.entities[0].angular_velocity, 0);
    assert_eq!(pool.entities[1].angular_velocity, 0);
}

#[test]
fn normal_force_brings_two_free_bodies_to_rest_against_each_other() {
    let (graph, blocks) = world();
    let mut pool = EntityPool::new();
    pool.entities.push(block(&graph, &blocks, 1, Vector::new(0, 0), 200, Vector::new(1000, 0)));
    pool.entities.push(block(&graph, &blocks, 2, Vector::new(800, 0), 400, Vector::new(0, 0)));
    let hit = Hit { owner: ID(1), target: ID(2), walls: Axes::new(true, false), ticks: 10 };
    apply_normal_force(&mut pool, ID(0), hit);
    assert_eq!(pool.entities[0].velocity, Vector::new(500, 0));
    assert_eq!(pool.entities[1].velocity, Vector::new(500, 0));
    assert_eq!(pool.entities[0].velocity.minus(pool.entities[1].velocity), Vector::zero());
}

#[test]
fn normal_force_shares_an_odd_change() {
    let (graph, blocks) = world();
    let mut pool = EntityPool::new();
    pool.entities.push(block(&graph, &blocks, 1, Vector::new(0, 0), 200, Vector::new(7, -3)));
    pool.entities.push(block(&graph, &blocks, 2, Vector::new(800, 0), 400, Vector::new(0, 4)));
    let hit = Hit { owner: ID(1), target: ID(2), walls: Axes::both(), ticks: 10 };
    apply_normal_force(&mut pool, ID(0), hit);
    assert_eq!(pool.entities[0].velocity, Vector::new(3, 1));
    assert_eq!(pool.entities[1].velocity, Vector::new(3, 1));
}

#[test]
fn normal_force_on_an_immovable_owner() {
    let (graph, blocks) = world();
    let mut pool = EntityPool::new();
    pool.entities.push(block(&graph, &blocks, 1, Vector::new(0, 0), 200, Vector::new(300, 50)));
    pool.entities.push(block(&graph, &blocks, 2, Vector::new(800, 0), 400, Vector::new(-100, 0)));
    pool.entities[0].angular_velocity = 9;
    pool.entities[1].angular_velocity = -4;
    let hit = Hit { owner: ID(1), target: ID(2), walls: Axes::new(true, false), ticks: 10 };
    apply_normal_force(&mut pool, ID(1), hit);
    assert_eq!(pool.entities[0].velocity, Vector::new(300, 50));
    assert_eq!(pool.entities[1].velocity, Vector::new(300, 0));
    assert_eq!(pool.entities[0].angular_velocity, 9);
    assert_eq!(pool.entities[1].angular_velocity, 0);
}

#[test]
fn normal_force_in_a_slanted_frame() {
    let (graph, blocks) = world();
    let mut pool = EntityPool::new();
    pool.entities.push(block(&graph, &blocks, 1, Vector::new(0, 0), 200, Vector::new(5000, 0)));
    pool.entities.push(block(&graph, &blocks, 2, Vector::new(800, 0), 400, Vector::new(0, 0)));
    let slanted = Heading::new(39322, 52429).unwrap();
    pool.entities[1].forward = slanted;
    let hit = Hit { owner: ID(1), target: ID(2), walls: Axes::new(true, false), ticks: 10 };
    apply_normal_force(&mut pool, ID(2), hit);
    // Seen from the target, the owner came at (3000, -4000); what is left
    // runs along the wall.
    let left = pool.entities[0].velocity.rotate(slanted.reversed());
    assert!(left.x.abs() <= 3);
    assert!((left.y + 4000).abs() <= 3);
}

#[test]
fn normal_force_in_a_turned_frame() {
    let (graph, blocks) = world();
    let mut pool = EntityPool::new();
    pool.entities.push(block(&graph, &blocks, 1, Vector::new(0, 0), 200, Vector::new(300, 50)));
    pool.entities.push(block(&graph, &blocks, 2, Vector::new(800, 0), 400, Vector::new(0, 0)));
    // The target is turned by a quarter: its x axis is the world's y axis.
    pool.entities[1].forward = Heading::new(0, 0x10000).unwrap();
    pool.entities[1].rotation = 0x4000;
    let hit = Hit { owner: ID(1), target: ID(2), walls: Axes::new(true, false), ticks: 10 };
    apply_normal_force(&mut pool, ID(2), hit);
    assert_eq!(pool.entities[0].velocity, Vector::new(300, 0));
    assert_eq!(pool.entities[1].velocity, Vector::new(0, 0));
}

#[test]
fn drag_rounds_toward_zero() {
    let (graph, blocks) = world();
    let mut pool = EntityPool::new();
    pool.entities.push(block(&graph, &blocks, 1, Vector::new(0, 0), 200, Vector::new(1, -1)));
    pool.entities[0].angular_velocity = -39;
    apply_drag(&mut pool);
    assert_eq!(pool.entities[0].velocity, Vector::new(0, 0));
    assert_eq!(pool.entities[0].angular_velocity, -37);
}

#[test]
fn turning_wraps_at_a_full_turn() {
    let (graph, blocks) = world();
    let mut a = block(&graph, &blocks, 1, Vector::new(0, 0), 200, Vector::new(0, 0));
    a.rotation = 0xFFF0;
    a.angular_velocity = 0x40;
    assert_eq!(a.rotation_after(TICK), 0x30);
    assert_eq!(a.rotation_after(TICK / 2), 0x10);
    a.angular_velocity = -0x40;
    a.rotation = 0x10;
    assert_eq!(a.rotation_after(TICK), 0xFFD0);
    a.rel_rotate(-0x20, Heading::east());
    assert_eq!(a.rotation, 0xFFF0);
}
