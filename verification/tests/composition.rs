use std::collections::VecDeque;
use trainpath::actor::Actor;
use trainpath::actor_manager::ActorManager;
use trainpath::geometry::{Rect, Vec2};
use trainpath::resource_manager::{Resource, ResourceManager, TextureId};
use trainpath::search::compute_path;
use trainpath::train::Train;
use trainpath::wagon::{Direction, TileType, Wagon};

#[test]
fn wagon_new_builds_walls_doors_and_floor() {
    let w = Wagon::new(2, 3);
    assert_eq!(w.tiles.len(), 5);
    assert_eq!(w.tiles[0].len(), 4);
    // corners and walls are solid, interior is floor
    assert!(w.tiles[0][0].is_solid);
    assert!(!w.tiles[1][1].is_solid);
    assert!(!w.tiles[3][2].is_solid);
    // doors sit in the middle column of the top and bottom walls, closed
    assert_eq!(w.tiles[0][1].tile_type, TileType::Door(Direction::North));
    assert_eq!(w.tiles[4][1].tile_type, TileType::Door(Direction::South));
    assert!(w.tiles[0][1].is_solid);
    // tile positions are tile-sized steps
    assert_eq!(w.tiles[2][3].position, Vec2 { x: 3 * 64000, y: 2 * 64000 });
    assert_eq!(w.center, Vec2 { x: 3 * 32000, y: 4 * 32000 });
}

#[test]
fn wagon_move_and_set_position_shift_tiles() {
    let mut w = Wagon::new(2, 3);
    let p0 = w.tiles[1][1].position;
    w.move2f(1000, -2000);
    assert_eq!(w.tiles[1][1].position, Vec2 { x: p0.x + 1000, y: p0.y - 2000 });
    assert_eq!(w.center, Vec2 { x: 3 * 32000 + 1000, y: 4 * 32000 - 2000 });
    w.set_position2f(0, 0);
    assert_eq!(w.center, Vec2 { x: 0, y: 0 });
    // the tile keeps its offset from the center
    assert_eq!(
        w.tiles[1][1].position,
        Vec2 { x: p0.x - 3 * 32000, y: p0.y - 4 * 32000 }
    );
}

#[test]
fn connect_opens_passage_and_places_other() {
    let mut a = Wagon::new(2, 3);
    let mut b = Wagon::new(2, 3);
    a.connect(&mut b);
    // the middle of a's left wall becomes passable
    assert!(!a.tiles[2][0].is_solid);
    assert!(a.tiles[1][0].bounds.1.is_some());
    assert!(a.tiles[3][0].bounds.1.is_some());
    // the matching cell of b's right wall is closed off
    assert!(b.tiles[2][3].is_solid);
    assert_eq!(b.tiles[2][3].tile_type, TileType::WallAndFloor);
    // b sits one wagon-width to the left, on the same center line
    assert_eq!(b.center, Vec2 { x: 3 * 32000 - 3 * 64000, y: 4 * 32000 });
}

#[test]
fn rebuild_composes_inside_outside_and_all() {
    let mut t = Train::new();
    t.wagons.push(Wagon::new(2, 3));
    t.rebuild_pfgrids();
    assert_eq!(t.total_size, (4, 5));
    assert_eq!(t.pfgrid_all.grid.len(), 8);
    assert_eq!(t.pfgrid_all.grid[0].len(), 9);
    assert_eq!(t.pfgrid_in.padding, (2, 2, 2, 2));
    // every cell of the permissive grid is walkable
    for col in t.pfgrid_all.grid.iter() {
        for c in col.iter() {
            assert!(c.walkable);
        }
    }
    // interior floor is inside-walkable, walls and padding are not
    assert!(t.pfgrid_in.grid[3][3].walkable);
    assert!(!t.pfgrid_in.grid[2][2].walkable);
    assert!(!t.pfgrid_in.grid[0][0].walkable);
    // outside is the complement away from doors
    assert!(!t.pfgrid_out.grid[3][3].walkable);
    assert!(t.pfgrid_out.grid[2][2].walkable);
    assert!(t.pfgrid_out.grid[0][0].walkable);
    // the closed north door's own cell is walkable in both... only outside,
    // since the door is closed
    assert!(!t.pfgrid_in.grid[3][2].walkable);
    assert!(t.pfgrid_out.grid[3][2].walkable);
}

#[test]
fn grid_views_complement_except_door_cells() {
    let mut t = Train::new();
    t.wagons.push(Wagon::new(2, 3));
    // open the north door so both linked cells are walkable in both views
    t.wagons[0].tiles[0][1].is_solid = false;
    t.rebuild_pfgrids();
    // door-linked cells: the open north door's own cell (3,2) and its
    // threshold cell (3,3) are walkable in both views; the closed south
    // door's own cell (3,6) is walkable outside despite being a wall
    for x in 0..8usize {
        for y in 0..9usize {
            let i = t.pfgrid_in.grid[x][y].walkable;
            let o = t.pfgrid_out.grid[x][y].walkable;
            if (x, y) == (3, 2) || (x, y) == (3, 3) {
                assert!(i && o, "door-linked cell ({}, {}) walkable in both", x, y);
            } else if (x, y) == (3, 6) {
                assert!(!i && o);
            } else {
                assert_eq!(i, !o, "cell ({}, {})", x, y);
            }
        }
    }
}

#[test]
fn door_toggle_flips_exactly_the_threshold_cell() {
    let mut t = Train::new();
    t.wagons.push(Wagon::new(2, 3));
    t.rebuild_pfgrids();
    let closed: Vec<Vec<bool>> =
        t.pfgrid_out.grid.iter().map(|c| c.iter().map(|x| x.walkable).collect()).collect();
    // open the north door and rebuild
    t.wagons[0].tiles[0][1].is_solid = false;
    t.rebuild_pfgrids();
    let opened: Vec<Vec<bool>> =
        t.pfgrid_out.grid.iter().map(|c| c.iter().map(|x| x.walkable).collect()).collect();
    for x in 0..8usize {
        for y in 0..9usize {
            if (x, y) == (3, 3) {
                // the cell across the north door's threshold becomes walkable
                assert!(!closed[x][y]);
                assert!(opened[x][y]);
            } else if (x, y) == (3, 2) {
                // the door's own cell stays walkable outside in both states
                assert!(closed[x][y] && opened[x][y]);
            } else {
                assert_eq!(closed[x][y], opened[x][y], "cell ({}, {})", x, y);
            }
        }
    }
}

#[test]
fn train_update_accelerates_and_brakes() {
    let mut t = Train::new();
    t.init(1000, 30);
    assert_eq!(t.top_speed, 1000);
    t.moving = true;
    t.update();
    assert_eq!(t.current_speed, 30);
    t.moving = false;
    t.update();
    assert_eq!(t.current_speed, 15);
    t.current_speed = 0;
    t.update();
    assert_eq!(t.current_speed, 0);
}

#[test]
fn train_origin_lifts_by_height_difference() {
    let mut t = Train::new();
    t.wagons.push(Wagon::new(9, 3));
    t.wagons.push(Wagon::new(2, 3));
    t.rebuild_pfgrids();
    assert_eq!(t.total_size.1, 5);
    let o = t.get_origin();
    let last = &t.wagons[1];
    assert_eq!(o.x, last.center.x);
    assert_eq!(o.y, last.center.y);
    // with equal heights nothing lifts; a taller neighbor lifts by half
    // the difference times a tile
    let mut t2 = Train::new();
    t2.wagons.push(Wagon::new(2, 5));
    t2.wagons.push(Wagon::new(2, 3));
    t2.rebuild_pfgrids();
    let o2 = t2.get_origin();
    assert_eq!(o2.y, t2.wagons[1].center.y - 64000);
}

#[test]
fn dispatcher_delivers_results_by_tag_in_any_order() {
    // two managers, same two orders, workers finishing in opposite orders
    let run = |scramble: bool| -> (Vec<Vec2>, Vec<Vec2>) {
        let mut am = ActorManager::new();
        let mut a0 = Actor::new();
        a0.position = Vec2 { x: 32000, y: 32000 };
        a0.inside_wagon = false;
        let mut a1 = Actor::new();
        a1.position = Vec2 { x: 96000, y: 32000 };
        a1.inside_wagon = false;
        am.actors.push(a0);
        am.actors.push(a1);
        am.selected.push(0);
        am.selected.push(1);
        let grid = trainpath::grid::PathfindingGrid {
            grid: vec![vec![trainpath::grid::PathfindingTile { walkable: true }; 5]; 5],
            padding: (2, 2, 2, 2),
        };
        let train_pos = Vec2 { x: 128000, y: 128000 };
        let click = Vec2 { x: 32000, y: 160000 };
        am.launch_movement_orders(grid.clone(), grid.clone(), train_pos, click);
        let reqs = am.take_requests();
        assert_eq!(reqs.len(), 2);
        let mut results: Vec<(usize, Option<VecDeque<(i32, i32)>>)> = Vec::new();
        for r in reqs.iter() {
            results.push((
                r.requester,
                compute_path(r.start, r.grid.clone(), r.train_pos, r.destination),
            ));
        }
        if scramble {
            results.reverse();
        }
        for (id, res) in results {
            am.post_result(id, res);
        }
        am.update_threads(train_pos);
        (
            am.actors[0].move_seq.iter().cloned().collect(),
            am.actors[1].move_seq.iter().cloned().collect(),
        )
    };
    let (a, b) = run(false);
    let (a2, b2) = run(true);
    assert_eq!(a, a2);
    assert_eq!(b, b2);
    assert!(!a.is_empty());
    assert!(!b.is_empty());
    // each actor walks toward the shared destination from its own cell
    assert_ne!(a.len(), b.len());
}

#[test]
fn selection_rectangle_picks_overlapping_actors() {
    let mut am = ActorManager::new();
    let mut a0 = Actor::new();
    a0.position = Vec2 { x: 50000, y: 50000 };
    let mut a1 = Actor::new();
    a1.position = Vec2 { x: 500000, y: 500000 };
    am.actors.push(a0);
    am.actors.push(a1);
    am.start_selection(Vec2 { x: 0, y: 0 });
    am.update_selection_rect(100000, 100000);
    am.apply_selection();
    assert_eq!(am.selected, vec![0]);
    assert!(!am.is_selecting);
}

struct FakeSound(usize);

impl Resource for FakeSound {
    fn new_from_file(filename: &str) -> Option<Self> {
        if filename.is_empty() {
            None
        } else {
            Some(FakeSound(filename.len()))
        }
    }
}

#[test]
fn resource_manager_loads_and_looks_up() {
    let mut rm: ResourceManager<TextureId, FakeSound> = ResourceManager::new();
    assert!(rm.load(TextureId::Floor, "floor.png"));
    assert!(rm.load(TextureId::Wall, "wall.png"));
    assert!(!rm.load(TextureId::Corner, ""));
    assert_eq!(rm.resource_map.len(), 2);
    assert_eq!(rm.get(TextureId::Floor).0, 9);
    assert_eq!(rm.get(TextureId::Wall).0, 8);
    rm.get_mut(TextureId::Wall).0 = 3;
    assert_eq!(rm.get(TextureId::Wall).0, 3);
    // reloading a present key replaces its value in place: same size
    assert!(rm.load(TextureId::Floor, "other_floor.png"));
    assert_eq!(rm.resource_map.len(), 2);
    assert_eq!(rm.get(TextureId::Floor).0, 15);
    // loading an absent key appends: the store grows by one
    assert!(rm.load(TextureId::Corner, "corner.png"));
    assert_eq!(rm.resource_map.len(), 3);
}
