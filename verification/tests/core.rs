use std::collections::VecDeque;
use trainpath::actor::Actor;
use trainpath::geometry::{Rect, Vec2};
use trainpath::grid::{PathfindingGrid, PathfindingTile, Walkable};
use trainpath::coords::{cell_to_world, world_to_cell};
use trainpath::mover::{check_collision, position_inside_wagons, Pathfinding};
use trainpath::search::{compute_path, GridSearch};
use trainpath::wagon::{Tile, TileType, Wagon};

fn open_grid(w: usize, h: usize) -> PathfindingGrid {
    PathfindingGrid {
        grid: vec![vec![PathfindingTile { walkable: true }; h]; w],
        padding: (2, 2, 2, 2),
    }
}

#[test]
fn grid_new_is_empty() {
    let g = PathfindingGrid::new();
    assert_eq!(g.grid.len(), 0);
    assert_eq!(g.padding, (0, 0, 0, 0));
}

#[test]
fn grid_clone_copies_cells() {
    let mut g = open_grid(3, 2);
    g.grid[1][0].walkable = false;
    let c = g.clone();
    assert_eq!(c.padding, (2, 2, 2, 2));
    assert!(!c.grid[1][0].walkable);
    assert!(c.grid[0][0].walkable);
}

#[test]
fn is_walkable_reads_cells() {
    let mut g = open_grid(3, 3);
    g.grid[2][1].walkable = false;
    assert!(g.grid.is_walkable(0, 0));
    assert!(!g.grid.is_walkable(2, 1));
}

#[test]
fn search_start_end_heuristic() {
    let g = open_grid(4, 4);
    let ts = GridSearch::new(&g, (0, 1), (3, 3));
    assert_eq!(ts.start(), (0, 1));
    assert!(ts.is_end(&(3, 3)));
    assert!(!ts.is_end(&(3, 2)));
    // Manhattan distance from (0, 1) to (3, 3)
    assert_eq!(ts.heuristic(&(0, 1)), 5);
    assert_eq!(ts.heuristic(&(3, 3)), 0);
}

#[test]
fn neighbors_skip_corners_and_walls() {
    let mut g = open_grid(3, 3);
    g.grid[1][0].walkable = false;
    let ts = GridSearch::new(&g, (1, 1), (2, 2));
    let ns = ts.neighbors(&(1, 1));
    let cells: Vec<(i32, i32)> = ns.iter().map(|p| p.0).collect();
    // of the four orthogonal neighbors, (1, 0) is a wall; no diagonals
    assert_eq!(ns.len(), 3);
    assert!(cells.contains(&(0, 1)));
    assert!(cells.contains(&(2, 1)));
    assert!(cells.contains(&(1, 2)));
    assert!(!cells.contains(&(1, 0)));
    assert!(!cells.contains(&(0, 0)));
    for p in ns.iter() {
        assert_eq!(p.1, 1);
    }
}

#[test]
fn solve_trivial_when_start_is_end() {
    let g = open_grid(3, 3);
    let ts = GridSearch::new(&g, (1, 1), (1, 1));
    let p = ts.solve().unwrap();
    assert_eq!(p, VecDeque::from(vec![(1, 1)]));
}

#[test]
fn solve_matches_shortest_distance_around_wall() {
    // 5x5 grid with a vertical wall at x = 2, open only at y = 4: the
    // shortest 4-connected walk from (0,0) to (4,0) takes 12 steps
    let mut g = open_grid(5, 5);
    for y in 0..4 {
        g.grid[2][y].walkable = false;
    }
    let ts = GridSearch::new(&g, (0, 0), (4, 0));
    let p = ts.solve().unwrap();
    assert_eq!(p.len(), 13);
    assert_eq!(p[0], (0, 0));
    assert_eq!(p[p.len() - 1], (4, 0));
    // consecutive cells are orthogonal neighbors and walkable
    for t in 1..p.len() {
        let a = p[t - 1];
        let b = p[t];
        assert_eq!((a.0 - b.0).abs() + (a.1 - b.1).abs(), 1);
        assert!(g.grid[b.0 as usize][b.1 as usize].walkable);
    }
}

#[test]
fn solve_reports_no_path_through_closed_wall() {
    let mut g = open_grid(5, 5);
    for y in 0..5 {
        g.grid[2][y].walkable = false;
    }
    let ts = GridSearch::new(&g, (0, 0), (4, 0));
    assert!(ts.solve().is_none());
}

#[test]
fn solve_none_when_goal_outside_grid() {
    let g = open_grid(3, 3);
    let ts = GridSearch::new(&g, (0, 0), (7, 7));
    assert!(ts.solve().is_none());
}

#[test]
fn world_cell_round_trip_lands_on_tile_center() {
    let origin = Vec2 { x: 128000, y: 128000 };
    // a position inside some tile
    let pos = Vec2 { x: 37000, y: 291000 };
    let cell = world_to_cell(pos, origin, 2, 2);
    let back = cell_to_world(cell, origin, 2, 2);
    // within half a tile (32000) of the original on each axis
    assert!((back.x - pos.x).abs() <= 32000);
    assert!((back.y - pos.y).abs() <= 32000);
    // and quantizing again gives the same cell
    assert_eq!(world_to_cell(back, origin, 2, 2), cell);
}

#[test]
fn world_to_cell_exact_values() {
    let origin = Vec2 { x: 128000, y: 128000 };
    // base is origin - 2 tiles = zero, so cells count from zero
    assert_eq!(world_to_cell(Vec2 { x: 0, y: 0 }, origin, 2, 2), (0, 0));
    assert_eq!(world_to_cell(Vec2 { x: 63999, y: 64000 }, origin, 2, 2), (0, 1));
    assert_eq!(cell_to_world((0, 0), origin, 2, 2).x, 32000);
    assert_eq!(cell_to_world((3, 1), origin, 2, 2).x, 3 * 64000 + 32000);
}

#[test]
fn compute_path_translates_and_searches() {
    let g = open_grid(5, 5);
    let train_pos = Vec2 { x: 128000, y: 128000 };
    let start = Vec2 { x: 32000, y: 32000 };
    let click = Vec2 { x: 288000, y: 32000 };
    let p = compute_path(start, g, train_pos, click).unwrap();
    assert_eq!(p.len(), 5);
    assert_eq!(p[0], (0, 0));
    assert_eq!(p[4], (4, 0));
}

#[test]
fn compute_path_none_for_start_outside_grid() {
    let g = open_grid(5, 5);
    let train_pos = Vec2 { x: 128000, y: 128000 };
    // start maps to a negative cell
    let start = Vec2 { x: -640000, y: 32000 };
    let click = Vec2 { x: 32000, y: 32000 };
    assert!(compute_path(start, g, train_pos, click).is_none());
}

#[test]
fn set_path_skips_first_cell() {
    let mut a = Actor::new();
    let mut path: VecDeque<(i32, i32)> = VecDeque::from(vec![(2, 2), (3, 2), (3, 3)]);
    a.set_path(&mut path, Vec2 { x: 0, y: 0 });
    assert_eq!(a.move_seq.len(), 2);
    // cell (3, 2) relative to origin (0,0) with two tiles of padding
    assert_eq!(a.move_seq[0], Vec2 { x: 96000, y: 32000 });
    assert_eq!(a.move_seq[1], Vec2 { x: 96000, y: 96000 });
}

#[test]
fn mover_pops_waypoint_on_arrival() {
    let mut a = Actor::new();
    a.position = Vec2 { x: 100000, y: 100000 };
    // a waypoint within the four-pixel arrival threshold on both axes
    a.move_seq.push_back(Vec2 { x: 103000, y: 98000 });
    a.update_movement(&Vec::new(), 16);
    assert_eq!(a.move_seq.len(), 0);
    assert_eq!(a.position, Vec2 { x: 100000, y: 100000 });
}

#[test]
fn mover_walks_toward_waypoint() {
    let mut a = Actor::new();
    a.position = Vec2 { x: 0, y: 0 };
    // a 3-4-5 direction: distance 500 pixels
    a.move_seq.push_back(Vec2 { x: 300000, y: 400000 });
    // one full second: 300 pixels of travel
    a.update_movement(&Vec::new(), 1000);
    assert_eq!(a.position, Vec2 { x: 180000, y: 240000 });
    assert_eq!(a.move_seq.len(), 1);
    assert!(!a.inside_wagon);
}

#[test]
fn mover_rejects_blocked_displacement() {
    let mut a = Actor::new();
    a.position = Vec2 { x: 0, y: 0 };
    a.move_seq.push_back(Vec2 { x: 300000, y: 0 });
    // one solid tile with a wall strip right across the path
    let mut tile = Tile::new();
    tile.is_solid = true;
    tile.position = Vec2 { x: 40000, y: 0 };
    tile.bounds.0 = Some(Rect { left: 0, top: -32000, width: 6000, height: 64000 });
    let wagon = Wagon { tiles: vec![vec![tile]], rotation: 0, center: Vec2 { x: 0, y: 0 } };
    let wagons = vec![wagon];
    let before = a.position;
    // 160 ms: the desired box lands on the wall strip and the whole
    // displacement is rejected
    a.update_movement(&wagons, 160);
    assert_eq!(a.position, before);
    assert_eq!(a.move_seq.len(), 1);
}

#[test]
fn mover_reclassifies_inside_after_move() {
    let mut a = Actor::new();
    a.position = Vec2 { x: 0, y: 0 };
    a.move_seq.push_back(Vec2 { x: 20000, y: 0 });
    // a floor tile containing the landing point
    let mut tile = Tile::new();
    tile.position = Vec2 { x: 10000, y: 0 };
    let wagon = Wagon { tiles: vec![vec![tile]], rotation: 0, center: Vec2 { x: 0, y: 0 } };
    let wagons = vec![wagon];
    a.inside_wagon = false;
    a.update_movement(&wagons, 50);
    assert!(a.position.x > 0);
    assert!(a.inside_wagon);
}

#[test]
fn door_tiles_never_count_as_inside() {
    let mut tile = Tile::new();
    tile.position = Vec2 { x: 0, y: 0 };
    tile.tile_type = TileType::Door(trainpath::wagon::Direction::North);
    let wagon = Wagon { tiles: vec![vec![tile]], rotation: 0, center: Vec2 { x: 0, y: 0 } };
    assert!(!position_inside_wagons(&vec![wagon], Vec2 { x: 0, y: 0 }));
}

#[test]
fn check_collision_reports_clear_and_blocked() {
    let mut tile = Tile::new();
    tile.is_solid = true;
    tile.position = Vec2 { x: 0, y: 0 };
    tile.bounds.0 = Some(Rect { left: 0, top: 0, width: 6000, height: 64000 });
    let wagon = Wagon { tiles: vec![vec![tile]], rotation: 0, center: Vec2 { x: 0, y: 0 } };
    let wagons = vec![wagon];
    let hit = Rect { left: 3000, top: 1000, width: 10000, height: 10000 };
    let clear = Rect { left: 50000, top: 0, width: 10000, height: 10000 };
    assert!(!check_collision(&hit, &wagons));
    assert!(check_collision(&clear, &wagons));
}

#[test]
fn rect_intersects_and_contains() {
    let a = Rect::new(0, 0, 10, 10);
    let b = Rect::new(9, 9, 5, 5);
    let c = Rect::new(10, 0, 5, 5);
    assert!(a.intersects(&b));
    assert!(!a.intersects(&c));
    assert!(a.contains(Vec2 { x: 0, y: 9 }));
    assert!(!a.contains(Vec2 { x: 10, y: 0 }));
}
