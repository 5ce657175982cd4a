use game_of_life::life::CellSet;
use game_of_life::life::Coord;
use game_of_life::life::GridBounds;

fn alive_coords(set: &CellSet) -> Vec<(i32, i32)> {
    let mut v: Vec<(i32, i32)> = set.iterate_alive().iter().map(|c| (c.x, c.y)).collect();
    v.sort();
    v
}

#[test]
fn new_set_is_empty() {
    let set = CellSet::new();
    assert!(!set.is_alive(0, 0));
    assert_eq!(alive_coords(&set).len(), 0);
}

#[test]
fn toggle_inserts_then_removes() {
    let mut set = CellSet::new();
    set.toggle(3, -7);
    assert!(set.is_alive(3, -7));
    assert!(!set.is_alive(-7, 3));
    set.toggle(3, -7);
    assert!(!set.is_alive(3, -7));
}

#[test]
fn toggle_twice_leaves_set_unchanged() {
    let mut set = CellSet::new();
    set.toggle(1, 1);
    set.toggle(5, 9);
    let before = alive_coords(&set);
    set.toggle(-4, 8);
    set.toggle(-4, 8);
    assert_eq!(alive_coords(&set), before);
    set.toggle(1, 1);
    set.toggle(1, 1);
    assert_eq!(alive_coords(&set), before);
}

#[test]
fn step_on_empty_set_yields_empty_set() {
    let mut set = CellSet::new();
    set.step();
    assert_eq!(alive_coords(&set).len(), 0);
}

#[test]
fn lone_cell_dies() {
    let mut set = CellSet::new();
    set.toggle(10, 10);
    set.step();
    assert!(!set.is_alive(10, 10));
    assert_eq!(alive_coords(&set).len(), 0);
}

#[test]
fn two_cells_die() {
    // Each has exactly one alive neighbor: both die, nothing is born.
    let mut set = CellSet::new();
    set.toggle(0, 0);
    set.toggle(1, 0);
    set.step();
    assert_eq!(alive_coords(&set).len(), 0);
}

#[test]
fn block_is_a_still_life() {
    let mut set = CellSet::new();
    set.toggle(4, 4);
    set.toggle(5, 4);
    set.toggle(4, 5);
    set.toggle(5, 5);
    let before = alive_coords(&set);
    for _ in 0..5 {
        set.step();
        assert_eq!(alive_coords(&set), before);
    }
}

#[test]
fn blinker_oscillates() {
    let mut set = CellSet::new();
    set.toggle(1, 0);
    set.toggle(2, 0);
    set.toggle(3, 0);
    set.step();
    assert_eq!(alive_coords(&set), vec![(2, -1), (2, 0), (2, 1)]);
    set.step();
    assert_eq!(alive_coords(&set), vec![(1, 0), (2, 0), (3, 0)]);
}

#[test]
fn dead_cell_with_two_neighbors_stays_dead() {
    // A diagonal pair: (1, 1) sees 2 alive neighbors and is not born.
    let mut set = CellSet::new();
    set.toggle(0, 0);
    set.toggle(2, 2);
    set.step();
    assert!(!set.is_alive(1, 1));
    assert_eq!(alive_coords(&set).len(), 0);
}

#[test]
fn alive_cell_with_four_neighbors_dies() {
    // A plus shape: the center cell has 4 alive neighbors and dies.
    let mut set = CellSet::new();
    set.toggle(0, 0);
    set.toggle(1, 0);
    set.toggle(-1, 0);
    set.toggle(0, 1);
    set.toggle(0, -1);
    set.step();
    assert!(!set.is_alive(0, 0));
}

#[test]
fn trim_removes_far_cells_and_keeps_near_ones() {
    let mut set = CellSet::new();
    set.toggle(-30, -30);
    set.toggle(-20, -20);
    set.trim(GridBounds { width: 32, height: 32 }, 25);
    assert!(!set.is_alive(-30, -30));
    assert!(set.is_alive(-20, -20));
}

#[test]
fn trim_bounds_are_half_open() {
    let bounds = GridBounds { width: 32, height: 32 };
    let mut set = CellSet::new();
    set.toggle(-25, 0);
    set.toggle(-26, 0);
    set.toggle(56, 0);
    set.toggle(57, 0);
    set.trim(bounds, 25);
    assert!(set.is_alive(-25, 0));
    assert!(!set.is_alive(-26, 0));
    assert!(set.is_alive(56, 0));
    assert!(!set.is_alive(57, 0));
}

#[test]
fn iterate_alive_lists_each_cell_once() {
    let mut set = CellSet::new();
    set.toggle(0, 0);
    set.toggle(2, 1);
    set.toggle(0, 0);
    set.toggle(0, 0);
    let coords: &Vec<Coord> = set.iterate_alive();
    assert_eq!(coords.len(), 2);
    assert_eq!(alive_coords(&set), vec![(0, 0), (2, 1)]);
}

#[test]
fn glider_moves_one_diagonal_in_four_steps() {
    // The standard glider translates by (1, 1) every 4 generations.
    let start = [(1, 0), (2, 1), (0, 2), (1, 2), (2, 2)];
    let mut set = CellSet::new();
    for (x, y) in start {
        set.toggle(x, y);
    }
    for _ in 0..4 {
        set.step();
    }
    let mut expected: Vec<(i32, i32)> = start.iter().map(|&(x, y)| (x + 1, y + 1)).collect();
    expected.sort();
    assert_eq!(alive_coords(&set), expected);
}
