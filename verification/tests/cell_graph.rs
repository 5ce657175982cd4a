use game_of_life::cells::Cell;
use game_of_life::events::Events;

fn cell_with_neighbors(alive: bool, alive_neighbors: usize, dead_neighbors: usize) -> Cell {
    let mut cell = Cell::new(0, 0, alive);
    for i in 0..alive_neighbors {
        cell.add_neighbor(Cell::new(1 + i as i32, 0, true));
    }
    for i in 0..dead_neighbors {
        cell.add_neighbor(Cell::new(-1 - i as i32, 0, false));
    }
    cell
}

#[test]
fn new_cell_has_given_fields() {
    let cell = Cell::new(7, -3, true);
    assert_eq!(cell.pos, (7, -3));
    assert!(cell.alive);
    assert_eq!(cell.neighbors.len(), 0);
}

#[test]
fn add_neighbor_appends() {
    let mut cell = Cell::new(0, 0, false);
    cell.add_neighbor(Cell::new(1, 1, true));
    cell.add_neighbor(Cell::new(0, 1, false));
    assert_eq!(cell.neighbors.len(), 2);
    assert_eq!(cell.neighbors[0].pos, (1, 1));
    assert!(cell.neighbors[0].alive);
    assert_eq!(cell.neighbors[1].pos, (0, 1));
    assert!(!cell.neighbors[1].alive);
}

#[test]
fn alive_cell_survives_with_two_or_three() {
    for n in [2, 3] {
        let mut cell = cell_with_neighbors(true, n, 3);
        cell.check_is_alive();
        assert!(cell.alive, "expected survival with {} alive neighbors", n);
    }
}

#[test]
fn alive_cell_dies_otherwise() {
    for n in [0, 1, 4, 5, 8] {
        let mut cell = cell_with_neighbors(true, n, 2);
        cell.check_is_alive();
        assert!(!cell.alive, "expected death with {} alive neighbors", n);
    }
}

#[test]
fn dead_cell_is_born_with_exactly_three() {
    let mut cell = cell_with_neighbors(false, 3, 1);
    cell.check_is_alive();
    assert!(cell.alive);
    for n in [0, 1, 2, 4, 8] {
        let mut cell = cell_with_neighbors(false, n, 1);
        cell.check_is_alive();
        assert!(!cell.alive, "expected no birth with {} alive neighbors", n);
    }
}

#[test]
fn check_is_alive_keeps_position_and_neighbors() {
    let mut cell = cell_with_neighbors(true, 1, 1);
    cell.check_is_alive();
    assert_eq!(cell.pos, (0, 0));
    assert_eq!(cell.neighbors.len(), 2);
}

#[test]
fn new_events_state_is_idle() {
    let events = Events::new();
    assert!(!events.is_dragging);
    assert_eq!(events.last_mouse_pos, (0, 0));
}
