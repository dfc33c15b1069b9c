use snake_lobby::con_map::ConMap;
use snake_lobby::state::{refill_with, PrepLobbyState, RunningLobbyState};
use snake_lobby::world::{Boundaries, Direction, Figure, Foods, Pos, Sections, Snake};

fn prep(cons: &[u16]) -> PrepLobbyState {
    let mut p = PrepLobbyState::new();
    for &c in cons {
        p.join_con(c);
    }
    p
}

fn head(s: &Snake) -> (i32, i32) {
    let v = s.iter_vertices();
    (v[0].x, v[0].y)
}

#[test]
fn votes_start_false_and_need_everyone() {
    let mut p = prep(&[3, 1]);
    assert_eq!(p.start_votes.get(3), Some(&false));
    assert!(!p.all_voted_to_start());
    p.vote_start(1, true);
    assert!(!p.all_voted_to_start());
    p.vote_start(3, true);
    assert!(p.all_voted_to_start());
    p.remove_con(&3);
    assert!(p.all_voted_to_start());
}

#[test]
fn empty_lobby_has_not_voted() {
    assert!(!PrepLobbyState::new().all_voted_to_start());
}

#[test]
fn vote_of_stranger_is_ignored() {
    let mut p = prep(&[1]);
    p.vote_start(9, true);
    assert!(!p.start_votes.contains_key(9));
    assert_eq!(p.start_votes.len(), 1);
}

#[test]
fn spawn_layout_alternates_columns() {
    let r = prep(&[30, 10, 20]).to_running();
    assert_eq!(r.counter, 0);
    assert_eq!(r.foods.count(), 0);
    assert_eq!(r.cons.keys(), vec![10, 20, 30]);
    assert_eq!(head(r.snakes.get(10).unwrap()), (0, 3));
    assert_eq!(head(r.snakes.get(20).unwrap()), (1, 3));
    assert_eq!(head(r.snakes.get(30).unwrap()), (-2, 3));
    let s = r.snakes.get(20).unwrap();
    assert_eq!(s.iter_vertices(), vec![Pos::new(1, 3), Pos::new(1, 4), Pos::new(1, 5)]);
    assert_eq!(s.direction, Direction::Up);
    assert_eq!(r.boundaries.min, Pos::new(-6, -6));
    assert_eq!(r.boundaries.max, Pos::new(6, 6));
}

#[test]
fn spawn_field_widens_with_players() {
    let cons: Vec<u16> = (1..=6).collect();
    let r = prep(&cons).to_running();
    assert_eq!(r.boundaries.max, Pos::new(8, 6));
    let cons: Vec<u16> = (1..=7).collect();
    let r = prep(&cons).to_running();
    assert_eq!(r.boundaries.max, Pos::new(8, 6));
}

fn lone(cells: &[(i32, i32)], direction: Direction) -> RunningLobbyState {
    let mut snakes = ConMap::new();
    snakes.insert(
        1,
        Snake {
            sections: Sections { cells: cells.iter().map(|&(x, y)| Pos::new(x, y)).collect() },
            direction,
        },
    );
    let mut cons = ConMap::new();
    cons.insert(1, ());
    let mut foods = Foods::new();
    for i in 0..12 {
        foods.insert(Pos::new(i - 5, -5));
    }
    RunningLobbyState {
        snakes,
        foods,
        boundaries: Boundaries::from_radius(Pos::new(0, 0), 6, 6),
        counter: 4,
        cons,
    }
}

#[test]
fn advance_counts_ticks() {
    let mut r = lone(&[(0, 0), (0, 1)], Direction::Up);
    r.advance();
    assert_eq!(r.counter, 5);
    r.advance();
    assert_eq!(r.counter, 6);
    assert_eq!(head(r.snakes.get(1).unwrap()), (0, -2));
}

#[test]
fn death_drops_food() {
    let mut r = lone(&[(-6, 2), (-5, 2), (-4, 2)], Direction::Left);
    r.advance();
    assert!(!r.snakes.contains_key(1));
    assert!(r.cons.contains_key(1));
    for (x, y) in [(-6, 2), (-5, 2), (-4, 2)] {
        assert!(r.foods.contains(&Pos::new(x, y)));
    }
}

#[test]
fn step_moves_in_connection_order() {
    let mut r = prep(&[2, 1]).to_running();
    r.step();
    assert_eq!(head(r.snakes.get(1).unwrap()), (0, 2));
    assert_eq!(head(r.snakes.get(2).unwrap()), (1, 2));
    assert_eq!(r.counter, 0);
}

#[test]
fn head_on_collision_kills_both() {
    let mut r = prep(&[1, 2]).to_running();
    r.set_con_direction(1, Direction::Right);
    r.set_con_direction(2, Direction::Left);
    r.step();
    // 1 moves onto (1,3), which 2 held before the tick; 2 moves onto (0,3), held by 1
    assert!(!r.snakes.contains_key(1));
    assert!(!r.snakes.contains_key(2));
    assert!(r.foods.contains(&Pos::new(0, 5)));
    assert!(r.foods.contains(&Pos::new(1, 5)));
}

#[test]
fn set_direction_refuses_reversal() {
    let mut r = prep(&[1]).to_running();
    r.set_con_direction(1, Direction::Down);
    assert_eq!(r.snakes.get(1).unwrap().direction, Direction::Up);
    r.set_con_direction(1, Direction::Left);
    assert_eq!(r.snakes.get(1).unwrap().direction, Direction::Left);
    r.set_con_direction(7, Direction::Left);
    assert!(!r.snakes.contains_key(7));
}

#[test]
fn remove_con_leaves_food() {
    let mut r = prep(&[1, 2]).to_running();
    r.remove_con(&2);
    assert!(!r.cons.contains_key(2));
    assert!(!r.snakes.contains_key(2));
    assert_eq!(r.foods.count(), 3);
    assert!(r.foods.contains(&Pos::new(1, 4)));
}

#[test]
fn full_width_figure_adds_nothing() {
    let b = Boundaries { min: Pos::new(0, 0), max: Pos::new(3, 10) };
    let mut f = Foods::new();
    refill_with(&mut f, &b, Figure::LineH, 0, 2);
    assert_eq!(f.count(), 0);
}

#[test]
fn refill_stamps_when_few_foods() {
    let b = Boundaries::from_radius(Pos::new(0, 0), 6, 6);
    let mut f = Foods::new();
    refill_with(&mut f, &b, Figure::LineV, 2, -1);
    assert_eq!(f.count(), 3);
    assert!(f.contains(&Pos::new(2, 1)));
    // out of the allowed range of corners: nothing
    let mut g = Foods::new();
    refill_with(&mut g, &b, Figure::Dot, 6, 0);
    assert_eq!(g.count(), 0);
}

#[test]
fn refill_skipped_with_enough_foods() {
    let b = Boundaries::from_radius(Pos::new(0, 0), 6, 6);
    let mut f = Foods::new();
    for i in 0..10 {
        f.insert(Pos::new(i - 5, 0));
    }
    refill_with(&mut f, &b, Figure::Dot, 1, 1);
    assert_eq!(f.count(), 10);
}
