use snake_lobby::world::{
    leave_food_trace, AdvanceResult, Boundaries, Direction, Figure, Foods, Pos, Relation, Sections,
    Snake,
};

fn snake(cells: &[(i32, i32)], direction: Direction) -> Snake {
    Snake {
        sections: Sections { cells: cells.iter().map(|&(x, y)| Pos::new(x, y)).collect() },
        direction,
    }
}

fn field() -> Boundaries {
    Boundaries::from_radius(Pos::new(0, 0), 6, 6)
}

fn cells(s: &Snake) -> Vec<(i32, i32)> {
    s.iter_vertices().iter().map(|p| (p.x, p.y)).collect()
}

#[test]
fn from_directions_trails_behind_head() {
    let s = Sections::from_directions(Pos::new(0, 3), &vec![Direction::Up, Direction::Up]);
    assert_eq!(s.iter_vertices(), vec![Pos::new(0, 3), Pos::new(0, 4), Pos::new(0, 5)]);
    let s = Sections::from_directions(Pos::new(2, 2), &vec![Direction::Right, Direction::Down]);
    assert_eq!(s.iter_vertices(), vec![Pos::new(2, 2), Pos::new(1, 2), Pos::new(1, 1)]);
}

#[test]
fn relation_classifies_positions() {
    let b = field();
    assert_eq!(b.min, Pos::new(-6, -6));
    assert_eq!(b.max, Pos::new(6, 6));
    assert_eq!(b.relation(&Pos::new(0, 0)), Relation::Inside);
    assert_eq!(b.relation(&Pos::new(-6, 0)), Relation::OnEdge);
    assert_eq!(b.relation(&Pos::new(0, -6)), Relation::OnEdge);
    assert_eq!(b.relation(&Pos::new(6, 0)), Relation::Outside);
    assert_eq!(b.relation(&Pos::new(-7, 0)), Relation::Outside);
}

#[test]
fn advance_moves_and_drops_tail() {
    let mut s = snake(&[(0, 0), (0, 1), (0, 2)], Direction::Up);
    let mut foods = Foods::new();
    assert_eq!(s.advance(&mut foods, &vec![], &field()), AdvanceResult::Success);
    assert_eq!(cells(&s), vec![(0, -1), (0, 0), (0, 1)]);
}

#[test]
fn advance_eats_and_grows() {
    let mut s = snake(&[(0, 0), (0, 1)], Direction::Right);
    let mut foods = Foods::new();
    foods.insert(Pos::new(1, 0));
    foods.insert(Pos::new(4, 4));
    assert_eq!(s.advance(&mut foods, &vec![], &field()), AdvanceResult::Success);
    assert_eq!(cells(&s), vec![(1, 0), (0, 0), (0, 1)]);
    assert_eq!(foods.count(), 1);
    assert!(!foods.contains(&Pos::new(1, 0)));
}

#[test]
fn head_onto_max_x_is_out_of_bounds() {
    let mut s = snake(&[(5, 0), (4, 0)], Direction::Right);
    let mut foods = Foods::new();
    assert_eq!(s.advance(&mut foods, &vec![], &field()), AdvanceResult::OutOfBounds);
    assert_eq!(cells(&s), vec![(5, 0), (4, 0)]);
}

#[test]
fn head_onto_min_edge_survives() {
    let mut s = snake(&[(-5, 0)], Direction::Left);
    let mut foods = Foods::new();
    assert_eq!(s.advance(&mut foods, &vec![], &field()), AdvanceResult::Success);
    assert_eq!(s.advance(&mut foods, &vec![], &field()), AdvanceResult::OutOfBounds);
}

#[test]
fn bites_itself_but_not_its_tail_tip() {
    // a square loop: the head moves onto the tail tip, which vacates
    let mut s = snake(&[(0, 0), (1, 0), (1, 1), (0, 1)], Direction::Down);
    let mut foods = Foods::new();
    assert_eq!(s.advance(&mut foods, &vec![], &field()), AdvanceResult::Success);
    let mut s = snake(&[(0, 0), (1, 0), (1, 1), (0, 1), (-1, 1)], Direction::Down);
    assert_eq!(s.advance(&mut foods, &vec![], &field()), AdvanceResult::BitYaSelf);
}

#[test]
fn single_cell_snake_cannot_bite_itself() {
    let mut s = snake(&[(0, 0)], Direction::Left);
    let mut foods = Foods::new();
    assert_eq!(s.advance(&mut foods, &vec![], &field()), AdvanceResult::Success);
    assert_eq!(cells(&s), vec![(-1, 0)]);
}

#[test]
fn bites_someone() {
    let mut s = snake(&[(0, 0)], Direction::Right);
    let other = snake(&[(1, 1), (1, 0), (1, -1)], Direction::Up);
    let mut foods = Foods::new();
    assert_eq!(s.advance(&mut foods, &vec![other], &field()), AdvanceResult::BitSomeone);
}

#[test]
fn reversal_is_refused() {
    let mut s = snake(&[(0, 0), (0, 1)], Direction::Up);
    assert!(s.set_direction(Direction::Down).is_err());
    assert_eq!(s.direction, Direction::Up);
    assert!(s.set_direction(Direction::Left).is_ok());
    assert_eq!(s.direction, Direction::Left);
}

#[test]
fn foods_hold_no_repeats() {
    let mut f = Foods::new();
    f.insert(Pos::new(1, 1));
    f.insert(Pos::new(1, 1));
    f.insert(Pos::new(2, 1));
    assert_eq!(f.count(), 2);
    f.remove(&Pos::new(1, 1));
    assert_eq!(f.count(), 1);
    assert!(f.contains(&Pos::new(2, 1)));
}

#[test]
fn food_trace_covers_every_cell() {
    let s = snake(&[(0, 0), (0, 1), (0, 2)], Direction::Up);
    let mut f = Foods::new();
    f.insert(Pos::new(0, 1));
    leave_food_trace(&s, &mut f);
    assert_eq!(f.count(), 3);
    for p in s.iter_vertices() {
        assert!(f.contains(&p));
    }
}

#[test]
fn stamp_keeps_cells_strictly_inside() {
    let b = field();
    let mut f = Foods::new();
    f.stamp(Figure::Cross, -1, -1, &b);
    assert_eq!(f.count(), 5);
    assert!(f.contains(&Pos::new(0, -1)));
    assert!(!f.contains(&Pos::new(-1, -1)));
    let mut g = Foods::new();
    g.stamp(Figure::Block, -6, -6, &b);
    assert_eq!(g.count(), 1);
    assert!(g.contains(&Pos::new(-5, -5)));
}

#[test]
fn figures_have_their_sizes() {
    assert_eq!(Figure::all().len(), 5);
    assert_eq!((Figure::LineH.x_dim(), Figure::LineH.y_dim()), (3, 1));
    assert_eq!((Figure::LineV.x_dim(), Figure::LineV.y_dim()), (1, 3));
    assert!(Figure::Cross.is_food(1, 0));
    assert!(!Figure::Cross.is_food(0, 0));
    assert!(!Figure::Dot.is_food(1, 0));
}
