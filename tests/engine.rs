use snake::{opposite_of, resolve, Board, Direction, Point, Status};

fn pt(x: u32, y: u32) -> Point {
    Point { x, y }
}

fn board(w: u32, h: u32, snake: Vec<Point>, foods: Vec<Point>) -> Board {
    Board::from_parts(w, h, snake, foods).expect("valid state")
}

const ALL: [Direction; 4] = [Direction::Up, Direction::Down, Direction::Left, Direction::Right];

#[test]
fn opposite_directions() {
    assert_eq!(opposite_of(Direction::Up), Direction::Down);
    assert_eq!(opposite_of(Direction::Down), Direction::Up);
    assert_eq!(opposite_of(Direction::Left), Direction::Right);
    assert_eq!(opposite_of(Direction::Right), Direction::Left);
}

#[test]
fn reversal_is_suppressed() {
    for h in ALL {
        assert_eq!(resolve(Some(opposite_of(h)), h), h);
    }
}

#[test]
fn other_inputs_are_taken() {
    assert_eq!(resolve(Some(Direction::Up), Direction::Right), Direction::Up);
    assert_eq!(resolve(Some(Direction::Down), Direction::Left), Direction::Down);
    assert_eq!(resolve(Some(Direction::Right), Direction::Right), Direction::Right);
    assert_eq!(resolve(None, Direction::Left), Direction::Left);
}

#[test]
fn new_board_is_empty() {
    let b = Board::new(7, 9);
    assert_eq!(b.width(), 7);
    assert_eq!(b.height(), 9);
    assert!(b.snake().is_empty());
    assert!(b.foods().is_empty());
}

fn check_initialized(w: u32, h: u32) {
    let mut b = Board::new(w, h);
    assert!(b.initialize());
    assert_eq!(b.snake(), &[pt(2, 3), pt(2, 2)]);
    let foods = b.foods();
    assert_eq!(foods.len() as u32, w * h / 10 - 1);
    for (i, f) in foods.iter().enumerate() {
        assert!(f.x < w && f.y < h);
        assert!(!b.snake().contains(f));
        assert!(!foods[i + 1..].contains(f));
    }
}

#[test]
fn initialize_seeds_snake_and_food() {
    check_initialized(4, 4);
    check_initialized(10, 10);
    check_initialized(80, 24);
    check_initialized(5, 7);
}

#[test]
fn initialize_on_smallest_grid_places_no_food() {
    let mut b = Board::new(3, 4);
    assert!(b.initialize());
    assert_eq!(b.snake().len(), 2);
    assert_eq!(b.foods().len(), 0);
}

#[test]
fn initialize_refuses_small_grid() {
    let mut b = Board::new(2, 10);
    assert!(!b.initialize());
    assert!(b.snake().is_empty());
    let mut b = Board::new(10, 3);
    assert!(!b.initialize());
    assert!(b.foods().is_empty());
}

#[test]
fn initialize_resets_a_running_game() {
    let mut b = board(10, 10, vec![pt(5, 5), pt(5, 6), pt(5, 7)], vec![pt(0, 0)]);
    assert!(b.initialize());
    assert_eq!(b.snake(), &[pt(2, 3), pt(2, 2)]);
    assert_eq!(b.foods().len(), 9);
}

#[test]
fn move_right_on_five_by_five() {
    let mut b = board(5, 5, vec![pt(2, 2), pt(2, 3)], vec![]);
    assert_eq!(b.move_snake(Direction::Right), Status::Success);
    assert_eq!(b.snake(), &[pt(3, 2), pt(2, 2)]);
    assert!(b.foods().is_empty());
}

#[test]
fn up_from_top_row_terminates() {
    let mut b = board(5, 5, vec![pt(2, 0), pt(2, 1)], vec![pt(4, 4)]);
    assert_eq!(b.move_snake(Direction::Up), Status::Failure);
    assert_eq!(b.snake(), &[pt(2, 0), pt(2, 1)]);
    assert_eq!(b.foods(), &[pt(4, 4)]);
}

#[test]
fn leaving_each_edge_terminates() {
    let mut b = board(3, 3, vec![pt(0, 0)], vec![]);
    assert_eq!(b.move_snake(Direction::Left), Status::Failure);
    let mut b = board(3, 3, vec![pt(2, 2)], vec![]);
    assert_eq!(b.move_snake(Direction::Right), Status::Failure);
    assert_eq!(b.move_snake(Direction::Down), Status::Failure);
    assert_eq!(b.snake(), &[pt(2, 2)]);
}

#[test]
fn interior_head_never_leaves_grid() {
    for h in ALL {
        let mut b = board(5, 5, vec![pt(2, 2)], vec![]);
        assert_eq!(b.move_snake(h), Status::Success);
        assert_eq!(b.snake().len(), 1);
    }
}

#[test]
fn plain_move_keeps_length() {
    let mut b = board(6, 6, vec![pt(2, 2), pt(2, 3), pt(2, 4)], vec![pt(5, 5)]);
    assert_eq!(b.move_snake(Direction::Left), Status::Success);
    assert_eq!(b.snake(), &[pt(1, 2), pt(2, 2), pt(2, 3)]);
    assert_eq!(b.move_snake(Direction::Up), Status::Success);
    assert_eq!(b.snake(), &[pt(1, 1), pt(1, 2), pt(2, 2)]);
    assert_eq!(b.foods(), &[pt(5, 5)]);
}

#[test]
fn eating_grows_and_replaces_food() {
    let mut b = board(5, 5, vec![pt(2, 2), pt(2, 3)], vec![pt(0, 0), pt(3, 2), pt(4, 4)]);
    assert_eq!(b.move_snake(Direction::Right), Status::Success);
    assert_eq!(b.snake(), &[pt(3, 2), pt(2, 2), pt(2, 3)]);
    let foods = b.foods();
    assert_eq!(foods.len(), 3);
    assert_eq!(&foods[..2], &[pt(0, 0), pt(4, 4)]);
    let fresh = foods[2];
    assert!(fresh.x < 5 && fresh.y < 5);
    assert_ne!(fresh, pt(3, 2));
    assert!(!b.snake().contains(&fresh));
    assert!(fresh != pt(0, 0) && fresh != pt(4, 4));
}

#[test]
fn eating_on_a_full_grid_places_nothing() {
    let mut b = board(2, 1, vec![pt(0, 0)], vec![pt(1, 0)]);
    assert_eq!(b.move_snake(Direction::Right), Status::Success);
    assert_eq!(b.snake(), &[pt(1, 0), pt(0, 0)]);
    assert!(b.foods().is_empty());
}

#[test]
fn eating_with_one_free_cell_finds_it() {
    let mut b = board(3, 1, vec![pt(0, 0)], vec![pt(1, 0)]);
    assert_eq!(b.move_snake(Direction::Right), Status::Success);
    assert_eq!(b.snake(), &[pt(1, 0), pt(0, 0)]);
    assert_eq!(b.foods(), &[pt(2, 0)]);
}

#[test]
fn running_into_body_terminates() {
    let snake = vec![pt(2, 2), pt(2, 1), pt(3, 1), pt(3, 2)];
    let mut b = board(5, 5, snake.clone(), vec![pt(0, 4)]);
    assert_eq!(b.move_snake(Direction::Up), Status::Failure);
    assert_eq!(b.snake(), snake.as_slice());
    assert_eq!(b.foods(), &[pt(0, 4)]);
}

#[test]
fn running_into_tail_terminates() {
    let snake = vec![pt(2, 2), pt(3, 2), pt(3, 3), pt(2, 3)];
    let mut b = board(5, 5, snake.clone(), vec![]);
    assert_eq!(b.move_snake(Direction::Down), Status::Failure);
    assert_eq!(b.snake(), snake.as_slice());
}

#[test]
fn add_new_food_on_full_grid_fails() {
    let mut b = board(2, 2, vec![pt(0, 0), pt(1, 0)], vec![pt(0, 1), pt(1, 1)]);
    assert!(!b.add_new_food());
    assert_eq!(b.foods().len(), 2);
    let mut b = board(2, 2, vec![pt(0, 0), pt(1, 0)], vec![pt(0, 1)]);
    assert!(b.add_new_food());
    assert_eq!(b.foods(), &[pt(0, 1), pt(1, 1)]);
}

#[test]
fn random_cells_stay_on_grid() {
    let b = Board::new(3, 2);
    for _ in 0..200 {
        let c = b.create_random_cell();
        assert!(c.x < 3 && c.y < 2);
    }
}

#[test]
fn next_move_reports_edges() {
    let b = board(4, 4, vec![pt(0, 3)], vec![]);
    assert_eq!(b.next_move(Direction::Left), Err(()));
    assert_eq!(b.next_move(Direction::Down), Err(()));
    assert_eq!(b.next_move(Direction::Up), Ok(pt(0, 2)));
    assert_eq!(b.next_move(Direction::Right), Ok(pt(1, 3)));
}

#[test]
fn invalid_states_are_refused() {
    assert!(Board::from_parts(0, 5, vec![], vec![]).is_none());
    assert!(Board::from_parts(5, 0, vec![], vec![]).is_none());
    assert!(Board::from_parts(5, 5, vec![pt(5, 0)], vec![]).is_none());
    assert!(Board::from_parts(5, 5, vec![pt(1, 1)], vec![pt(0, 5)]).is_none());
    assert!(Board::from_parts(5, 5, vec![pt(1, 1), pt(1, 1)], vec![]).is_none());
    assert!(Board::from_parts(5, 5, vec![pt(1, 1)], vec![pt(2, 2), pt(2, 2)]).is_none());
    assert!(Board::from_parts(5, 5, vec![pt(1, 1), pt(1, 2)], vec![pt(1, 2)]).is_none());
    assert!(Board::from_parts(5, 5, vec![pt(1, 1), pt(1, 2)], vec![pt(2, 2)]).is_some());
}

#[test]
fn draws_are_reduced_modulo_grid_size() {
    let b = Board::new(5, 3);
    assert_eq!(b.cell_from_draws(7, 8), pt(2, 2));
    assert_eq!(b.cell_from_draws(0, 0), pt(0, 0));
    assert_eq!(b.cell_from_draws(4, 2), pt(4, 2));
    assert_eq!(b.cell_from_draws(u32::MAX, u32::MAX), pt(0, 0));
}

#[test]
fn try_place_takes_only_free_cells() {
    let mut b = board(5, 3, vec![pt(1, 1)], vec![]);
    assert!(b.try_place(7, 8));
    assert_eq!(b.foods(), &[pt(2, 2)]);
    assert!(!b.try_place(12, 5));
    assert!(!b.try_place(6, 4));
    assert_eq!(b.foods(), &[pt(2, 2)]);
    assert_eq!(b.snake(), &[pt(1, 1)]);
    assert!(b.try_place(3, 0));
    assert_eq!(b.foods(), &[pt(2, 2), pt(3, 0)]);
}
