use snake::game::{Cell, MovementDirection, Plane, FOOD_SAMPLES};

fn coords(plane: &Plane) -> Vec<(usize, usize)> {
    plane.snake.iter().map(|cell| (cell.x, cell.y)).collect()
}

#[test]
fn it_places_food_inside_plane() {
    let cell = Cell::random(20 - 1, 20 - 1);

    assert!(cell.x < 20);
    assert!(cell.y < 20);
}

#[test]
fn it_shifts_body_parts_right() {
    let mut plane = Plane::new(20, 20);

    plane.move_to(&MovementDirection::Right);

    assert_eq!(plane.snake[1].x, 2);
    assert_eq!(plane.snake[1].y, 0);
    assert_eq!(plane.snake[2].x, 1);
    assert_eq!(plane.snake[2].y, 0);
}

#[test]
fn it_increases_head_x_when_direction_is_right() {
    let mut plane = Plane::new(20, 20);

    plane.move_to(&MovementDirection::Right);

    assert_eq!(plane.snake[0].x, 3);
    assert_eq!(plane.snake[0].y, 0);
}

#[test]
fn it_decreases_head_x_when_direction_is_left() {
    let mut plane = Plane::new(20, 20);

    plane.move_to(&MovementDirection::Left);

    assert_eq!(plane.snake[0].x, 1);
    assert_eq!(plane.snake[0].y, 0);
}

#[test]
fn it_updates_head_direction_with_the_specified_one() {
    let mut plane = Plane::new(20, 20);

    plane.move_to(&MovementDirection::Down);

    assert_eq!(&plane.snake[0].direction, &MovementDirection::Down);
}

#[test]
fn game_it_places_food_inside_plane() {
    let mut plane = Plane::new(20, 20);

    plane.randomize_food();

    assert!(plane.food.x < 20);
    assert!(plane.food.y < 20);
}

#[test]
fn it_picks_any_place_except_where_snake_is() {
    let mut plane = Plane::new(20, 20);

    plane.randomize_food();

    assert!(!vec![(0, 0), (1, 0), (2, 0)].contains(&(plane.food.x, plane.food.y)));
}

#[test]
fn it_returns_true_when_snake_head_coordinates_match_food_coordinates() {
    let mut plane = Plane::new(20, 20);
    plane.food = Cell::new(5, 5, MovementDirection::Up);
    plane.snake[0] = plane.food.clone();

    assert_eq!(plane.head_on_food(), true);
}

#[test]
fn it_returns_false_when_snake_head_coordinates_match_food_coordinates() {
    let mut plane = Plane::new(20, 20);
    plane.food = Cell::new(5, 5, MovementDirection::Up);
    plane.snake[0] = Cell::new(0, 0, MovementDirection::Up);

    assert_eq!(plane.head_on_food(), false);
}

#[test]
fn it_appends_food_to_snake_body() {
    let mut plane = Plane::new(20, 20);
    plane.food = Cell::new(5, 6, MovementDirection::Up);

    plane.eat_food();

    let last_part = plane.snake.last().unwrap();
    assert_eq!(last_part.x, 5);
    assert_eq!(last_part.y, 6);
}

#[test]
fn new_plane_holds_the_start_snake() {
    let plane = Plane::new(20, 20);

    assert_eq!(plane.width, 20);
    assert_eq!(plane.height, 20);
    assert_eq!(coords(&plane), vec![(2, 0), (1, 0), (0, 0)]);
    for cell in &plane.snake {
        assert_eq!(cell.direction, MovementDirection::Right);
    }
    assert!(plane.is_valid());
    assert!(!plane.on_snake(plane.food.x, plane.food.y));
}

#[test]
fn random_cell_stays_within_its_limits() {
    for _ in 0..200 {
        let cell = Cell::random(3, 0);
        assert!(cell.x <= 3);
        assert_eq!(cell.y, 0);
        assert_eq!(cell.direction, MovementDirection::Right);
    }
    let corner = Cell::random(0, 0);
    assert_eq!((corner.x, corner.y), (0, 0));
}

#[test]
fn random_cell_reaches_every_column() {
    let mut seen = [false; 4];
    for _ in 0..2000 {
        seen[Cell::random(3, 0).x] = true;
    }
    assert_eq!(seen, [true; 4]);
}

#[test]
fn move_right_shifts_the_whole_snake() {
    let mut plane = Plane::new(20, 20);
    plane.food = Cell::new(10, 10, MovementDirection::Right);

    plane.move_to(&MovementDirection::Right);

    assert_eq!(coords(&plane), vec![(3, 0), (2, 0), (1, 0)]);
}

#[test]
fn move_left_goes_back_onto_the_neck() {
    let mut plane = Plane::new(20, 20);
    plane.food = Cell::new(10, 10, MovementDirection::Right);

    plane.move_to(&MovementDirection::Left);

    assert_eq!(coords(&plane), vec![(1, 0), (2, 0), (1, 0)]);
    assert_eq!(plane.snake[0].direction, MovementDirection::Left);
}

#[test]
fn move_left_wraps_at_column_zero() {
    let mut plane = Plane::new(20, 20);
    plane.food = Cell::new(10, 10, MovementDirection::Right);
    plane.snake[0] = Cell::new(0, 0, MovementDirection::Left);

    plane.move_to(&MovementDirection::Left);

    assert_eq!((plane.snake[0].x, plane.snake[0].y), (19, 0));
    assert_eq!((plane.snake[1].x, plane.snake[1].y), (0, 0));
}

#[test]
fn move_right_wraps_at_the_last_column() {
    let mut plane = Plane::new(20, 20);
    plane.food = Cell::new(10, 10, MovementDirection::Right);
    plane.snake[0] = Cell::new(19, 7, MovementDirection::Right);

    plane.move_to(&MovementDirection::Right);

    assert_eq!((plane.snake[0].x, plane.snake[0].y), (0, 7));
}

#[test]
fn move_up_wraps_at_row_zero() {
    let mut plane = Plane::new(20, 12);
    plane.food = Cell::new(10, 10, MovementDirection::Right);

    plane.move_to(&MovementDirection::Up);

    assert_eq!((plane.snake[0].x, plane.snake[0].y), (2, 11));
    assert_eq!(plane.snake[0].direction, MovementDirection::Up);
}

#[test]
fn move_down_wraps_at_the_last_row() {
    let mut plane = Plane::new(20, 12);
    plane.food = Cell::new(10, 10, MovementDirection::Right);
    plane.snake[0] = Cell::new(4, 11, MovementDirection::Down);

    plane.move_to(&MovementDirection::Down);

    assert_eq!((plane.snake[0].x, plane.snake[0].y), (4, 0));
}

#[test]
fn move_down_and_up_step_by_one_inside_the_plane() {
    let mut plane = Plane::new(20, 20);
    plane.food = Cell::new(10, 10, MovementDirection::Right);

    plane.move_to(&MovementDirection::Down);
    assert_eq!(coords(&plane), vec![(2, 1), (2, 0), (1, 0)]);

    plane.move_to(&MovementDirection::Down);
    assert_eq!(coords(&plane), vec![(2, 2), (2, 1), (2, 0)]);

    plane.move_to(&MovementDirection::Up);
    assert_eq!(coords(&plane), vec![(2, 1), (2, 2), (2, 1)]);
}

#[test]
fn a_step_changes_one_coordinate_by_one_on_the_ring() {
    let directions = [
        MovementDirection::Left,
        MovementDirection::Right,
        MovementDirection::Up,
        MovementDirection::Down,
    ];
    for &(x, y) in &[(0usize, 0usize), (6, 0), (0, 4), (6, 4), (3, 2)] {
        for direction in &directions {
            let mut plane = Plane::new(7, 5);
            plane.snake = vec![Cell::new(x, y, MovementDirection::Right)];
            plane.food = Cell::new((x + 3) % 7, (y + 2) % 5, MovementDirection::Right);

            plane.move_to(direction);

            let head = plane.snake[0];
            let expected = match direction {
                MovementDirection::Left => ((x + 6) % 7, y),
                MovementDirection::Right => ((x + 1) % 7, y),
                MovementDirection::Up => (x, (y + 4) % 5),
                MovementDirection::Down => (x, (y + 1) % 5),
            };
            assert_eq!((head.x, head.y), expected);
            assert_eq!(head.direction, *direction);
        }
    }
}

#[test]
fn the_snake_keeps_its_length_away_from_food() {
    let mut plane = Plane::new(20, 20);
    plane.food = Cell::new(10, 10, MovementDirection::Up);

    plane.move_to(&MovementDirection::Right);

    assert_eq!(plane.snake.len(), 3);
    assert_eq!((plane.food.x, plane.food.y), (10, 10));
    assert_eq!(plane.food.direction, MovementDirection::Up);
}

#[test]
fn the_snake_grows_by_the_food_it_reaches() {
    let mut plane = Plane::new(20, 20);
    plane.food = Cell::new(3, 0, MovementDirection::Up);

    plane.move_to(&MovementDirection::Right);

    assert_eq!(plane.snake.len(), 4);
    assert_eq!(coords(&plane), vec![(3, 0), (2, 0), (1, 0), (3, 0)]);
    assert_eq!(plane.snake[3].direction, MovementDirection::Up);
    assert!(plane.food.x < 20 && plane.food.y < 20);
    assert!(!coords(&plane).contains(&(plane.food.x, plane.food.y)));
    assert!(plane.is_valid());
}

#[test]
fn the_snake_grows_when_it_wraps_onto_food() {
    let mut plane = Plane::new(20, 20);
    plane.snake[0] = Cell::new(0, 5, MovementDirection::Left);
    plane.food = Cell::new(19, 5, MovementDirection::Right);

    plane.move_to(&MovementDirection::Left);

    assert_eq!(plane.snake.len(), 4);
    assert_eq!((plane.snake[0].x, plane.snake[0].y), (19, 5));
    assert_eq!((plane.snake[3].x, plane.snake[3].y), (19, 5));
}

#[test]
fn eaten_food_moves_off_the_snake() {
    for _ in 0..50 {
        let mut plane = Plane::new(20, 20);
        let before = coords(&plane);
        plane.food = Cell::new(5, 6, MovementDirection::Up);

        plane.eat_food();

        assert_eq!(plane.snake.len(), 4);
        assert_eq!((plane.snake[3].x, plane.snake[3].y), (5, 6));
        assert_ne!((plane.food.x, plane.food.y), (5, 6));
        assert!(!before.contains(&(plane.food.x, plane.food.y)));
        assert!(plane.food.x < 20 && plane.food.y < 20);
    }
}

#[test]
fn randomized_food_is_on_the_plane_and_off_the_snake() {
    let mut plane = Plane::new(5, 4);
    for _ in 0..300 {
        plane.randomize_food();
        assert!(plane.food.x < 5);
        assert!(plane.food.y < 4);
        assert!(!plane.on_snake(plane.food.x, plane.food.y));
        assert_eq!(plane.food.direction, MovementDirection::Right);
    }
    assert_eq!(coords(&plane), vec![(2, 0), (1, 0), (0, 0)]);
}

#[test]
fn randomized_food_finds_the_only_free_cell() {
    for _ in 0..20 {
        let plane = Plane::new(4, 1);
        assert_eq!((plane.food.x, plane.food.y), (3, 0));
    }
    let mut plane = Plane::new(3, 2);
    plane.snake.push(Cell::new(0, 1, MovementDirection::Right));
    plane.snake.push(Cell::new(2, 1, MovementDirection::Right));
    for _ in 0..20 {
        plane.randomize_food();
        assert_eq!((plane.food.x, plane.food.y), (1, 1));
    }
}

#[test]
fn randomized_food_finds_a_free_cell_on_a_crowded_plane() {
    let mut plane = Plane::new(40, 40);
    plane.snake.clear();
    for y in 0..40 {
        for x in 0..40 {
            if (x, y) != (17, 23) && (x, y) != (39, 39) {
                plane.snake.push(Cell::new(x, y, MovementDirection::Right));
            }
        }
    }
    plane.food = Cell::new(0, 0, MovementDirection::Right);
    assert!(FOOD_SAMPLES < 40 * 40);

    for _ in 0..10 {
        plane.randomize_food();
        let food = (plane.food.x, plane.food.y);
        assert!(food == (17, 23) || food == (39, 39));
    }
}

#[test]
fn randomized_food_stays_where_the_plane_is_full() {
    let mut plane = Plane::new(3, 1);
    let food = (plane.food.x, plane.food.y);
    assert!(food.0 < 3 && food.1 == 0);

    plane.randomize_food();

    assert_eq!((plane.food.x, plane.food.y), food);
    assert_eq!(plane.first_free_cell(), None);
}

#[test]
fn first_free_cell_reads_the_plane_row_by_row() {
    let mut plane = Plane::new(4, 3);
    assert_eq!(plane.first_free_cell(), Some((3, 0)));

    plane.snake.push(Cell::new(3, 0, MovementDirection::Right));
    assert_eq!(plane.first_free_cell(), Some((0, 1)));

    plane.snake.push(Cell::new(0, 1, MovementDirection::Right));
    plane.snake.push(Cell::new(1, 1, MovementDirection::Right));
    assert_eq!(plane.first_free_cell(), Some((2, 1)));
}

#[test]
fn place_food_takes_free_cells_of_the_plane_only() {
    let mut plane = Plane::new(20, 20);
    plane.food = Cell::new(9, 9, MovementDirection::Up);

    assert!(!plane.place_food(Cell::new(1, 0, MovementDirection::Left)));
    assert_eq!((plane.food.x, plane.food.y), (9, 9));

    assert!(!plane.place_food(Cell::new(20, 0, MovementDirection::Left)));
    assert!(!plane.place_food(Cell::new(0, 20, MovementDirection::Left)));
    assert_eq!((plane.food.x, plane.food.y), (9, 9));

    assert!(plane.place_food(Cell::new(3, 0, MovementDirection::Left)));
    assert_eq!((plane.food.x, plane.food.y), (3, 0));
    assert_eq!(plane.food.direction, MovementDirection::Left);
}

#[test]
fn on_snake_tells_covered_cells_from_free_ones() {
    let plane = Plane::new(20, 20);

    assert!(plane.on_snake(0, 0));
    assert!(plane.on_snake(1, 0));
    assert!(plane.on_snake(2, 0));
    assert!(!plane.on_snake(3, 0));
    assert!(!plane.on_snake(0, 1));
}

#[test]
fn is_valid_rejects_cells_off_the_plane() {
    let mut plane = Plane::new(20, 20);
    assert!(plane.is_valid());

    plane.snake[1] = Cell::new(20, 0, MovementDirection::Right);
    assert!(!plane.is_valid());

    plane.snake[1] = Cell::new(1, 0, MovementDirection::Right);
    plane.food = Cell::new(0, 20, MovementDirection::Right);
    assert!(!plane.is_valid());

    plane.food = Cell::new(0, 19, MovementDirection::Right);
    plane.snake.clear();
    assert!(!plane.is_valid());
}
