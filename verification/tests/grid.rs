use gridworld::cell::{calculate_grid_id, floor_div, is_player_grid_change};

#[test]
fn test_grid() {
    let x = 1;
    let y = 1;
    let (x_n, y_n) = calculate_grid_id(x, y, 20);
    println!("x:{} x_n:{}|y:{} y_n:{}", x, x_n, y, y_n);
    let x = 20;
    let y = 20;
    let (x_n, y_n) = calculate_grid_id(x, y, 20);
    println!("x:{} x_n:{}|y:{} y_n:{}", x, x_n, y, y_n);
}

#[test]
fn cell_of_is_the_floor() {
    assert_eq!(calculate_grid_id(0, 0, 20), (0, 0));
    assert_eq!(calculate_grid_id(19, 19, 20), (0, 0));
    assert_eq!(calculate_grid_id(20, 39, 20), (1, 1));
    // negative coordinates floor toward the next cell down
    assert_eq!(calculate_grid_id(-1, -20, 20), (-1, -1));
    assert_eq!(calculate_grid_id(-21, -40, 20), (-2, -2));
    assert_eq!(floor_div(i32::MIN, 1), i32::MIN);
    assert_eq!(floor_div(i32::MAX, 1), i32::MAX);
    assert_eq!(floor_div(-7, 3), -3);
    assert_eq!(floor_div(7, 3), 2);
}

#[test]
fn grid_change_is_cell_inequality() {
    assert!(!is_player_grid_change((5, 5), (19, 0), 20));
    assert!(is_player_grid_change((5, 5), (25, 5), 20));
    assert!(is_player_grid_change((0, 0), (-1, 0), 20));
}
