use snake::control::{command_for_key, steer, Command};
use snake::game::MovementDirection;

#[test]
fn the_four_keys_steer() {
    assert_eq!(command_for_key(b'h'), Command::Steer(MovementDirection::Left));
    assert_eq!(command_for_key(b'j'), Command::Steer(MovementDirection::Down));
    assert_eq!(command_for_key(b'k'), Command::Steer(MovementDirection::Up));
    assert_eq!(command_for_key(b'l'), Command::Steer(MovementDirection::Right));
}

#[test]
fn q_quits_and_other_keys_mean_nothing() {
    assert_eq!(command_for_key(b'q'), Command::Quit);
    assert_eq!(command_for_key(b'Q'), Command::Ignore);
    assert_eq!(command_for_key(0), Command::Ignore);
    assert_eq!(command_for_key(b'x'), Command::Ignore);
    assert_eq!(command_for_key(255), Command::Ignore);
}

#[test]
fn steering_keeps_the_course_on_unknown_keys() {
    assert_eq!(steer(MovementDirection::Down, b'l'), Some(MovementDirection::Right));
    assert_eq!(steer(MovementDirection::Down, b'h'), Some(MovementDirection::Left));
    assert_eq!(steer(MovementDirection::Left, b'l'), Some(MovementDirection::Right));
    assert_eq!(steer(MovementDirection::Down, 0), Some(MovementDirection::Down));
    assert_eq!(steer(MovementDirection::Up, b'z'), Some(MovementDirection::Up));
    assert_eq!(steer(MovementDirection::Up, b'q'), None);
}
