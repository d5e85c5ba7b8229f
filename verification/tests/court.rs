use kabaddi_raid::actor_units::court::{Court, LENGTH_WITHOUT_LOBBY, LENGTH_WITH_LOBBY};
use kabaddi_raid::actor_units::player::Player;

fn at(x: i32, y: i32) -> Player {
    Player::new(0, 1750, 70000, (x, y), false)
}

#[test]
fn default_court_has_the_standard_extents() {
    let court = Court::default();
    assert_eq!(court.width_x, 8000);
    assert_eq!(court.height_y, 10000);
    assert_eq!(court.width_z, 6500);
    assert_eq!(LENGTH_WITHOUT_LOBBY, 8000);
    assert_eq!(LENGTH_WITH_LOBBY, 10000);
}

#[test]
fn behind_the_baseline_is_out_of_bounds() {
    let court = Court::default();
    assert!(court.is_out_of_bounds(at(-1, 0)));
    assert!(court.is_out_of_bounds(at(-1000, 3000)));
    assert!(court.is_out_of_bounds(at(i32::MIN, 0)));
}

#[test]
fn the_far_end_is_out_of_bounds() {
    let court = Court::default();
    assert!(!court.is_out_of_bounds(at(7999, 0)));
    assert!(court.is_out_of_bounds(at(8000, 0)));
    assert!(court.is_out_of_bounds(at(8001, 0)));
    assert!(court.is_out_of_bounds(at(i32::MAX, 0)));
}

#[test]
fn the_bound_across_is_the_width_not_the_height() {
    let court = Court::default();
    assert!(!court.is_out_of_bounds(at(4000, 6500)));
    assert!(court.is_out_of_bounds(at(4000, 6501)));
    assert!(court.is_out_of_bounds(at(4000, 9000)));
    assert!(court.is_out_of_bounds(at(4000, 10000)));
}

#[test]
fn there_is_no_bound_on_the_near_side() {
    let court = Court::default();
    assert!(!court.is_out_of_bounds(at(4000, -1)));
    assert!(!court.is_out_of_bounds(at(0, i32::MIN)));
}

#[test]
fn inside_the_court_is_in_bounds() {
    let court = Court::default();
    let mut x = 0;
    while x < 8000 {
        let mut y = -2000;
        while y <= 6500 {
            assert!(!court.is_out_of_bounds(at(x, y)), "({x}, {y})");
            y += 500;
        }
        x += 250;
    }
}

#[test]
fn out_of_bounds_looks_at_the_position_only() {
    let court = Court::default();
    let struggling = Player::new(9, 0, 0, (3000, 3000), true);
    assert!(!court.is_out_of_bounds(struggling));
}

#[test]
fn the_lobby_lengthens_the_court() {
    let mut court = Court::default();
    assert!(court.is_out_of_bounds(at(9000, 0)));
    court.enable_lobby();
    assert_eq!(court.width_x, 10000);
    assert_eq!(court.height_y, 10000);
    assert_eq!(court.width_z, 6500);
    assert!(!court.is_out_of_bounds(at(9000, 0)));
    assert!(!court.is_out_of_bounds(at(9999, 0)));
    assert!(court.is_out_of_bounds(at(10000, 0)));
    court.disable_lobby();
    assert_eq!(court.width_x, 8000);
    assert_eq!(court.height_y, 10000);
    assert_eq!(court.width_z, 6500);
    assert!(court.is_out_of_bounds(at(9000, 0)));
}

#[test]
fn toggling_the_lobby_twice_is_toggling_it_once() {
    let mut court = Court::default();
    court.enable_lobby();
    court.enable_lobby();
    assert_eq!(court.width_x, 10000);
    court.disable_lobby();
    court.disable_lobby();
    assert_eq!(court.width_x, 8000);
}

#[test]
fn a_raid_succeeds_behind_the_baseline_while_struggling() {
    let court = Court::default();
    assert!(court.is_raid_successful((-1, 0), true));
    assert!(court.is_raid_successful((-5000, 4000), true));
    assert!(!court.is_raid_successful((-1, 0), false));
    assert!(!court.is_raid_successful((0, 0), true));
    assert!(!court.is_raid_successful((0, 0), false));
    assert!(!court.is_raid_successful((3000, 0), true));
    assert!(!court.is_raid_successful((3000, 0), false));
}

#[test]
fn a_successful_raider_is_out_of_bounds() {
    let court = Court::default();
    let raider = Player::new(0, 1750, 70000, (-1000, 2000), true);
    assert!(court.is_raid_successful(raider.position, raider.is_struggling));
    assert!(court.is_out_of_bounds(raider));
}
