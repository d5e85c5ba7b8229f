use kabaddi_raid::actor_units::player::{entry, Player, INVALID_CONFIGURATION, MAX_ANTIS, MIN_ANTIS};

#[test]
fn new_keeps_what_it_is_given() {
    let p = Player::new(3, 1800, 75000, (1500, -200), true);
    assert_eq!(p.id, 3);
    assert_eq!(p.height, 1800);
    assert_eq!(p.weight, 75000);
    assert_eq!(p.position, (1500, -200));
    assert!(p.is_struggling);
}

#[test]
fn default_player_is_all_zero() {
    let p = Player::default();
    assert_eq!(p.id, 0);
    assert_eq!(p.height, 0);
    assert_eq!(p.weight, 0);
    assert_eq!(p.position, (0, 0));
    assert!(!p.is_struggling);
}

#[test]
fn only_who_is_not_struggling_can_struggle() {
    assert!(Player::new(0, 1750, 70000, (0, 0), false).can_struggle());
    assert!(!Player::new(0, 1750, 70000, (0, 0), true).can_struggle());
}

#[test]
fn near_boundary_is_within_a_metre_of_the_reference_rectangle() {
    let at = |x: i32, y: i32| Player::new(0, 1750, 70000, (x, y), false);
    assert!(!at(5000, 5000).is_near_boundary());
    assert!(!at(1001, 1001).is_near_boundary());
    assert!(!at(18999, 8999).is_near_boundary());
    assert!(at(1000, 5000).is_near_boundary());
    assert!(at(0, 5000).is_near_boundary());
    assert!(at(-3000, 5000).is_near_boundary());
    assert!(at(19000, 5000).is_near_boundary());
    assert!(at(25000, 5000).is_near_boundary());
    assert!(at(5000, 1000).is_near_boundary());
    assert!(at(5000, -1).is_near_boundary());
    assert!(at(5000, 9000).is_near_boundary());
    assert!(at(5000, 12000).is_near_boundary());
}

#[test]
fn near_boundary_does_not_follow_the_court() {
    // Twelve metres along is far outside an eight metre court, and still
    // not near the edge of the reference rectangle.
    let p = Player::new(0, 1750, 70000, (12000, 5000), false);
    assert!(!p.is_near_boundary());
}

#[test]
fn capture_takes_height_and_weight() {
    assert!(Player::new(0, 1700, 60000, (0, 0), false).can_capture());
    assert!(Player::new(0, 1750, 70000, (0, 0), false).can_capture());
    assert!(!Player::new(0, 1699, 60000, (0, 0), false).can_capture());
    assert!(!Player::new(0, 1700, 59999, (0, 0), false).can_capture());
    assert!(!Player::new(0, 1600, 50000, (0, 0), false).can_capture());
}

#[test]
fn equality_is_identity_and_position() {
    let a = Player::new(1, 1750, 70000, (1000, 2000), false);
    let b = Player::new(1, 1600, 50000, (1000, 2000), true);
    let moved = Player::new(1, 1750, 70000, (1000, 3000), false);
    let other = Player::new(2, 1750, 70000, (1000, 2000), false);
    assert!(a == b);
    assert!(a != moved);
    assert!(a != other);
}

#[test]
fn entry_refuses_no_antis_and_more_than_seven() {
    assert_eq!(MIN_ANTIS, 1);
    assert_eq!(MAX_ANTIS, 7);
    assert_eq!(entry(0).err(), Some(INVALID_CONFIGURATION));
    assert_eq!(entry(8).err(), Some(INVALID_CONFIGURATION));
    assert_eq!(entry(9).err(), Some(INVALID_CONFIGURATION));
    assert_eq!(entry(usize::MAX).err(), Some(INVALID_CONFIGURATION));
    assert!(entry(1).is_ok());
    assert!(entry(7).is_ok());
}

#[test]
fn entry_puts_the_raider_at_the_origin() {
    let (raider, _) = entry(3).unwrap();
    assert_eq!(raider.id, 0);
    assert_eq!(raider.height, 1750);
    assert_eq!(raider.weight, 70000);
    assert_eq!(raider.position, (0, 0));
    assert!(!raider.is_struggling);
}

#[test]
fn entry_lines_the_antis_up() {
    let (_, antis) = entry(7).unwrap();
    assert_eq!(antis.len(), 7);
    let mut ids: Vec<i32> = antis.keys().copied().collect();
    ids.sort();
    assert_eq!(ids, vec![1, 2, 3, 4, 5, 6, 7]);
    for i in 1..=7 {
        let anti = antis[&i];
        assert_eq!(anti.id, i);
        assert_eq!(anti.height, 1800 - 100 * i);
        assert_eq!(anti.weight, 75000 - 2000 * i);
        assert_eq!(anti.position, (10000 + 2000 * i, 5000 + 1000 * i));
        assert!(!anti.is_struggling);
    }
    let first = antis[&1];
    assert_eq!(first.height, 1700);
    assert_eq!(first.weight, 73000);
    assert_eq!(first.position, (12000, 6000));
}

#[test]
fn entry_makes_as_many_antis_as_asked() {
    for n in 1..=7usize {
        let (_, antis) = entry(n).unwrap();
        assert_eq!(antis.len(), n);
        assert!(antis.contains_key(&(n as i32)));
        assert!(!antis.contains_key(&(n as i32 + 1)));
        assert!(!antis.contains_key(&0));
    }
}
