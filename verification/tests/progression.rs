use skill_engine::progression::XpDrop;
use skill_engine::progression::XpGatherState;
use skill_engine::progression::XP_PER_LEVEL;
use skill_engine::skill::Level;

#[test]
fn gather_crosses_two_thresholds_in_one_event() {
    // An agent with 10 XP per level gains 25 XP in one event: the gathered
    // level jumps to 2 while the acknowledged level stays 0.
    let mut state = XpGatherState::new();
    state.gather(25, XP_PER_LEVEL);
    assert_eq!(state.get_gather_level(), 3); // one-based display of level 2
    assert_eq!(state.get_player_level(), 1); // one-based display of level 0
    assert!(state.is_upgrade_owed());
}

#[test]
fn one_commit_acknowledges_one_level() {
    // After gaining 25 XP, one commit advances the acknowledged level by
    // exactly one, leaving a second level still owed.
    let mut state = XpGatherState::new();
    state.gather(25, XP_PER_LEVEL);
    state.upgrade_player_level();
    assert_eq!(state.get_player_level(), 2); // one-based display of level 1
    assert!(state.is_upgrade_owed());
    state.upgrade_player_level();
    assert_eq!(state.get_player_level(), 3);
    assert!(!state.is_upgrade_owed());
}

#[test]
fn player_level_never_exceeds_gather_level() {
    // A mixed sequence of gains and guarded commits keeps the acknowledged
    // level at or below the gathered level at every settled point.
    let mut state = XpGatherState::new();
    let gains = [3u32, 9, 1, 25, 7];
    for g in gains {
        state.gather(g, XP_PER_LEVEL);
        assert!(state.get_player_level() <= state.get_gather_level());
        while state.is_upgrade_owed() {
            state.upgrade_player_level();
            assert!(state.get_player_level() <= state.get_gather_level());
        }
    }
    assert_eq!(state.get_gather_level(), 5); // 45 XP -> level 4, displayed 5
    assert_eq!(state.get_player_level(), 5);
}

#[test]
fn level_next_stops_at_the_last_level() {
    let l0 = Level::new(0);
    let l1 = l0.next(3).expect("level 1 of 3 exists");
    let l2 = l1.next(3).expect("level 2 of 3 exists");
    assert_eq!(l2, Level::new(2));
    assert_eq!(l2.next(3), None);
    assert_eq!(l0.next(1), None);
    assert_eq!(l0.next(0), None);
}

#[test]
fn level_prev_stops_at_zero() {
    let l0 = Level::new(0);
    assert_eq!(l0.prev(), None);
    let l2 = Level::new(2);
    assert_eq!(l2.prev(), Some(Level::new(1)));
}

#[test]
fn level_is_first_and_display() {
    let l0 = Level::new(0);
    assert!(l0.is_first());
    assert_eq!(l0.display_number(), 1);
    let l4 = Level::new(4);
    assert!(!l4.is_first());
    assert_eq!(l4.display_number(), 5);
}

#[test]
fn level_index_is_bounds_safe() {
    let list: Vec<u32> = vec![10, 20];
    assert_eq!(Level::new(1).index(&list), Some(&20));
    assert_eq!(Level::new(2).index(&list), None);
}

#[test]
fn xp_drop_size_and_height() {
    assert!(!XpDrop::is_big(5));
    assert!(XpDrop::is_big(6));
    assert_eq!(XpDrop::get_height(3), 200); // 0.2 units in thousandths
    assert_eq!(XpDrop::get_height(9), 400); // 0.4 units in thousandths
}
