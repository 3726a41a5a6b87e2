use icecream_robots::leader_elector::LeaderElector;

#[test]
fn new_elector_has_no_valid_backup() {
    let elector = LeaderElector::new(3);
    assert_eq!(elector.my_id, 3);
    assert!(!elector.valid_backup);
}

#[test]
fn ballot_grows_by_one_entry_per_robot() {
    let mut first = LeaderElector::new(1);
    first.validate_backup();
    let mut second = LeaderElector::new(0);
    let ballot = first.start_election();
    assert_eq!(ballot, vec![(1, true)]);
    let ballot = second.add_candidate(ballot);
    assert_eq!(ballot, vec![(1, true), (0, false)]);
    assert!(first.check_round_finished(ballot.clone()));
    assert!(second.check_round_finished(ballot.clone()));
    assert!(!LeaderElector::new(2).check_round_finished(ballot));
    assert!(!LeaderElector::new(2).check_round_finished(vec![]));
}

#[test]
fn highest_id_with_a_valid_backup_wins() {
    let mut elector = LeaderElector::new(0);
    elector.validate_backup();
    let ballot = vec![(0, true), (4, false), (1, true), (3, false)];
    assert_eq!(elector.choose_leader(ballot), 1);
}

#[test]
fn highest_id_wins_where_nobody_has_a_valid_backup() {
    let mut elector = LeaderElector::new(1);
    let ballot = vec![(1, false), (4, false), (2, false)];
    assert_eq!(elector.choose_leader(ballot), 4);
}

#[test]
fn winner_does_not_depend_on_order_or_on_who_counts() {
    let ballots = [
        vec![(0, true), (1, true), (2, false)],
        vec![(2, false), (0, true), (1, true)],
        vec![(1, true), (2, false), (0, true)],
    ];
    for ballot in ballots {
        for (id, valid) in [(0, true), (1, true), (2, false)] {
            let mut elector = LeaderElector::new(id);
            if valid {
                elector.validate_backup();
            }
            assert_eq!(elector.choose_leader(ballot.clone()), 1);
        }
    }
}

#[test]
fn a_lone_robot_elects_itself() {
    let mut elector = LeaderElector::new(2);
    assert_eq!(elector.choose_leader(vec![]), 2);
    assert_eq!(elector.choose_leader(vec![(2, false)]), 2);
}

#[test]
fn a_valid_backup_beats_a_higher_id() {
    let mut elector = LeaderElector::new(4);
    assert_eq!(elector.choose_leader(vec![(4, false), (0, true)]), 0);
}
