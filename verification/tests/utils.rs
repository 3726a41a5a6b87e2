use icecream_robots::config::{MAX_NUMBER_OF_ROBOTS, MAX_ROBOT_ID};
use icecream_robots::connections::frame;
use icecream_robots::errors::RobotConnectionError;
use icecream_robots::messages::{
    AddNewLeader, AddNewRobot, AddNextRobot, AddPreviousRobot, RobotDied,
};
use icecream_robots::ring::{
    announce_leader, caller_of, connect_to_leader, connect_to_next_robot_and_get_leader,
    connect_to_prev_robot, connect_to_robot, connect_to_screen, joined_leader, next_in_ring,
    next_robot_candidates, previous_in_ring, previous_robot_candidates, robot_announced,
    robot_connected, start_leader_connection_listener, start_robots_connection_listener, wire_id,
    Accepted, Announced, Caller, Place, SafeSend, SendStep,
};
use icecream_robots::screen_error::ScreenError;
use icecream_robots::text::str_equal;
use icecream_robots::utils::{
    id_to_leader_addr, id_to_robot_addr, id_to_screen_addr, token_lost_timeout, token_timeout_ms,
    TimerEvent, TimerStep, NEW_NEXT_ROBOT, NEW_PREV_ROBOT, NEW_ROBOT_LEADER,
};

#[test]
fn addresses() {
    assert_eq!(id_to_robot_addr(0), "127.0.0.1:8070");
    assert_eq!(id_to_robot_addr(3), "127.0.0.1:8073");
    assert_eq!(id_to_leader_addr(2), "127.0.0.1:3692");
    assert_eq!(id_to_screen_addr(4), "127.0.0.1:7004");
    assert_eq!(id_to_screen_addr(12), "127.0.0.1:70012");
}

#[test]
fn decimal_text() {
    assert_eq!(id_to_robot_addr(10), "127.0.0.1:80710");
    assert_eq!(id_to_robot_addr(4000), "127.0.0.1:8074000");
    assert_eq!(id_to_robot_addr(usize::MAX), format!("127.0.0.1:807{}", usize::MAX));
    assert!(str_equal("abc", "abc"));
    assert!(!str_equal("abc", "abd"));
    assert!(!str_equal("abc", "ab"));
    assert!(str_equal("", ""));
}

#[test]
fn timeout_is_half_a_round_of_kilos() {
    assert_eq!(token_timeout_ms(1), 0);
    assert_eq!(token_timeout_ms(2), 5000);
    assert_eq!(token_timeout_ms(3), 10000);
    assert_eq!(token_timeout_ms(MAX_NUMBER_OF_ROBOTS), 20000);
}

#[test]
fn timer_steps() {
    assert_eq!(token_lost_timeout(TimerEvent::Signal(0)), TimerStep::Rearm);
    assert_eq!(token_lost_timeout(TimerEvent::Signal(1)), TimerStep::Stop);
    assert_eq!(token_lost_timeout(TimerEvent::Signal(7)), TimerStep::Stop);
    assert_eq!(token_lost_timeout(TimerEvent::Closed), TimerStep::Stop);
    assert_eq!(token_lost_timeout(TimerEvent::Elapsed), TimerStep::Fire);
}

#[test]
fn connection_bytes() {
    assert_eq!(NEW_NEXT_ROBOT, 'n');
    assert_eq!(NEW_PREV_ROBOT, 'p');
    assert_eq!(NEW_ROBOT_LEADER, 'r');
    assert_eq!(connect_to_robot(3, Place::Previous), vec![b'n', 3]);
    assert_eq!(connect_to_robot(3, Place::Next), vec![b'p']);
    assert_eq!(connect_to_leader(4), vec![4]);
    assert_eq!(connect_to_screen(), vec![b'r']);
    assert_eq!(announce_leader(2), vec![b'r', 2]);
    assert_eq!(wire_id(300), 44);
}

#[test]
fn first_byte_names_the_caller() {
    assert_eq!(caller_of(0x6E), Caller::NextRobot);
    assert_eq!(caller_of(0x70), Caller::PreviousRobot);
    assert_eq!(caller_of(0x72), Caller::Leader);
    assert_eq!(caller_of(b'x'), Caller::Unknown);
    assert_eq!(
        start_robots_connection_listener(b'n', Some(2)),
        Accepted::NextRobot(AddNextRobot { robot_id: 2 })
    );
    assert_eq!(start_robots_connection_listener(b'n', None), Accepted::Nothing);
    assert_eq!(
        start_robots_connection_listener(b'p', None),
        Accepted::PreviousRobot(AddPreviousRobot { asked: false })
    );
    assert_eq!(
        start_robots_connection_listener(b'r', Some(4)),
        Accepted::Leader(AddNewLeader { leader_id: 4 })
    );
    assert_eq!(start_robots_connection_listener(b'r', None), Accepted::Nothing);
    assert_eq!(start_robots_connection_listener(b'?', Some(1)), Accepted::Nothing);
    assert_eq!(
        start_leader_connection_listener(3),
        AddNewRobot { robot_id: 3, asked: false }
    );
}

#[test]
fn ring_order() {
    assert_eq!(MAX_ROBOT_ID, MAX_NUMBER_OF_ROBOTS - 1);
    assert_eq!(next_in_ring(0, 5), 1);
    assert_eq!(next_in_ring(4, 5), 0);
    assert_eq!(previous_in_ring(0, 5), 4);
    assert_eq!(previous_in_ring(3, 5), 2);
    assert_eq!(next_robot_candidates(3, 5), vec![4, 0, 1, 2]);
    assert_eq!(previous_robot_candidates(3, 5), vec![2, 1, 0, 4]);
    assert_eq!(next_robot_candidates(0, 1), Vec::<usize>::new());
    assert_eq!(previous_robot_candidates(0, 1), Vec::<usize>::new());
}

#[test]
fn message_goes_to_the_first_robot_that_takes_it() {
    let mut walk = SafeSend::new(3, 4, 5);
    assert_eq!(walk.written(true), SendStep::Done(4));
    let mut walk = SafeSend::new(3, 4, 5);
    assert_eq!(walk.written(false), SendStep::Try(4));
    assert_eq!(walk.tried(false), SendStep::Try(0));
    assert_eq!(walk.tried(false), SendStep::Try(1));
    assert_eq!(walk.tried(true), SendStep::Done(1));
}

#[test]
fn robot_that_finds_nobody_is_alone() {
    let mut walk = SafeSend::new(1, 2, 3);
    assert_eq!(walk.written(false), SendStep::Try(2));
    assert_eq!(walk.tried(false), SendStep::Try(0));
    assert_eq!(walk.tried(false), SendStep::Done(1));
    let mut alone = SafeSend::new(0, 0, 1);
    assert_eq!(alone.written(false), SendStep::Done(0));
}

#[test]
fn leader_after_joining() {
    assert_eq!(joined_leader(2, false, None, MAX_NUMBER_OF_ROBOTS), 2);
    assert_eq!(joined_leader(2, true, None, MAX_NUMBER_OF_ROBOTS), MAX_NUMBER_OF_ROBOTS);
    assert_eq!(joined_leader(2, true, Some(0), MAX_NUMBER_OF_ROBOTS), 0);
    assert_eq!(joined_leader(2, false, Some(4), MAX_NUMBER_OF_ROBOTS), 4);
    assert_eq!(connect_to_next_robot_and_get_leader(Some(1)), Ok(1));
    assert_eq!(
        connect_to_next_robot_and_get_leader(None),
        Err(RobotConnectionError::NoRobotsAvailableError())
    );
    assert_eq!(connect_to_prev_robot(true), Ok(()));
    assert_eq!(
        connect_to_prev_robot(false),
        Err(RobotConnectionError::NoRobotsAvailableError())
    );
}

#[test]
fn errors_as_sentences() {
    assert_eq!(
        RobotConnectionError::ColudNotConnectToRobot("refused".to_string()).to_string(),
        "Could not connect to robot: refused"
    );
    assert_eq!(
        RobotConnectionError::NoRobotsAvailableError().to_string(),
        "No robots available to connect"
    );
    assert_eq!(
        ScreenError::TcpListenerError(3).to_string(),
        "Screen 3: Couldn't initialize listener"
    );
}

#[test]
fn a_record_ends_with_a_line_feed() {
    assert_eq!(frame("{\"NewLeader\":{\"leader\":1}}".to_string()), "{\"NewLeader\":{\"leader\":1}}\n");
    assert_eq!(frame(String::new()), "\n");
}

#[test]
fn what_a_robot_is_told_of_a_connection_it_opened() {
    assert_eq!(
        robot_connected(3, Place::Previous, 9),
        (Accepted::PreviousRobot(AddPreviousRobot { asked: true }), MAX_NUMBER_OF_ROBOTS)
    );
    assert_eq!(
        robot_connected(3, Place::Next, 2),
        (Accepted::NextRobot(AddNextRobot { robot_id: 3 }), 2)
    );
}

#[test]
fn a_robot_that_a_new_leader_cannot_reach_is_gone() {
    assert_eq!(
        robot_announced(4, true),
        Announced::Connected(AddNewRobot { robot_id: 4, asked: true })
    );
    assert_eq!(robot_announced(4, false), Announced::Gone(RobotDied { robot_id: 4 }));
}
