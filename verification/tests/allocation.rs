use seat_allocation::application::{Application, Participant};
use seat_allocation::event::{Event, EventState};
use seat_allocation::lifecycle::TransitionRejected;
use seat_allocation::priority::ApplicationPriority;
use seat_allocation::session::Session;
use seat_allocation::slot::Slot;

use std::cmp::Ordering;
use ApplicationPriority::{FirstPreference, NoPreference, SecondPreference, ThirdPreference};
use EventState::{AssigningSeats, Finished, NotOpenedYet, OpenForRegistration};

fn participant(id: u128, name: &str, points: usize) -> Participant {
    Participant { uuid: id, name: name.to_string(), points_from_previous_rounds: points }
}

fn application(id: u128, session: u128, who: u128, priority: ApplicationPriority) -> Application {
    Application { uuid: id, session_uuid: session, participant: who, priority, calculated_points: None }
}

fn scored(id: u128, session: u128, who: u128, priority: ApplicationPriority, points: usize) -> Application {
    Application {
        uuid: id,
        session_uuid: session,
        participant: who,
        priority,
        calculated_points: Some(points),
    }
}

fn session(name: &str, seats: usize, applications: Vec<(u128, u128, ApplicationPriority)>) -> Session {
    let mut session = Session::new(name.to_string(), None, seats);
    for (id, who, priority) in applications {
        session.applications.push(application(id, session.uuid, who, priority));
    }
    session
}

fn event_with(slots: Vec<Vec<Session>>, participants: Vec<(u128, usize)>) -> Event {
    let mut event = Event::new("Conference".to_string(), None);
    for (number, sessions) in slots.into_iter().enumerate() {
        let mut slot = Slot::new(format!("Slot {}", number), None);
        slot.sessions = sessions;
        event.slots.push(slot);
    }
    for (id, points) in participants {
        event.participants.insert(id, participant(id, &format!("Guest {}", id), points));
    }
    event.state = EventState::OpenForRegistration;
    event
}

fn math_and_art() -> Event {
    event_with(
        vec![vec![
            session("Math", 1, vec![(20, 1, FirstPreference), (10, 2, FirstPreference)]),
            session("Art", 1, vec![(30, 3, FirstPreference)]),
        ]],
        vec![(1, 0), (2, 0), (3, 0)],
    )
}

fn seats_of(event: &Event, slot: usize, who: u128) -> usize {
    event.slots[slot]
        .sessions
        .iter()
        .map(|s| s.participants.iter().filter(|p| **p == who).count())
        .sum()
}

#[test]
fn two_sessions_one_seat_each() {
    let mut event = math_and_art();
    assert!(event.close_and_distribute().is_ok());
    assert_eq!(event.state, EventState::Finished);
    let slot = &event.slots[0];
    assert_eq!(slot.sessions[0].participants, vec![1u128]);
    assert_eq!(slot.sessions[1].participants, vec![3u128]);
    assert!(slot.sessions[0].applications.is_empty());
    assert!(slot.sessions[1].applications.is_empty());
    assert_eq!(seats_of(&event, 0, 2), 0);
    assert_eq!(event.participants[&1].points_from_previous_rounds, 0);
    assert_eq!(event.participants[&2].points_from_previous_rounds, 0);
    assert_eq!(event.participants[&3].points_from_previous_rounds, 0);
}

#[test]
fn ranking_puts_the_larger_identifier_first_on_equal_scores() {
    let mut event = math_and_art();
    event.rank_all();
    let queue = &event.slots[0].sessions[0].applications;
    assert_eq!(queue.len(), 2);
    assert_eq!((queue[0].uuid, queue[0].participant), (20, 1));
    assert_eq!((queue[1].uuid, queue[1].participant), (10, 2));
    assert_eq!(queue[0].calculated_points, Some(15));
    assert_eq!(queue[1].calculated_points, Some(15));
}

#[test]
fn score_is_carried_points_plus_bonus() {
    let table = [(FirstPreference, 15usize), (SecondPreference, 10), (ThirdPreference, 5), (NoPreference, 0)];
    for (priority, bonus) in table {
        assert_eq!(priority.preference_bonus(), bonus);
        for carried in [0usize, 5, 10, 15, 1000] {
            let mut application = application(1, 2, 3, priority);
            application.calculate_points(&participant(3, "Guest", carried));
            assert_eq!(application.calculated_points, Some(carried + bonus));
            assert_eq!((application.uuid, application.session_uuid, application.participant), (1, 2, 3));
            assert_eq!(application.priority, priority);
        }
    }
}

#[test]
fn carried_points_mirror_the_bonus() {
    let table = [(FirstPreference, 0usize), (SecondPreference, 5), (ThirdPreference, 10), (NoPreference, 15)];
    for (priority, carried) in table {
        assert_eq!(priority.carried_points(), carried);
        assert_eq!(priority.carried_points() + priority.preference_bonus(), 15);
    }
}

#[test]
fn first_preference_never_scores_below_no_preference() {
    for carried in [0usize, 1, 15, 12345] {
        let who = participant(1, "Guest", carried);
        let mut first = application(1, 1, 1, FirstPreference);
        let mut none = application(2, 1, 1, NoPreference);
        first.calculate_points(&who);
        none.calculate_points(&who);
        assert!(first.calculated_points.unwrap() >= none.calculated_points.unwrap());
    }
}

#[test]
fn ranking_drops_applications_of_unknown_participants() {
    let mut event = event_with(
        vec![vec![session("Math", 2, vec![(1, 7, FirstPreference), (2, 99, FirstPreference), (3, 8, ThirdPreference)])]],
        vec![(7, 0), (8, 0)],
    );
    event.rank_all();
    let queue = &event.slots[0].sessions[0].applications;
    assert_eq!(queue.iter().map(|a| a.participant).collect::<Vec<_>>(), vec![7, 8]);
    assert_eq!(queue[0].calculated_points, Some(15));
    assert_eq!(queue[1].calculated_points, Some(5));
}

#[test]
fn ranking_orders_by_score_then_identifier() {
    let mut event = event_with(
        vec![vec![session(
            "Math",
            5,
            vec![
                (5, 1, ThirdPreference),
                (9, 2, FirstPreference),
                (3, 3, SecondPreference),
                (7, 4, FirstPreference),
                (8, 5, NoPreference),
            ],
        )]],
        vec![(1, 10), (2, 0), (3, 5), (4, 0), (5, 0)],
    );
    event.rank_all();
    let queue = &event.slots[0].sessions[0].applications;
    let order: Vec<(u128, Option<usize>)> = queue.iter().map(|a| (a.uuid, a.calculated_points)).collect();
    assert_eq!(
        order,
        vec![(9, Some(15)), (7, Some(15)), (5, Some(15)), (3, Some(15)), (8, Some(0))]
    );
}

#[test]
fn ranking_keeps_the_order_of_equal_applications() {
    let mut event = event_with(
        vec![vec![session("Math", 5, vec![(4, 1, FirstPreference), (4, 2, FirstPreference), (4, 3, FirstPreference)])]],
        vec![(1, 0), (2, 0), (3, 0)],
    );
    event.rank_all();
    let queue = &event.slots[0].sessions[0].applications;
    assert_eq!(queue.iter().map(|a| a.participant).collect::<Vec<_>>(), vec![1, 2, 3]);
}

#[test]
fn ranking_twice_changes_nothing() {
    let mut event = event_with(
        vec![vec![session(
            "Math",
            5,
            vec![(5, 1, ThirdPreference), (9, 2, FirstPreference), (3, 77, SecondPreference), (7, 4, FirstPreference)],
        )]],
        vec![(1, 10), (2, 0), (4, 5)],
    );
    event.rank_all();
    let once: Vec<(u128, u128, Option<usize>)> =
        event.slots[0].sessions[0].applications.iter().map(|a| (a.uuid, a.participant, a.calculated_points)).collect();
    event.rank_all();
    let twice: Vec<(u128, u128, Option<usize>)> =
        event.slots[0].sessions[0].applications.iter().map(|a| (a.uuid, a.participant, a.calculated_points)).collect();
    assert_eq!(once, twice);
    assert_eq!(once, vec![(7, 4, Some(20)), (9, 2, Some(15)), (5, 1, Some(15))]);
}

#[test]
fn rank_applications_reads_the_participants_of_the_event() {
    let event = event_with(vec![], vec![(1, 5), (2, 0)]);
    let mut math = session("Math", 1, vec![(1, 2, FirstPreference), (2, 1, FirstPreference), (3, 3, FirstPreference)]);
    math.rank_applications(&event);
    let order: Vec<(u128, Option<usize>)> = math.applications.iter().map(|a| (a.participant, a.calculated_points)).collect();
    assert_eq!(order, vec![(1, Some(20)), (2, Some(15))]);
    assert!(math.participants.is_empty());
    assert_eq!(math.seats, 1);
}

#[test]
fn the_later_session_wins_a_tie() {
    let mut slot = Slot::new("Morning".to_string(), None);
    let mut math = Session::new("Math".to_string(), None, 1);
    let mut art = Session::new("Art".to_string(), None, 1);
    let mut music = Session::new("Music".to_string(), None, 1);
    math.applications.push(scored(1, 100, 1, FirstPreference, 15));
    art.applications.push(scored(2, 200, 2, FirstPreference, 15));
    music.applications.push(scored(3, 300, 3, SecondPreference, 10));
    slot.sessions = vec![math, art, music];
    assert_eq!(slot.find_session_with_highest_ranked_application(), Some(200));
}

#[test]
fn the_highest_first_application_is_selected() {
    let mut slot = Slot::new("Morning".to_string(), None);
    let mut math = Session::new("Math".to_string(), None, 1);
    let mut art = Session::new("Art".to_string(), None, 1);
    math.applications.push(scored(1, 100, 1, FirstPreference, 20));
    math.applications.push(scored(4, 100, 4, FirstPreference, 90));
    art.applications.push(scored(2, 200, 2, FirstPreference, 15));
    slot.sessions = vec![math, art];
    assert_eq!(slot.find_session_with_highest_ranked_application(), Some(100));
}

#[test]
fn nothing_is_selected_where_nothing_is_pending() {
    let mut slot = Slot::new("Morning".to_string(), None);
    assert_eq!(slot.find_session_with_highest_ranked_application(), None);
    slot.sessions.push(Session::new("Math".to_string(), None, 3));
    assert_eq!(slot.find_session_with_highest_ranked_application(), None);
}

#[test]
fn an_unscored_application_counts_as_zero() {
    let mut slot = Slot::new("Morning".to_string(), None);
    let mut math = Session::new("Math".to_string(), None, 1);
    let mut art = Session::new("Art".to_string(), None, 1);
    math.applications.push(scored(1, 100, 1, NoPreference, 0));
    art.applications.push(application(2, 200, 2, FirstPreference));
    slot.sessions = vec![math, art];
    assert_eq!(slot.find_session_with_highest_ranked_application(), Some(200));
}

#[test]
fn a_full_session_drops_its_queue() {
    let mut event = event_with(
        vec![vec![session(
            "Math",
            2,
            vec![(1, 1, FirstPreference), (2, 2, FirstPreference), (3, 3, FirstPreference), (4, 4, SecondPreference)],
        )]],
        vec![(1, 0), (2, 0), (3, 0), (4, 0)],
    );
    assert!(event.close_and_distribute().is_ok());
    let math = &event.slots[0].sessions[0];
    assert_eq!(math.participants, vec![3u128, 2]);
    assert!(math.applications.is_empty());
    assert!(math.participants.len() <= math.seats);
}

#[test]
fn a_session_without_seats_seats_nobody() {
    let mut event = event_with(vec![vec![session("Math", 0, vec![(1, 1, FirstPreference)])]], vec![(1, 0)]);
    assert!(event.close_and_distribute().is_ok());
    assert!(event.slots[0].sessions[0].participants.is_empty());
    assert!(event.slots[0].sessions[0].applications.is_empty());
}

#[test]
fn a_seated_participant_leaves_the_other_queues_of_the_slot() {
    let mut event = event_with(
        vec![vec![
            session("Math", 1, vec![(1, 1, FirstPreference), (2, 2, SecondPreference)]),
            session("Art", 2, vec![(3, 1, SecondPreference), (4, 2, FirstPreference)]),
        ]],
        vec![(1, 0), (2, 0)],
    );
    assert!(event.close_and_distribute().is_ok());
    assert_eq!(event.slots[0].sessions[0].participants, vec![1u128]);
    assert_eq!(event.slots[0].sessions[1].participants, vec![2u128]);
    assert_eq!(seats_of(&event, 0, 1), 1);
    assert_eq!(seats_of(&event, 0, 2), 1);
}

#[test]
fn carried_points_are_overwritten_by_the_rank_granted() {
    let mut event = event_with(
        vec![vec![
            session("Math", 1, vec![(1, 1, FirstPreference), (2, 2, FirstPreference)]),
            session("Art", 1, vec![(3, 2, SecondPreference), (4, 3, ThirdPreference)]),
            session("Music", 1, vec![(5, 3, NoPreference), (6, 4, NoPreference)]),
            session("Dance", 1, vec![(7, 5, SecondPreference)]),
        ]],
        vec![(1, 7), (2, 7), (3, 7), (4, 3), (5, 9)],
    );
    assert!(event.close_and_distribute().is_ok());
    let seated: Vec<Vec<u128>> = event.slots[0].sessions.iter().map(|s| s.participants.clone()).collect();
    assert_eq!(seated, vec![vec![2u128], vec![3], vec![4], vec![5]]);
    assert_eq!(event.participants[&1].points_from_previous_rounds, 7);
    assert_eq!(event.participants[&2].points_from_previous_rounds, 0);
    assert_eq!(event.participants[&3].points_from_previous_rounds, 10);
    assert_eq!(event.participants[&4].points_from_previous_rounds, 15);
    assert_eq!(event.participants[&5].points_from_previous_rounds, 5);
}

#[test]
fn scores_are_not_recomputed_between_slots() {
    let mut event = event_with(
        vec![
            vec![session("Math", 1, vec![(1, 1, NoPreference)])],
            vec![session("Art", 1, vec![(2, 1, ThirdPreference), (3, 2, SecondPreference)])],
        ],
        vec![(1, 0), (2, 0)],
    );
    assert!(event.close_and_distribute().is_ok());
    assert_eq!(event.slots[0].sessions[0].participants, vec![1u128]);
    assert_eq!(event.slots[1].sessions[0].participants, vec![2u128]);
    assert_eq!(event.participants[&1].points_from_previous_rounds, 15);
    assert_eq!(event.participants[&2].points_from_previous_rounds, 5);
}

#[test]
fn carried_points_count_in_the_next_distribution() {
    let mut event = event_with(
        vec![vec![session("Art", 1, vec![(2, 1, ThirdPreference), (3, 2, SecondPreference)])]],
        vec![(1, 15), (2, 0)],
    );
    assert!(event.close_and_distribute().is_ok());
    assert_eq!(event.slots[0].sessions[0].participants, vec![1u128]);
    assert_eq!(event.participants[&1].points_from_previous_rounds, 10);
}

#[test]
fn a_participant_without_application_is_not_seated() {
    let mut event = math_and_art();
    event.participants.insert(4, participant(4, "Dee", 15));
    assert!(event.close_and_distribute().is_ok());
    assert_eq!(seats_of(&event, 0, 4), 0);
    assert_eq!(event.participants[&4].points_from_previous_rounds, 15);
}

#[test]
fn nobody_holds_two_seats_in_a_slot() {
    let mut event = event_with(
        vec![vec![
            session("Math", 3, vec![(1, 1, FirstPreference), (2, 2, SecondPreference), (3, 3, ThirdPreference)]),
            session("Art", 3, vec![(4, 1, SecondPreference), (5, 2, FirstPreference), (6, 3, FirstPreference)]),
            session("Music", 3, vec![(7, 1, ThirdPreference), (8, 2, ThirdPreference), (9, 3, SecondPreference)]),
        ]],
        vec![(1, 0), (2, 0), (3, 0)],
    );
    assert!(event.close_and_distribute().is_ok());
    for who in [1u128, 2, 3] {
        assert_eq!(seats_of(&event, 0, who), 1);
    }
    for session in &event.slots[0].sessions {
        assert!(session.participants.len() <= session.seats);
        assert!(session.applications.is_empty());
    }
    assert_eq!(event.slots[0].sessions[0].participants, vec![1u128]);
    assert_eq!(event.slots[0].sessions[1].participants, vec![3u128, 2]);
}

#[test]
fn equal_events_are_distributed_alike() {
    let build = |order: Vec<u128>| {
        let mut event = event_with(
            vec![
                vec![
                    session("Math", 1, vec![(11, 1, FirstPreference), (12, 2, FirstPreference), (13, 3, SecondPreference)]),
                    session("Art", 1, vec![(14, 3, FirstPreference), (15, 1, SecondPreference)]),
                ],
                vec![session("Music", 2, vec![(16, 1, FirstPreference), (17, 2, FirstPreference), (18, 3, FirstPreference)])],
            ],
            vec![],
        );
        for id in order {
            event.participants.insert(id, participant(id, "Guest", 0));
        }
        event
    };
    let mut first = build(vec![1, 2, 3]);
    let mut second = build(vec![3, 2, 1]);
    assert!(first.close_and_distribute().is_ok());
    assert!(second.close_and_distribute().is_ok());
    for slot in 0..2 {
        for session in 0..first.slots[slot].sessions.len() {
            assert_eq!(
                first.slots[slot].sessions[session].participants,
                second.slots[slot].sessions[session].participants
            );
        }
    }
    for id in [1u128, 2, 3] {
        assert_eq!(
            first.participants[&id].points_from_previous_rounds,
            second.participants[&id].points_from_previous_rounds
        );
    }
    assert_eq!(first.slots[0].sessions[0].participants, vec![2u128]);
    assert_eq!(first.slots[0].sessions[1].participants, vec![3u128]);
    assert_eq!(first.slots[1].sessions[0].participants, vec![3u128, 2]);
}

#[test]
fn slots_are_allocated_one_at_a_time() {
    let mut event = event_with(
        vec![
            vec![session("Math", 1, vec![(1, 1, FirstPreference)])],
            vec![session("Art", 1, vec![(2, 1, SecondPreference)])],
        ],
        vec![(1, 0)],
    );
    event.rank_all();
    event.allocate_participants_in_slot(1);
    assert!(event.slots[0].sessions[0].participants.is_empty());
    assert_eq!(event.slots[0].sessions[0].applications.len(), 1);
    assert_eq!(event.slots[1].sessions[0].participants, vec![1u128]);
    assert_eq!(event.participants[&1].points_from_previous_rounds, 5);
    event.allocate_participants();
    assert_eq!(event.slots[0].sessions[0].participants, vec![1u128]);
    assert_eq!(event.slots[1].sessions[0].participants, vec![1u128]);
    assert_eq!(event.participants[&1].points_from_previous_rounds, 0);
}

#[test]
fn only_an_open_event_is_distributed() {
    for state in [EventState::NotOpenedYet, EventState::AssigningSeats, EventState::Finished] {
        let mut event = math_and_art();
        event.state = state;
        assert_eq!(
            event.close_and_distribute(),
            Err(TransitionRejected { from: state, to: EventState::AssigningSeats })
        );
        assert_eq!(event.state, state);
        assert_eq!(event.slots[0].sessions[0].applications.len(), 2);
        assert!(event.slots[0].sessions[0].participants.is_empty());
        assert_eq!(event.slots[0].sessions[0].applications[0].calculated_points, None);
    }
}

#[test]
fn the_transition_table() {
    let all = [NotOpenedYet, OpenForRegistration, AssigningSeats, Finished];
    let allowed = [
        (NotOpenedYet, NotOpenedYet),
        (NotOpenedYet, OpenForRegistration),
        (OpenForRegistration, OpenForRegistration),
        (OpenForRegistration, NotOpenedYet),
        (OpenForRegistration, AssigningSeats),
        (AssigningSeats, AssigningSeats),
        (AssigningSeats, Finished),
        (Finished, Finished),
    ];
    for from in all {
        for to in all {
            let expected = allowed.contains(&(from, to));
            assert_eq!(from.can_become(to), expected);
            let mut event = math_and_art();
            event.state = from;
            let result = event.transition_to(to);
            if expected {
                assert_eq!(result, Ok(()));
                assert_eq!(event.state, to);
            } else {
                assert_eq!(result, Err(TransitionRejected { from, to }));
                assert_eq!(event.state, from);
            }
        }
    }
}

#[test]
fn a_new_event_is_empty_and_not_open() {
    let event = Event::new("Conference".to_string(), Some("Yearly".to_string()));
    assert_eq!(event.name, "Conference");
    assert_eq!(event.description, Some("Yearly".to_string()));
    assert!(event.slots.is_empty());
    assert!(event.participants.is_empty());
    assert_eq!(event.state, EventState::NotOpenedYet);
    assert_eq!(EventState::default(), EventState::NotOpenedYet);
}

#[test]
fn fresh_identifiers_are_random_version_four() {
    let event = Event::new("E".to_string(), None);
    let slot = Slot::new("S".to_string(), None);
    let session = Session::new("T".to_string(), None, 3);
    for id in [event.uuid, slot.uuid, session.uuid] {
        assert_eq!((id >> 76) & 0xf, 4);
        assert_eq!((id >> 62) & 0x3, 2);
    }
    assert_ne!(event.uuid, slot.uuid);
    assert_ne!(slot.uuid, session.uuid);
    assert_eq!(session.seats, 3);
    assert!(session.participants.is_empty() && session.applications.is_empty());
    assert!(slot.sessions.is_empty());
}

#[test]
fn applications_compare_by_score_then_identifier() {
    let low = scored(9, 1, 1, FirstPreference, 5);
    let high = scored(1, 1, 1, FirstPreference, 6);
    let unscored = application(9, 1, 1, FirstPreference);
    let zero = scored(9, 1, 1, FirstPreference, 0);
    assert_eq!(low.cmp(&high), Ordering::Less);
    assert_eq!(high.cmp(&low), Ordering::Greater);
    assert_eq!(low.cmp(&low), Ordering::Equal);
    assert_eq!(scored(1, 1, 1, FirstPreference, 5).cmp(&low), Ordering::Less);
    assert_eq!(unscored.cmp(&zero), Ordering::Less);
    assert_eq!(unscored.partial_cmp(&zero), Some(Ordering::Less));
    assert!(low < high);
    assert!(unscored.is_below(&zero));
    assert!(!zero.is_below(&unscored));
    assert!(unscored == zero);
    assert!(low != high);
    assert!(low == scored(9, 7, 8, NoPreference, 5));
}

#[test]
fn scores_must_fit_the_machine_integer() {
    let build = |points: usize, priority: ApplicationPriority| {
        event_with(vec![vec![session("Math", 1, vec![(1, 1, priority), (2, 9, FirstPreference)])]], vec![(1, points)])
    };
    assert!(build(usize::MAX - 15, FirstPreference).is_scorable());
    assert!(!build(usize::MAX - 14, FirstPreference).is_scorable());
    assert!(build(usize::MAX - 10, SecondPreference).is_scorable());
    assert!(!build(usize::MAX - 4, ThirdPreference).is_scorable());
    assert!(build(usize::MAX, NoPreference).is_scorable());
    let mut event = build(usize::MAX - 15, FirstPreference);
    assert!(event.close_and_distribute().is_ok());
    assert_eq!(event.slots[0].sessions[0].participants, vec![1u128]);
}
