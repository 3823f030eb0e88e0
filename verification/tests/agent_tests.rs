use glam::Vec2;
use navgrid::agents::{Agent, AgentState, NavigatorCount, PathTask, PollOutcome, SPAWN_LIMIT};
use navgrid::grid::TileGrid;
use navgrid::modes::DisplayMode;
use navgrid::navmesh::{bake, TempNavmesh};
use navgrid::stats::Stats;

fn strip() -> TempNavmesh {
    // Three tiles in a row, the middle one blocked.
    let grid = TileGrid::new(3, 1, 8, 0, 0, vec![1, 0, 1]).expect("a grid that fits");
    match bake(&grid) {
        Ok(nav) => nav,
        Err(_) => panic!("the grid has tiles"),
    }
}

fn open_field() -> TempNavmesh {
    let grid = TileGrid::new(3, 3, 8, 0, 0, vec![5; 9]).expect("a grid that fits");
    match bake(&grid) {
        Ok(nav) => nav,
        Err(_) => panic!("the grid has tiles"),
    }
}

#[test]
fn new_agent_is_idle() {
    let agent = Agent::new();
    assert_eq!(agent.state(), AgentState::Idle);
    assert!(agent.is_idle());
    assert!(!agent.has_task());
    assert!(agent.target().is_none());
    assert!(agent.path().is_none());
    assert!(agent.next_waypoint().is_none());
}

#[test]
fn idle_agent_takes_a_target() {
    let mut agent = Agent::new();
    assert!(agent.assign_target(Vec2::new(3.0, 4.0)));
    assert_eq!(agent.state(), AgentState::Targeting);
    assert_eq!(agent.target(), Some(Vec2::new(3.0, 4.0)));
    assert!(!agent.has_task());
}

#[test]
fn agent_with_a_target_keeps_it() {
    let mut agent = Agent::new();
    assert!(agent.assign_target(Vec2::new(3.0, 4.0)));
    assert!(!agent.assign_target(Vec2::new(9.0, 9.0)));
    assert_eq!(agent.target(), Some(Vec2::new(3.0, 4.0)));
}

#[test]
fn request_goes_from_position_to_target() {
    let mut agent = Agent::new();
    agent.assign_target(Vec2::new(3.0, 4.0));
    let request = agent.request_path(Vec2::new(1.0, 2.0)).expect("a target without a task");
    assert_eq!(request.from, Vec2::new(1.0, 2.0));
    assert_eq!(request.to, Vec2::new(3.0, 4.0));
    assert!(agent.has_task());
    assert_eq!(agent.state(), AgentState::Targeting);
}

#[test]
fn no_second_request_while_a_task_is_in_flight() {
    let mut agent = Agent::new();
    agent.assign_target(Vec2::new(3.0, 4.0));
    assert!(agent.request_path(Vec2::new(1.0, 2.0)).is_some());
    assert!(agent.request_path(Vec2::new(1.0, 2.0)).is_none());
    assert!(agent.request_path(Vec2::new(5.0, 5.0)).is_none());
    assert!(agent.has_task());
}

#[test]
fn no_request_without_a_target() {
    let mut agent = Agent::new();
    assert!(agent.request_path(Vec2::new(1.0, 2.0)).is_none());
    assert!(agent.is_idle());
}

#[test]
fn new_task_is_pending() {
    let task = PathTask::new();
    assert!(!task.is_done());
    assert!(!task.has_waypoints());
    assert_eq!(task.timings(), (0, 0));
}

#[test]
fn completed_task_holds_duration_and_delay() {
    let mut task = PathTask::new();
    task.complete(Some(vec![Vec2::new(1.0, 1.0)]), 30, 100);
    assert!(task.is_done());
    assert!(task.has_waypoints());
    assert_eq!(task.timings(), (70, 30));
}

#[test]
fn task_is_written_once() {
    let mut task = PathTask::new();
    task.complete(None, 30, 100);
    task.complete(Some(vec![Vec2::new(1.0, 1.0)]), 1, 2);
    assert!(task.is_done());
    assert!(!task.has_waypoints());
    assert_eq!(task.timings(), (70, 30));
}

#[test]
fn duration_does_not_go_below_zero() {
    let mut task = PathTask::new();
    task.complete(None, 30, 10);
    assert_eq!(task.timings(), (0, 30));
}

#[test]
fn poll_of_a_pending_task_changes_nothing() {
    let nav = open_field();
    let mut agent = Agent::new();
    let mut task = PathTask::new();
    let mut stats = Stats::new();
    agent.assign_target(Vec2::new(3.0, 4.0));
    agent.request_path(Vec2::new(0.0, 0.0));
    let outcome = agent.poll(&mut task, &mut stats, &nav, Vec2::new(0.0, 0.0));
    assert_eq!(outcome, PollOutcome::Pending);
    assert!(agent.has_task());
    assert!(stats.durations().is_empty());
    assert!(stats.delays().is_empty());
}

#[test]
fn poll_without_a_task_in_flight_changes_nothing() {
    let nav = open_field();
    let mut agent = Agent::new();
    let mut task = PathTask::new();
    task.complete(Some(vec![Vec2::new(1.0, 1.0)]), 1, 2);
    let mut stats = Stats::new();
    let outcome = agent.poll(&mut task, &mut stats, &nav, Vec2::new(0.0, 0.0));
    assert_eq!(outcome, PollOutcome::NotWaiting);
    assert!(agent.is_idle());
    assert!(task.has_waypoints());
    assert!(stats.durations().is_empty());
}

#[test]
fn round_trip_of_a_reachable_request() {
    let nav = open_field();
    let mut agent = Agent::new();
    let mut stats = Stats::new();
    let from = Vec2::new(-4.0, 1.0);
    let to = Vec2::new(3.0, -2.0);
    agent.assign_target(to);
    let request = agent.request_path(from).expect("a target without a task");
    let mut task = PathTask::new();
    assert_eq!(agent.poll(&mut task, &mut stats, &nav, from), PollOutcome::Pending);
    task.complete(nav.path(request.from, request.to), 5, 12);
    assert_eq!(agent.poll(&mut task, &mut stats, &nav, from), PollOutcome::PathFound);
    assert_eq!(agent.state(), AgentState::PathFollowing);
    assert!(!agent.has_task());
    let path = agent.path().expect("the agent follows a path");
    assert!(!path.is_empty());
    assert_eq!(*path.last().unwrap(), to);
    assert_eq!(agent.next_waypoint(), Some(path[0]));
    assert_eq!(agent.target(), Some(to));
    assert_eq!(stats.durations(), vec![7]);
    assert_eq!(stats.delays(), vec![5]);
}

#[test]
fn polling_again_after_the_merge_changes_nothing() {
    let nav = open_field();
    let mut agent = Agent::new();
    let mut stats = Stats::new();
    agent.assign_target(Vec2::new(3.0, -2.0));
    agent.request_path(Vec2::new(0.0, 0.0));
    let mut task = PathTask::new();
    task.complete(Some(vec![Vec2::new(1.0, 0.0), Vec2::new(3.0, -2.0)]), 5, 12);
    assert_eq!(
        agent.poll(&mut task, &mut stats, &nav, Vec2::new(0.0, 0.0)),
        PollOutcome::PathFound
    );
    assert_eq!(
        agent.poll(&mut task, &mut stats, &nav, Vec2::new(0.0, 0.0)),
        PollOutcome::NotWaiting
    );
    assert_eq!(agent.state(), AgentState::PathFollowing);
    assert_eq!(agent.path().unwrap().len(), 2);
    assert_eq!(stats.durations(), vec![7]);
    assert_eq!(stats.delays(), vec![5]);
    assert!(task.is_done());
    assert!(!task.has_waypoints());
}

#[test]
fn unreachable_target_makes_the_agent_idle_again() {
    let nav = strip();
    let mut agent = Agent::new();
    let mut stats = Stats::new();
    let from = Vec2::new(0.0, 0.0);
    let to = Vec2::new(32.0, 0.0);
    agent.assign_target(to);
    let request = agent.request_path(from).expect("a target without a task");
    let mut task = PathTask::new();
    let found = nav.path(request.from, request.to);
    assert!(found.is_none());
    task.complete(found, 2, 9);
    let outcome = agent.poll(&mut task, &mut stats, &nav, from);
    assert_eq!(outcome, PollOutcome::Unreachable);
    assert!(agent.is_idle());
    assert!(!agent.has_task());
    assert!(agent.target().is_none());
    assert_eq!(stats.durations(), vec![7]);
    assert_eq!(stats.delays(), vec![2]);
    // The agent may take a new target in the next cycle.
    assert!(agent.assign_target(Vec2::new(1.0, 1.0)));
}

#[test]
fn agent_off_the_mesh_without_a_path_is_removed() {
    let nav = strip();
    let mut agent = Agent::new();
    let mut stats = Stats::new();
    let from = Vec2::new(16.0, 0.0);
    agent.assign_target(Vec2::new(32.0, 0.0));
    let request = agent.request_path(from).expect("a target without a task");
    let mut task = PathTask::new();
    task.complete(nav.path(request.from, request.to), 2, 9);
    let outcome = agent.poll(&mut task, &mut stats, &nav, from);
    assert_eq!(outcome, PollOutcome::Destroyed);
    assert!(agent.is_idle());
}

#[test]
fn empty_path_counts_as_no_path() {
    let nav = open_field();
    let mut agent = Agent::new();
    let mut stats = Stats::new();
    agent.assign_target(Vec2::new(3.0, -2.0));
    agent.request_path(Vec2::new(0.0, 0.0));
    let mut task = PathTask::new();
    task.complete(Some(vec![]), 0, 1);
    let outcome = agent.poll(&mut task, &mut stats, &nav, Vec2::new(0.0, 0.0));
    assert_eq!(outcome, PollOutcome::Unreachable);
    assert!(agent.is_idle());
}

#[test]
fn merge_takes_the_answer_of_the_mesh_as_given() {
    let mut agent = Agent::new();
    let mut stats = Stats::new();
    agent.assign_target(Vec2::new(3.0, -2.0));
    agent.request_path(Vec2::new(0.0, 0.0));
    let mut task = PathTask::new();
    task.complete(None, 0, 1);
    assert_eq!(agent.merge(&mut task, &mut stats, false), PollOutcome::Destroyed);
    let mut other = Agent::new();
    other.assign_target(Vec2::new(3.0, -2.0));
    other.request_path(Vec2::new(0.0, 0.0));
    let mut second = PathTask::new();
    second.complete(None, 0, 1);
    assert_eq!(other.merge(&mut second, &mut stats, true), PollOutcome::Unreachable);
    assert_eq!(stats.durations(), vec![1, 1]);
}

#[test]
fn waypoints_are_used_up_on_arrival() {
    let nav = open_field();
    let mut agent = Agent::new();
    let mut stats = Stats::new();
    let a = Vec2::new(1.0, 0.0);
    let b = Vec2::new(3.0, -2.0);
    agent.assign_target(b);
    agent.request_path(Vec2::new(0.0, 0.0));
    let mut task = PathTask::new();
    task.complete(Some(vec![a, b]), 5, 12);
    agent.poll(&mut task, &mut stats, &nav, Vec2::new(0.0, 0.0));
    assert_eq!(agent.next_waypoint(), Some(a));
    assert!(!agent.advance(false));
    assert_eq!(agent.next_waypoint(), Some(a));
    assert!(!agent.advance(true));
    assert_eq!(agent.next_waypoint(), Some(b));
    assert_eq!(agent.state(), AgentState::PathFollowing);
    assert!(agent.advance(true));
    assert!(agent.is_idle());
    assert!(agent.target().is_none());
    assert!(agent.path().is_none());
}

#[test]
fn advance_leaves_other_states_alone() {
    let mut agent = Agent::new();
    assert!(!agent.advance(true));
    assert!(agent.is_idle());
    agent.assign_target(Vec2::new(1.0, 1.0));
    assert!(!agent.advance(true));
    assert_eq!(agent.state(), AgentState::Targeting);
}

#[test]
fn spawning_stops_at_the_limit() {
    let mut count = NavigatorCount::default();
    assert_eq!(count.0, 0);
    let mut batches = 0u64;
    while count.let_in(40) {
        batches += 1;
    }
    assert_eq!(batches, 250);
    assert_eq!(count.0, SPAWN_LIMIT);
    assert!(!count.let_in(40));
    assert_eq!(count.0, 10000);
}

#[test]
fn last_batch_may_pass_the_limit() {
    let mut count = NavigatorCount(9_999);
    assert!(count.let_in(40));
    assert_eq!(count.0, 10_039);
    assert!(!count.let_in(1));
}

#[test]
fn count_does_not_wrap() {
    let mut count = NavigatorCount(5);
    assert!(count.let_in(u64::MAX));
    assert_eq!(count.0, u64::MAX);
}

#[test]
fn lines_of_a_path_end_with_the_one_from_the_agent() {
    let nav = open_field();
    let mut agent = Agent::new();
    let mut stats = Stats::new();
    let here = Vec2::new(0.0, 0.0);
    let a = Vec2::new(1.0, 0.0);
    let b = Vec2::new(3.0, -2.0);
    let c = Vec2::new(5.0, -2.0);
    assert!(agent.display_path(here, DisplayMode::Line).is_empty());
    agent.assign_target(c);
    agent.request_path(here);
    let mut task = PathTask::new();
    task.complete(Some(vec![a, b, c]), 5, 12);
    agent.poll(&mut task, &mut stats, &nav, here);
    assert_eq!(agent.display_path(here, DisplayMode::Line), vec![(a, b), (b, c), (here, a)]);
    assert!(agent.display_path(here, DisplayMode::Nothing).is_empty());
}
