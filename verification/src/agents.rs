//! Agents and their path requests.
//!
//! An agent is idle, or it has a target and waits for a path, or it follows a
//! path. While it waits, at most one path task is in flight for it: a request
//! is handed out only to an agent that has a target and no task yet. A task is
//! a cell that a worker fills once; polling the cell merges a finished result
//! into the agent and into the statistics, once.

use crate::mesh::{in_mesh, Point};
use crate::modes::DisplayMode;
use crate::navmesh::{NavView, TempNavmesh};
use crate::stats::{with_sample, Stats, StatsView};
use vstd::prelude::*;

verus! {

/// The most agents that are ever spawned.
pub const SPAWN_LIMIT: u64 = 10000;

/// How many agents have been spawned.
#[derive(Clone, Copy, Debug)]
pub struct NavigatorCount(pub u64);

impl Default for NavigatorCount {
    fn default() -> (r: NavigatorCount)
        ensures
            r.0 == 0,
    {
        NavigatorCount(0)
    }
}

impl NavigatorCount {
    /// Asks to spawn a batch of agents. The batch is let in, and counted,
    /// unless the count has reached [`SPAWN_LIMIT`]; a count that cannot take
    /// the batch stays at the largest number.
    pub fn let_in(&mut self, batch: u64) -> (admitted: bool)
        ensures
            admitted == (old(self).0 < SPAWN_LIMIT),
            admitted ==> final(self).0 == if old(self).0 + batch > u64::MAX {
                u64::MAX as int
            } else {
                old(self).0 + batch
            },
            !admitted ==> final(self).0 == old(self).0,
    {
        if self.0 >= SPAWN_LIMIT {
            return false;
        }
        self.0 = if batch > u64::MAX - self.0 {
            u64::MAX
        } else {
            self.0 + batch
        };
        true
    }
}

/// One path search to run: from where to where.
pub struct PathRequest {
    pub from: Point,
    pub to: Point,
}

/// Which of its three states an agent is in.
#[derive(Clone, Copy, Debug, PartialEq, Eq, Structural)]
pub enum AgentState {
    Idle,
    Targeting,
    PathFollowing,
}

/// What came of polling an agent's task.
#[derive(Clone, Copy, Debug, PartialEq, Eq, Structural)]
pub enum PollOutcome {
    /// The agent has no task in flight; nothing was done.
    NotWaiting,
    /// The task has not finished; nothing was done.
    Pending,
    /// A path was found and the agent now follows it.
    PathFound,
    /// No path was found; the agent is idle again.
    Unreachable,
    /// No path was found and the agent stands off the mesh: it is idle and
    /// has to be removed.
    Destroyed,
}

/// What a task cell holds, mathematically.
pub struct TaskView {
    pub path: Option<Seq<Point>>,
    pub done: bool,
    pub delay: u64,
    pub duration: u64,
}

impl TaskView {
    /// The waypoints in the cell; none where it holds no path.
    pub open spec fn waypoints(self) -> Seq<Point> {
        match self.path {
            Some(path) => path,
            None => Seq::empty(),
        }
    }
}

/// The result cell of one path task. The worker fills it once; after that it
/// is only read.
pub struct PathTask {
    path: Option<Vec<Point>>,
    done: bool,
    delay: u64,
    duration: u64,
}

impl View for PathTask {
    type V = TaskView;

    closed spec fn view(&self) -> TaskView {
        TaskView {
            path: match self.path {
                Some(p) => Some(p@),
                None => None,
            },
            done: self.done,
            delay: self.delay,
            duration: self.duration,
        }
    }
}

impl PathTask {
    /// A cell that waits for its result.
    pub fn new() -> (r: PathTask)
        ensures
            r@ == (TaskView { path: None, done: false, delay: 0, duration: 0 }),
    {
        PathTask { path: None, done: false, delay: 0, duration: 0 }
    }

    /// The worker's write: the path it found, if any, how long the task
    /// waited before the worker started, and how long after the request the
    /// worker finished. The search duration is the time between the two. A
    /// cell that is already filled stays as it is.
    pub fn complete(&mut self, path: Option<Vec<Point>>, delay: u64, elapsed: u64)
        ensures
            old(self)@.done ==> final(self)@ == old(self)@,
            !old(self)@.done ==> final(self)@ == (TaskView {
                path: match path {
                    Some(p) => Some(p@),
                    None => None,
                },
                done: true,
                delay,
                duration: if elapsed >= delay {
                    (elapsed - delay) as u64
                } else {
                    0
                },
            }),
    {
        if self.done {
            return ;
        }
        self.path = path;
        self.done = true;
        self.delay = delay;
        self.duration = if elapsed >= delay {
            elapsed - delay
        } else {
            0
        };
    }

    pub fn is_done(&self) -> (r: bool)
        ensures
            r == self@.done,
    {
        self.done
    }

    /// The two timing samples of the cell: search duration and dispatch delay.
    pub fn timings(&self) -> (r: (u64, u64))
        ensures
            r.0 == self@.duration,
            r.1 == self@.delay,
    {
        (self.duration, self.delay)
    }
}

impl Default for PathTask {
    fn default() -> (r: PathTask)
        ensures
            r@ == (TaskView { path: None, done: false, delay: 0, duration: 0 }),
    {
        PathTask::new()
    }
}

/// What an agent is, mathematically.
pub enum AgentView {
    Idle,
    Targeting { target: Point, in_flight: bool },
    PathFollowing { target: Point, path: Seq<Point> },
}

/// An agent after a poll, the task cell after it, what came of it, and
/// whether the task's result was merged.
pub struct Polled {
    pub agent: AgentView,
    pub task: TaskView,
    pub outcome: PollOutcome,
    pub merged: bool,
}

impl AgentView {
    /// An agent that follows a path has a waypoint ahead of it.
    pub open spec fn wf(self) -> bool {
        self matches AgentView::PathFollowing { path, .. } ==> path.len() > 0
    }

    /// The number of path tasks in flight for the agent.
    pub open spec fn tasks_in_flight(self) -> nat {
        match self {
            AgentView::Targeting { in_flight: true, .. } => 1,
            _ => 0,
        }
    }

    /// The agent after the target picker has come by: an idle agent takes the
    /// target, every other agent stays as it is.
    pub open spec fn assigned(self, target: Point) -> AgentView {
        match self {
            AgentView::Idle => AgentView::Targeting { target, in_flight: false },
            _ => self,
        }
    }

    /// Whether a path request is handed out for the agent: it has a target
    /// and no task in flight.
    pub open spec fn may_request(self) -> bool {
        self matches AgentView::Targeting { in_flight: false, .. }
    }

    /// The agent after the dispatch has come by.
    pub open spec fn requested(self) -> AgentView {
        match self {
            AgentView::Targeting { target, in_flight: false } => AgentView::Targeting {
                target,
                in_flight: true,
            },
            _ => self,
        }
    }

    /// What a poll does. The result of a finished task is merged into an
    /// agent that waits for it: a path with waypoints makes the agent follow
    /// it; otherwise the agent becomes idle, and where it stands off the mesh
    /// it is to be removed. The path leaves the cell. Nothing else changes
    /// anything.
    pub open spec fn polled(self, task: TaskView, inside: bool) -> Polled {
        match self {
            AgentView::Targeting { target, in_flight: true } => if !task.done {
                Polled { agent: self, task, outcome: PollOutcome::Pending, merged: false }
            } else if task.waypoints().len() > 0 {
                Polled {
                    agent: AgentView::PathFollowing { target, path: task.waypoints() },
                    task: TaskView { path: None, ..task },
                    outcome: PollOutcome::PathFound,
                    merged: true,
                }
            } else {
                Polled {
                    agent: AgentView::Idle,
                    task: TaskView { path: None, ..task },
                    outcome: if inside {
                        PollOutcome::Unreachable
                    } else {
                        PollOutcome::Destroyed
                    },
                    merged: true,
                }
            },
            _ => Polled { agent: self, task, outcome: PollOutcome::NotWaiting, merged: false },
        }
    }

    /// The agent after a step of its motion: on arrival at the waypoint ahead
    /// the waypoint is used up, and with the last waypoint the agent becomes
    /// idle.
    pub open spec fn advanced(self, arrived: bool) -> AgentView {
        match self {
            AgentView::PathFollowing { target, path } => if path.len() == 0 {
                AgentView::Idle
            } else if arrived {
                if path.len() == 1 {
                    AgentView::Idle
                } else {
                    AgentView::PathFollowing { target, path: path.drop_first() }
                }
            } else {
                self
            },
            _ => self,
        }
    }
}

/// The lines that show a path to an agent at `position`: one between each
/// waypoint and the next, and after them one from the agent to the first
/// waypoint.
pub open spec fn path_lines(position: Point, path: Seq<Point>) -> Seq<(Point, Point)> {
    if path.len() == 0 {
        Seq::empty()
    } else {
        Seq::new((path.len() - 1) as nat, |n: int| (path[n], path[n + 1])).push(
            (position, path[0]),
        )
    }
}

/// The statistics after a poll: a merged result leaves its two samples.
pub open spec fn stats_after(stats: StatsView, task: TaskView, merged: bool) -> StatsView {
    if merged {
        StatsView {
            durations: with_sample(stats.durations, task.duration),
            delays: with_sample(stats.delays, task.delay),
        }
    } else {
        stats
    }
}

/// Whether a point lies on a baked mesh.
pub open spec fn on_mesh(nav: NavView, point: Point) -> bool {
    match nav.mesh {
        Some(m) => in_mesh(m, point),
        None => false,
    }
}

enum AgentStatus {
    Idle,
    Targeting { target: Point, in_flight: bool },
    PathFollowing { target: Point, path: Vec<Point> },
}

/// One agent of the crowd.
pub struct Agent {
    status: AgentStatus,
}

impl View for Agent {
    type V = AgentView;

    closed spec fn view(&self) -> AgentView {
        match self.status {
            AgentStatus::Idle => AgentView::Idle,
            AgentStatus::Targeting { target, in_flight } => AgentView::Targeting {
                target,
                in_flight,
            },
            AgentStatus::PathFollowing { target, path } => AgentView::PathFollowing {
                target,
                path: path@,
            },
        }
    }
}

impl Agent {
    /// An idle agent.
    pub fn new() -> (r: Agent)
        ensures
            r@ == AgentView::Idle,
    {
        Agent { status: AgentStatus::Idle }
    }

    pub fn state(&self) -> (r: AgentState)
        ensures
            r == (match self@ {
                AgentView::Idle => AgentState::Idle,
                AgentView::Targeting { .. } => AgentState::Targeting,
                AgentView::PathFollowing { .. } => AgentState::PathFollowing,
            }),
    {
        match &self.status {
            AgentStatus::Idle => AgentState::Idle,
            AgentStatus::Targeting { .. } => AgentState::Targeting,
            AgentStatus::PathFollowing { .. } => AgentState::PathFollowing,
        }
    }

    /// Whether the agent has neither target nor task nor path.
    pub fn is_idle(&self) -> (r: bool)
        ensures
            r == (self@ is Idle),
    {
        match &self.status {
            AgentStatus::Idle => true,
            _ => false,
        }
    }

    /// Whether a path task is in flight for the agent.
    pub fn has_task(&self) -> (r: bool)
        ensures
            r == (self@.tasks_in_flight() == 1),
            self@.tasks_in_flight() <= 1,
    {
        match &self.status {
            AgentStatus::Targeting { in_flight, .. } => *in_flight,
            _ => false,
        }
    }

    /// The agent's target, if it has one.
    pub fn target(&self) -> (r: Option<Point>)
        ensures
            r == (match self@ {
                AgentView::Idle => None,
                AgentView::Targeting { target, .. } => Some(target),
                AgentView::PathFollowing { target, .. } => Some(target),
            }),
    {
        match &self.status {
            AgentStatus::Idle => None,
            AgentStatus::Targeting { target, .. } => Some(*target),
            AgentStatus::PathFollowing { target, .. } => Some(*target),
        }
    }

    /// The waypoints ahead of an agent that follows a path.
    pub fn path(&self) -> (r: Option<&Vec<Point>>)
        ensures
            match self@ {
                AgentView::PathFollowing { path, .. } => r matches Some(p) && p@ == path,
                _ => r.is_none(),
            },
    {
        match &self.status {
            AgentStatus::PathFollowing { path, .. } => Some(path),
            _ => None,
        }
    }

    /// The waypoint that an agent on a path walks towards.
    pub fn next_waypoint(&self) -> (r: Option<Point>)
        ensures
            r == (match self@ {
                AgentView::PathFollowing { path, .. } => if path.len() > 0 {
                    Some(path[0])
                } else {
                    None
                },
                _ => None,
            }),
    {
        match &self.status {
            AgentStatus::PathFollowing { path, .. } => {
                if path.len() > 0 {
                    Some(path[0])
                } else {
                    None
                }
            },
            _ => None,
        }
    }

    /// The lines to draw for the agent: those of its path where paths are
    /// drawn and the agent follows one, none otherwise.
    pub fn display_path(&self, position: Point, mode: DisplayMode) -> (r: Vec<(Point, Point)>)
        ensures
            r@ == (match self@ {
                AgentView::PathFollowing { path, .. } => if mode == DisplayMode::Line {
                    path_lines(position, path)
                } else {
                    Seq::empty()
                },
                _ => Seq::empty(),
            }),
    {
        let mut lines: Vec<(Point, Point)> = Vec::new();
        match mode {
            DisplayMode::Nothing => {
                return lines;
            },
            DisplayMode::Line => {},
        }
        match &self.status {
            AgentStatus::PathFollowing { path, .. } => {
                if path.len() > 0 {
                    let mut n: usize = 1;
                    while n < path.len()
                        invariant
                            1 <= n <= path@.len(),
                            lines@ == Seq::new((n - 1) as nat, |k: int| (path@[k], path@[k + 1])),
                        decreases path@.len() - n,
                    {
                        lines.push((path[n - 1], path[n]));
                        n = n + 1;
                    }
                    lines.push((position, path[0]));
                }
            },
            _ => {},
        }
        lines
    }

    /// The target picker's step: gives an idle agent a target. Any other
    /// agent keeps what it has.
    pub fn assign_target(&mut self, target: Point) -> (assigned: bool)
        ensures
            assigned == (old(self)@ is Idle),
            final(self)@ == old(self)@.assigned(target),
            old(self)@.wf() ==> final(self)@.wf(),
    {
        if self.is_idle() {
            self.status = AgentStatus::Targeting { target, in_flight: false };
            true
        } else {
            false
        }
    }

    /// The dispatch step: for an agent that has a target and no task in
    /// flight, marks a task as in flight and says what it has to search, from
    /// the agent's position to its target. For every other agent nothing is
    /// dispatched and nothing changes, so that no agent ever has two tasks.
    pub fn request_path(&mut self, from: Point) -> (r: Option<PathRequest>)
        ensures
            r.is_some() == old(self)@.may_request(),
            final(self)@ == old(self)@.requested(),
            r matches Some(request) ==> {
                &&& request.from == from
                &&& old(self)@ matches AgentView::Targeting { target, .. } && request.to == target
                &&& old(self)@.tasks_in_flight() == 0
                &&& final(self)@.tasks_in_flight() == 1
            },
            old(self)@.wf() ==> final(self)@.wf(),
    {
        let waiting: Option<Point> = match &self.status {
            AgentStatus::Targeting { target, in_flight } => {
                if *in_flight {
                    None
                } else {
                    Some(*target)
                }
            },
            _ => None,
        };
        match waiting {
            Some(target) => {
                self.status = AgentStatus::Targeting { target, in_flight: true };
                Some(PathRequest { from, to: target })
            },
            None => None,
        }
    }

    /// The target of an agent that waits for a task's result.
    fn awaited(&self) -> (r: Option<Point>)
        ensures
            r == (match self@ {
                AgentView::Targeting { target, in_flight: true } => Some(target),
                _ => None,
            }),
    {
        match &self.status {
            AgentStatus::Targeting { target, in_flight } => {
                if *in_flight {
                    Some(*target)
                } else {
                    None
                }
            },
            _ => None,
        }
    }

    /// Merges the result of the agent's task, given whether the agent stands
    /// on the mesh. See [`AgentView::polled`].
    pub fn merge(&mut self, task: &mut PathTask, stats: &mut Stats, inside: bool) -> (outcome:
        PollOutcome)
        ensures
            final(self)@ == old(self)@.polled(old(task)@, inside).agent,
            final(task)@ == old(self)@.polled(old(task)@, inside).task,
            outcome == old(self)@.polled(old(task)@, inside).outcome,
            final(stats)@ == stats_after(
                old(stats)@,
                old(task)@,
                old(self)@.polled(old(task)@, inside).merged,
            ),
            old(self)@.wf() ==> final(self)@.wf(),
    {
        let target: Point = match self.awaited() {
            Some(target) => target,
            None => {
                return PollOutcome::NotWaiting;
            },
        };
        if !task.done {
            return PollOutcome::Pending;
        }
        stats.record(task.duration, task.delay);
        let found: Option<Vec<Point>> = task.path.take();
        match found {
            Some(path) => {
                if path.len() > 0 {
                    self.status = AgentStatus::PathFollowing { target, path };
                    return PollOutcome::PathFound;
                }
            },
            None => {},
        }
        self.status = AgentStatus::Idle;
        if inside {
            PollOutcome::Unreachable
        } else {
            PollOutcome::Destroyed
        }
    }
    /// Polls the agent's task. This is [`Agent::merge`] with the mesh asked
    /// whether the agent's position lies on it; the mesh is asked only where
    /// a finished task has brought no path.
    pub fn poll(
        &mut self,
        task: &mut PathTask,
        stats: &mut Stats,
        navmesh: &TempNavmesh,
        position: Point,
    ) -> (outcome: PollOutcome)
        ensures
            final(self)@ == old(self)@.polled(old(task)@, on_mesh(navmesh@, position)).agent,
            final(task)@ == old(self)@.polled(old(task)@, on_mesh(navmesh@, position)).task,
            outcome == old(self)@.polled(old(task)@, on_mesh(navmesh@, position)).outcome,
            final(stats)@ == stats_after(
                old(stats)@,
                old(task)@,
                old(self)@.polled(old(task)@, on_mesh(navmesh@, position)).merged,
            ),
            old(self)@.wf() ==> final(self)@.wf(),
    {
        let lost: bool = self.has_task() && task.done && !task.has_waypoints();
        let inside: bool = if lost {
            navmesh.is_in_mesh(position)
        } else {
            true
        };
        self.merge(task, stats, inside)
    }

    /// The motion step: says whether the agent has come to the end of its
    /// path. `arrived` tells whether the agent is within reach of the
    /// waypoint ahead; if so, the waypoint is used up. See
    /// [`AgentView::advanced`].
    pub fn advance(&mut self, arrived: bool) -> (finished: bool)
        ensures
            final(self)@ == old(self)@.advanced(arrived),
            finished == (old(self)@ is PathFollowing && final(self)@ is Idle),
            final(self)@.wf(),
    {
        let mut finished: bool = false;
        match &mut self.status {
            AgentStatus::PathFollowing { path, .. } => {
                if arrived && path.len() > 0 {
                    let ghost before = path@;
                    path.remove(0);
                    assert(path@ == before.drop_first());
                }
                if path.len() == 0 {
                    finished = true;
                }
            },
            _ => {},
        }
        if finished {
            self.status = AgentStatus::Idle;
        }
        finished
    }
}

impl PathTask {
    /// Whether the cell holds a path with at least one waypoint.
    pub fn has_waypoints(&self) -> (r: bool)
        ensures
            r == (self@.waypoints().len() > 0),
    {
        match &self.path {
            Some(path) => path.len() > 0,
            None => false,
        }
    }
}

/// No agent ever has more than one path task in flight, and none of the
/// steps gives it a second: a request is handed out only to an agent without
/// a task, and after it the agent has exactly one, so that the next request
/// is refused.
pub proof fn law_one_task_per_agent(agent: AgentView, target: Point, task: TaskView, inside: bool, arrived: bool)
    ensures
        agent.tasks_in_flight() <= 1,
        agent.may_request() ==> agent.tasks_in_flight() == 0 && agent.requested().tasks_in_flight()
            == 1,
        !agent.requested().may_request(),
        agent.assigned(target).tasks_in_flight() == agent.tasks_in_flight(),
        agent.polled(task, inside).agent.tasks_in_flight() <= agent.tasks_in_flight(),
        agent.advanced(arrived).tasks_in_flight() == agent.tasks_in_flight(),
{
}

/// Polling again after a result has been merged does nothing: the agent, the
/// cell and the statistics stay as the first poll left them.
pub proof fn law_poll_merges_once(
    agent: AgentView,
    task: TaskView,
    stats: StatsView,
    inside: bool,
    inside_later: bool,
)
    ensures
        ({
            let first = agent.polled(task, inside);
            let second = first.agent.polled(first.task, inside_later);
            first.merged ==> {
                &&& !second.merged
                &&& second.agent == first.agent
                &&& second.task == first.task
                &&& second.outcome == PollOutcome::NotWaiting
                &&& stats_after(stats_after(stats, task, first.merged), first.task, second.merged)
                    == stats_after(stats, task, first.merged)
            }
        }),
{
}

} // verus!
