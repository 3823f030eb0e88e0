//! The two switches of the simulation: how path tasks are run, and whether
//! paths are drawn.

use vstd::prelude::*;

verus! {

/// How a worker runs a path search: in steps that give way to other tasks, or
/// in one go.
#[derive(Clone, Copy, Debug, PartialEq, Eq, Structural)]
pub enum TaskMode {
    Async,
    Blocking,
}

/// What is drawn of an agent's path.
#[derive(Clone, Copy, Debug, PartialEq, Eq, Structural)]
pub enum DisplayMode {
    Line,
    Nothing,
}

impl TaskMode {
    /// The other mode.
    pub fn toggled(self) -> (r: TaskMode)
        ensures
            r == self.flipped(),
    {
        match self {
            TaskMode::Async => TaskMode::Blocking,
            TaskMode::Blocking => TaskMode::Async,
        }
    }

    /// The mode's name as the display shows it.
    pub fn label(self) -> (r: &'static str)
        ensures
            r@ == (match self {
                TaskMode::Async => "Async"@,
                TaskMode::Blocking => "Blocking"@,
            }),
    {
        match self {
            TaskMode::Async => "Async",
            TaskMode::Blocking => "Blocking",
        }
    }
}

impl DisplayMode {
    /// The other mode.
    pub fn toggled(self) -> (r: DisplayMode)
        ensures
            r == self.flipped(),
    {
        match self {
            DisplayMode::Line => DisplayMode::Nothing,
            DisplayMode::Nothing => DisplayMode::Line,
        }
    }

    /// What pressing the display switch would do, as the display words it.
    pub fn toggle_label(self) -> (r: &'static str)
        ensures
            r@ == (match self {
                DisplayMode::Line => "hide lines"@,
                DisplayMode::Nothing => "display lines"@,
            }),
    {
        match self {
            DisplayMode::Line => "hide lines",
            DisplayMode::Nothing => "display lines",
        }
    }
}

/// Both switches together.
#[derive(Clone, Copy, Debug, PartialEq, Eq, Structural)]
pub struct Modes {
    pub task_mode: TaskMode,
    pub display_mode: DisplayMode,
}

impl Modes {
    /// Flips each switch whose key was pressed.
    pub fn mode_change(&mut self, switch_task: bool, switch_display: bool)
        ensures
            final(self).task_mode == (if switch_task {
                old(self).task_mode.flipped()
            } else {
                old(self).task_mode
            }),
            final(self).display_mode == (if switch_display {
                old(self).display_mode.flipped()
            } else {
                old(self).display_mode
            }),
    {
        if switch_task {
            self.task_mode = self.task_mode.toggled();
        }
        if switch_display {
            self.display_mode = self.display_mode.toggled();
        }
    }
}

impl TaskMode {
    /// The other mode.
    pub open spec fn flipped(self) -> TaskMode {
        match self {
            TaskMode::Async => TaskMode::Blocking,
            TaskMode::Blocking => TaskMode::Async,
        }
    }
}

impl DisplayMode {
    /// The other mode.
    pub open spec fn flipped(self) -> DisplayMode {
        match self {
            DisplayMode::Line => DisplayMode::Nothing,
            DisplayMode::Nothing => DisplayMode::Line,
        }
    }
}

/// The navigation stage of the simulation and the settings it starts with.
#[derive(Clone, Copy, Debug)]
pub struct MyNavPlugin;

impl MyNavPlugin {
    /// The switches at start-up: searches run in one go, and paths are drawn.
    pub fn modes(&self) -> (r: Modes)
        ensures
            r.task_mode == TaskMode::Blocking,
            r.display_mode == DisplayMode::Line,
    {
        Modes { task_mode: TaskMode::Blocking, display_mode: DisplayMode::Line }
    }

    /// The least number of worker threads that path tasks are given.
    pub fn min_threads(&self) -> (r: usize)
        ensures
            r == 1,
    {
        1
    }
}

} // verus!
