//! Decisions of the interactive task screen: how a key press moves the
//! selection or marks a task done. Rendering and raw terminal handling are
//! the caller's concern; the caller feeds events in and performs the
//! returned action.

use vstd::prelude::*;

use crate::tasks::TaskStatus;

verus! {

/// A key press, reduced to what the screen reacts to.
#[derive(Debug, Clone, Copy, PartialEq, Eq, Structural)]
pub enum TuiEvent {
    /// `q` or escape: leave the screen.
    Quit,
    /// `j` or arrow down: move the selection down.
    Down,
    /// `k` or arrow up: move the selection up.
    Up,
    /// `d`: mark the selected task done.
    MarkDone,
    /// Anything else.
    Other,
}

/// What the caller must do after a step.
#[derive(Debug, Clone, Copy, PartialEq, Eq, Structural)]
pub enum TuiAction {
    /// Keep showing the screen.
    Continue,
    /// Leave the screen.
    Exit,
    /// Set the task at the selected index to the given status, then keep
    /// showing the screen.
    SetStatus(usize, TaskStatus),
}

/// The screen's state: how many tasks are listed and which is selected.
/// With no tasks the selection stays at zero.
#[derive(Debug, Clone, Copy, PartialEq, Eq, Structural)]
pub struct TuiState {
    pub count: usize,
    pub selected: usize,
}

impl TuiState {
    /// The selection points at a task whenever there is one.
    pub open spec fn wf(&self) -> bool {
        self.count > 0 ==> self.selected < self.count
    }

    /// The screen over `count` tasks, top task selected.
    pub fn new(count: usize) -> (r: TuiState)
        ensures
            r.count == count,
            r.selected == 0,
            r.wf(),
    {
        TuiState { count, selected: 0 }
    }

    /// One step of the screen: moving clamps the selection to the list,
    /// `d` asks for the selected task to be marked done when there is one,
    /// and quitting exits; nothing else changes the state.
    pub fn step(&self, event: TuiEvent) -> (r: (TuiState, TuiAction))
        requires
            self.wf(),
        ensures
            r.0.wf(),
            r.0.count == self.count,
            event is Quit ==> r.1 == TuiAction::Exit && r.0 == *self,
            event is Down ==> r.1 == TuiAction::Continue
                && (self.count == 0 ==> r.0 == *self)
                && (self.count > 0 ==> r.0.selected == if self.selected + 1 < self.count {
                    self.selected + 1
                } else {
                    (self.count - 1) as int
                }),
            event is Up ==> r.1 == TuiAction::Continue
                && r.0.selected == if self.selected > 0 { self.selected - 1 } else { 0 },
            event is MarkDone ==> r.0 == *self
                && (self.count == 0 ==> r.1 == TuiAction::Continue)
                && (self.count > 0
                    ==> r.1 == TuiAction::SetStatus(self.selected, TaskStatus::Done)),
            event is Other ==> r.1 == TuiAction::Continue && r.0 == *self,
    {
        match event {
            TuiEvent::Quit => (*self, TuiAction::Exit),
            TuiEvent::Down => {
                if self.count == 0 {
                    (*self, TuiAction::Continue)
                } else if self.selected + 1 < self.count {
                    (TuiState { count: self.count, selected: self.selected + 1 }, TuiAction::Continue)
                } else {
                    (TuiState { count: self.count, selected: self.count - 1 }, TuiAction::Continue)
                }
            },
            TuiEvent::Up => {
                if self.selected > 0 {
                    (TuiState { count: self.count, selected: self.selected - 1 }, TuiAction::Continue)
                } else {
                    (TuiState { count: self.count, selected: 0 }, TuiAction::Continue)
                }
            },
            TuiEvent::MarkDone => {
                if self.count == 0 {
                    (*self, TuiAction::Continue)
                } else {
                    (*self, TuiAction::SetStatus(self.selected, TaskStatus::Done))
                }
            },
            TuiEvent::Other => (*self, TuiAction::Continue),
        }
    }
}

} // verus!
