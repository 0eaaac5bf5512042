use frodo::tasks::TaskStatus;
use frodo::tui::{TuiAction, TuiEvent, TuiState};

#[test]
fn selection_moves_within_bounds() {
    let s = TuiState::new(3);
    let (s, a) = s.step(TuiEvent::Down);
    assert_eq!(a, TuiAction::Continue);
    assert_eq!(s.selected, 1);
    let (s, _) = s.step(TuiEvent::Down);
    let (s, _) = s.step(TuiEvent::Down);
    assert_eq!(s.selected, 2, "selection stops at the last task");
    let (s, _) = s.step(TuiEvent::Up);
    assert_eq!(s.selected, 1);
}

#[test]
fn mark_done_targets_selection() {
    let s = TuiState::new(2);
    let (s, _) = s.step(TuiEvent::Down);
    let (s2, a) = s.step(TuiEvent::MarkDone);
    assert_eq!(a, TuiAction::SetStatus(1, TaskStatus::Done));
    assert_eq!(s2, s);
}

#[test]
fn quit_exits_and_empty_list_is_inert() {
    let s = TuiState::new(0);
    let (s, a) = s.step(TuiEvent::Quit);
    assert_eq!(a, TuiAction::Exit);
    let (s, a) = s.step(TuiEvent::Down);
    assert_eq!(a, TuiAction::Continue);
    assert_eq!(s.selected, 0);
    let (_, a) = s.step(TuiEvent::MarkDone);
    assert_eq!(a, TuiAction::Continue);
}
