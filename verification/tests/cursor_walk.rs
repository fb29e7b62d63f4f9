use nixvulns::cursor::{cursor_step, CursorAction, CursorEvent};

#[test]
fn valid_cursor_fetches_current() {
    assert_eq!(cursor_step(CursorEvent::Validity(true)), CursorAction::FetchCurrent);
}

#[test]
fn invalid_cursor_finishes() {
    assert_eq!(cursor_step(CursorEvent::Validity(false)), CursorAction::Finish);
}

#[test]
fn null_current_finishes_without_moving() {
    assert_eq!(cursor_step(CursorEvent::Current(0)), CursorAction::Finish);
}

#[test]
fn non_null_current_is_handed_out() {
    assert_eq!(cursor_step(CursorEvent::Current(0xdead_beef)), CursorAction::AdvanceAndYield(0xdead_beef));
}

/// Drives the decisions over a cursor model: slots in order, 0 for null.
fn walk(slots: &[usize], requests: usize) -> Vec<usize> {
    let mut pos = 0;
    let mut out = Vec::new();
    for _ in 0..requests {
        if cursor_step(CursorEvent::Validity(pos < slots.len())) != CursorAction::FetchCurrent {
            continue;
        }
        if let CursorAction::AdvanceAndYield(item) = cursor_step(CursorEvent::Current(slots[pos])) {
            pos += 1;
            out.push(item);
        }
    }
    out
}

#[test]
fn walk_stops_at_first_null_and_stays_stopped() {
    assert_eq!(walk(&[5, 6, 0, 7], 10), vec![5, 6]);
    assert_eq!(walk(&[5, 6, 7], 10), vec![5, 6, 7]);
    assert_eq!(walk(&[5, 6, 7], 2), vec![5, 6]);
    assert_eq!(walk(&[], 3), Vec::<usize>::new());
}
