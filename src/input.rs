use vstd::prelude::*;

verus! {

/// Where the touch is and whether it is down.
#[derive(Debug, Clone, Copy, PartialEq, Eq, Structural)]
pub struct TouchState {
    pub x: i32,
    pub y: i32,
    pub pressed: bool,
}

/// A change in touch state worth reporting.
#[derive(Debug, Clone, Copy, PartialEq, Eq, Structural)]
pub enum TouchEvent {
    PressIn { x: i32, y: i32 },
    PressOut { x: i32, y: i32 },
    Move { x: i32, y: i32 },
}

/// One decoded input report: an absolute axis position (single- or
/// multi-touch alike) or the contact going down or up.
#[derive(Debug, Clone, Copy, PartialEq, Eq, Structural)]
pub enum InputReport {
    AxisX(i32),
    AxisY(i32),
    Contact(bool),
}

/// The state after one report.
pub open spec fn apply_report(s: TouchState, r: InputReport) -> TouchState {
    match r {
        InputReport::AxisX(v) => TouchState { x: v, ..s },
        InputReport::AxisY(v) => TouchState { y: v, ..s },
        InputReport::Contact(down) => TouchState { pressed: down, ..s },
    }
}

/// The state after the reports in order.
pub open spec fn apply_reports(s: TouchState, rs: Seq<InputReport>) -> TouchState
    decreases rs.len(),
{
    if rs.len() == 0 {
        s
    } else {
        apply_report(apply_reports(s, rs.drop_last()), rs.last())
    }
}

impl TouchState {
    /// Folds a batch of reports into the state; `None` when the batch is empty.
    pub fn apply(self, reports: &Vec<InputReport>) -> (r: Option<TouchState>)
        ensures
            reports@.len() == 0 ==> r is None,
            reports@.len() > 0 ==> r == Some(apply_reports(self, reports@)),
    {
        let mut s = self;
        let mut i: usize = 0;
        while i < reports.len()
            invariant
                i <= reports@.len(),
                s == apply_reports(self, reports@.take(i as int)),
            decreases reports@.len() - i,
        {
            proof {
                assert(reports@.take(i + 1).drop_last() =~= reports@.take(i as int));
            }
            s = match reports[i] {
                InputReport::AxisX(v) => TouchState { x: v, ..s },
                InputReport::AxisY(v) => TouchState { y: v, ..s },
                InputReport::Contact(down) => TouchState { pressed: down, ..s },
            };
            i = i + 1;
        }
        proof {
            assert(reports@.take(i as int) =~= reports@);
        }
        if reports.len() == 0 {
            None
        } else {
            Some(s)
        }
    }
}

/// What a move from `prev` to `next` reports: contact going down, contact
/// going up, or else a change of position; nothing when nothing changed.
pub open spec fn transition(prev: TouchState, next: TouchState) -> Option<TouchEvent> {
    if next.pressed && !prev.pressed {
        Some(TouchEvent::PressIn { x: next.x, y: next.y })
    } else if !next.pressed && prev.pressed {
        Some(TouchEvent::PressOut { x: next.x, y: next.y })
    } else if prev.x != next.x || prev.y != next.y {
        Some(TouchEvent::Move { x: next.x, y: next.y })
    } else {
        None
    }
}

/// The event that a change of touch state reports.
pub fn touch_event(prev: TouchState, next: TouchState) -> (e: Option<TouchEvent>)
    ensures
        e == transition(prev, next),
{
    if next.pressed && !prev.pressed {
        Some(TouchEvent::PressIn { x: next.x, y: next.y })
    } else if !next.pressed && prev.pressed {
        Some(TouchEvent::PressOut { x: next.x, y: next.y })
    } else if prev.x != next.x || prev.y != next.y {
        Some(TouchEvent::Move { x: next.x, y: next.y })
    } else {
        None
    }
}

} // verus!
