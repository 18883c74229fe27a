use vstd::prelude::*;

verus! {

/// A reference to at most one entity of the plan: the hover target of a tick,
/// or the selection snapshot stored with a transaction.
#[derive(Clone, Copy, PartialEq, Eq, Structural, Debug)]
pub enum Element {
    Empty,
    Point(usize),
    Line(usize),
}

/// Why a point is being tracked, so that cancelling routes to the right
/// recovery: discard a fresh point, restore a moved one, reselect the origin
/// of an extension, or reselect the line a split replaced.
#[derive(Clone, Copy, PartialEq, Eq, Structural, Debug)]
pub enum TrackMode {
    Create,
    Move,
    Extend(usize),
    Split(usize),
}

/// Sub-mode of a selected point: plainly selected, or tracked (following the
/// pointer until placed or cancelled).
#[derive(Clone, Copy, PartialEq, Eq, Structural, Debug)]
pub enum PointMode {
    Normal,
    Track(TrackMode),
}

/// The plan-mode state machine: what is selected, and how. Transitions go
/// only through editor commands, never by direct assignment from input code.
#[derive(Clone, Copy, PartialEq, Eq, Structural, Debug)]
pub enum PlanMode {
    Normal,
    Point(usize, PointMode),
    Line(usize),
}

impl PlanMode {
    /// The selected entity, with a tracked point counting as selected.
    pub open spec fn spec_selection(self) -> Element {
        match self {
            PlanMode::Normal => Element::Empty,
            PlanMode::Point(point, _) => Element::Point(point),
            PlanMode::Line(line) => Element::Line(line),
        }
    }

    /// The selected entity, with a tracked point counting as selected.
    pub fn selection(&self) -> (e: Element)
        ensures
            e == self.spec_selection(),
    {
        match *self {
            PlanMode::Normal => Element::Empty,
            PlanMode::Point(point, _) => Element::Point(point),
            PlanMode::Line(line) => Element::Line(line),
        }
    }

    /// Whether this mode is tracking a point.
    pub open spec fn spec_is_tracking(self) -> bool {
        self matches PlanMode::Point(_, PointMode::Track(_))
    }
}

/// The mode a selection snapshot restores: selecting an element again never
/// restores a tracking sub-mode, only a plain selection.
pub open spec fn element_mode(e: Element) -> PlanMode {
    match e {
        Element::Empty => PlanMode::Normal,
        Element::Point(point) => PlanMode::Point(point, PointMode::Normal),
        Element::Line(line) => PlanMode::Line(line),
    }
}

/// Exec mirror of [`element_mode`].
pub fn element_to_mode(e: Element) -> (m: PlanMode)
    ensures
        m == element_mode(e),
{
    match e {
        Element::Empty => PlanMode::Normal,
        Element::Point(point) => PlanMode::Point(point, PointMode::Normal),
        Element::Line(line) => PlanMode::Line(line),
    }
}

/// A selection snapshot loses nothing on a non-tracking mode: restoring it
/// yields the mode it was taken from.
pub proof fn lemma_selection_roundtrip(m: PlanMode)
    requires
        !m.spec_is_tracking(),
    ensures
        element_mode(m.spec_selection()) == m,
{
}

} // verus!
