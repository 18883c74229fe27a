use vstd::prelude::*;
use crate::command::{
    apply_command, cmd_applicable, cmd_apply, cmd_inverse, lemma_command_roundtrip,
    lemma_seq_apply_rev_first, lemma_seq_apply_rev_push, seq_apply_rev, Command,
};
use crate::plan::element_to_mode;
use crate::geometry::Position;
use crate::graph::{Graph, GraphView, Line};
use crate::plan::{element_mode, Element, PlanMode, PointMode, TrackMode};

verus! {

/// Everything the editor shows at one instant: the graph model and the
/// current plan mode.
#[verifier::ext_equal]
pub struct EditorView {
    pub graph: GraphView,
    pub mode: PlanMode,
}

/// Whether a mode only names entities that exist in the graph.
pub open spec fn mode_live(m: PlanMode, g: GraphView) -> bool {
    match m {
        PlanMode::Normal => true,
        PlanMode::Point(p, _) => g.points.dom().contains(p),
        PlanMode::Line(l) => g.lines.dom().contains(l),
    }
}

/// A state a commit boundary can hold: no point is being dragged there, and the
/// selection names a live entity.
pub open spec fn state_ok(s: EditorView) -> bool {
    &&& !s.mode.spec_is_tracking()
    &&& mode_live(s.mode, s.graph)
}

/// One committed transaction: the inverses of its commands in the order they
/// were recorded, and the selection before and after the edit.
pub struct Action {
    pub commands: Vec<Command>,
    pub old_selection: Element,
    pub new_selection: Element,
}

impl Action {
    /// Bundles recorded inverses with their selection snapshots.
    pub fn new(commands: Vec<Command>, old_selection: Element, new_selection: Element) -> (a:
        Action)
        ensures
            a.commands == commands,
            a.old_selection == old_selection,
            a.new_selection == new_selection,
    {
        Action { commands, old_selection, new_selection }
    }
}

/// The editor context: the graph store, the plan mode, and the undo/redo
/// engine, owned by the application loop and passed explicitly.
///
/// The engine's model is a history of committed states. `committed()` lists
/// them oldest first, ending in the state of the last commit boundary;
/// `future()` lists the states that undo stepped back over, available to
/// redo. Every mutation goes through commands so its inverse is recorded.
pub struct Editor {
    graph: Graph,
    mode: PlanMode,
    undo_actions: Vec<Action>,
    redo_actions: Vec<Action>,
    uncommitted_commands: Vec<Command>,
    uncommitted_selection: Element,
    committed_states: Ghost<Seq<EditorView>>,
    future_states: Ghost<Seq<EditorView>>,
}

impl Editor {
    /// The current state: graph model plus plan mode.
    pub closed spec fn state(self) -> EditorView {
        EditorView { graph: self.graph@, mode: self.mode }
    }

    /// The states at commit boundaries, oldest first; the last is the state
    /// the in-progress edit started from.
    pub closed spec fn committed(self) -> Seq<EditorView> {
        self.committed_states@
    }

    /// The states undo stepped back over, available to redo; the last is the
    /// one the next redo restores.
    pub closed spec fn future(self) -> Seq<EditorView> {
        self.future_states@
    }

    /// The inverses of the in-progress edit, in the order they were recorded.
    pub closed spec fn uncommitted(self) -> Seq<Command> {
        self.uncommitted_commands@
    }

    /// Tracking holds on to entities of the state it started from, so that
    /// cancelling can reselect them after the rollback.
    spec fn track_base_ok(self) -> bool {
        let base = self.committed_states@.last().graph;
        match self.mode {
            PlanMode::Point(p, PointMode::Track(TrackMode::Move)) => base.points.dom().contains(p),
            PlanMode::Point(_, PointMode::Track(TrackMode::Extend(origin))) => base.points.dom()
                .contains(origin),
            PlanMode::Point(_, PointMode::Track(TrackMode::Split(line))) => base.lines.dom()
                .contains(line),
            _ => true,
        }
    }

    /// The engine's invariant. The committed states form a chain: replaying a
    /// transaction's inverses, last recorded first, steps one boundary back;
    /// the redo stack forms the same chain forward through `future()`.
    pub closed spec fn wf(self) -> bool {
        let committed = self.committed_states@;
        let future = self.future_states@;
        &&& self.graph.inv()
        &&& committed.len() == self.undo_actions@.len() + 1
        &&& future.len() == self.redo_actions@.len()
        &&& seq_apply_rev(self.graph@, self.uncommitted_commands@) == committed.last().graph
        &&& committed.last().mode == element_mode(self.uncommitted_selection)
        &&& forall|i: int|
            0 <= i < self.undo_actions@.len() ==> {
                &&& seq_apply_rev(
                    committed[i + 1].graph,
                    (#[trigger] self.undo_actions@[i]).commands@,
                ) == committed[i].graph
                &&& committed[i].mode == element_mode(self.undo_actions@[i].old_selection)
                &&& committed[i + 1].mode == element_mode(self.undo_actions@[i].new_selection)
            }
        &&& forall|j: int|
            0 <= j < self.redo_actions@.len() ==> {
                let source = if j == self.redo_actions@.len() - 1 {
                    committed.last()
                } else {
                    future[j + 1]
                };
                &&& seq_apply_rev(
                    source.graph,
                    (#[trigger] self.redo_actions@[j]).commands@,
                ) == future[j].graph
                &&& source.mode == element_mode(self.redo_actions@[j].old_selection)
                &&& future[j].mode == element_mode(self.redo_actions@[j].new_selection)
            }
        &&& forall|i: int| 0 <= i < committed.len() ==> state_ok(#[trigger] committed[i])
        &&& forall|j: int| 0 <= j < future.len() ==> state_ok(#[trigger] future[j])
        &&& mode_live(self.mode, self.graph@)
        &&& self.track_base_ok()
    }

    /// A fresh editor: empty graph, normal mode, empty history.
    pub fn new() -> (e: Editor)
        ensures
            e.wf(),
            e.state().graph.points == Map::<usize, crate::graph::PointView>::empty(),
            e.state().graph.lines == Map::<usize, crate::graph::Line>::empty(),
            e.state().mode == PlanMode::Normal,
            e.committed() == seq![e.state()],
            e.future() == Seq::<EditorView>::empty(),
            e.uncommitted() == Seq::<Command>::empty(),
    {
        let graph = Graph::new();
        let ghost start = EditorView { graph: graph@, mode: PlanMode::Normal };
        let ghost initial: Seq<EditorView> = seq![start];
        let e = Editor {
            graph,
            mode: PlanMode::Normal,
            undo_actions: Vec::new(),
            redo_actions: Vec::new(),
            uncommitted_commands: Vec::new(),
            uncommitted_selection: Element::Empty,
            committed_states: Ghost(initial),
            future_states: Ghost(Seq::empty()),
        };
        proof {
            assert(e.committed_states@.last() == start);
            assert(seq_apply_rev(e.graph@, e.uncommitted_commands@) == e.graph@);
        }
        e
    }

    /// Read access to the graph store.
    pub fn graph(&self) -> (g: &Graph)
        ensures
            g@ == self.state().graph,
            self.wf() ==> g.inv(),
    {
        &self.graph
    }

    /// The current plan mode.
    pub fn mode(&self) -> (m: PlanMode)
        ensures
            m == self.state().mode,
    {
        self.mode
    }

    /// Whether a transaction is there to undo.
    pub fn can_undo(&self) -> (r: bool)
        requires
            self.wf(),
        ensures
            r == (self.committed().len() > 1),
    {
        self.undo_actions.len() > 0
    }

    /// Whether an undone transaction is there to redo.
    pub fn can_redo(&self) -> (r: bool)
        requires
            self.wf(),
        ensures
            r == (self.future().len() > 0),
    {
        self.redo_actions.len() > 0
    }

    /// How many transactions the undo stack holds.
    pub fn undo_count(&self) -> (n: usize)
        requires
            self.wf(),
        ensures
            n == self.committed().len() - 1,
    {
        self.undo_actions.len()
    }

    /// How many transactions the redo stack holds.
    pub fn redo_count(&self) -> (n: usize)
        requires
            self.wf(),
        ensures
            n == self.future().len(),
    {
        self.redo_actions.len()
    }

    /// How many commands the in-progress edit holds.
    pub fn uncommitted_len(&self) -> (n: usize)
        ensures
            n == self.uncommitted().len(),
    {
        self.uncommitted_commands.len()
    }

    /// Applies one command and records its inverse on the in-progress edit.
    /// A command aimed at a vanished or conflicting id is a recoverable
    /// no-op. A command that would remove the selected entity
    /// must be preceded by a selection change: the mode always names live
    /// entities.
    pub fn push(&mut self, command: Command)
        requires
            old(self).wf(),
            match command {
                Command::DespawnPoint(id) => old(self).state().mode.spec_selection()
                    != Element::Point(id),
                Command::DeleteLine(id) => old(self).state().mode.spec_selection()
                    != Element::Line(id),
                _ => true,
            },
        ensures
            final(self).wf(),
            final(self).state().graph == cmd_apply(old(self).state().graph, command),
            final(self).state().mode == old(self).state().mode,
            final(self).committed() == old(self).committed(),
            final(self).future() == old(self).future(),
            final(self).uncommitted() == if cmd_applicable(old(self).state().graph, command) {
                old(self).uncommitted().push(cmd_inverse(old(self).state().graph, command))
            } else {
                old(self).uncommitted()
            },
    {
        let ghost pre = self.graph@;
        let inverse = apply_command(&mut self.graph, command);
        match inverse {
            Some(ic) => {
                proof {
                    lemma_command_roundtrip(pre, command);
                    lemma_seq_apply_rev_push(
                        self.graph@,
                        self.uncommitted_commands@,
                        ic,
                    );
                }
                self.uncommitted_commands.push(ic);
            },
            None => {},
        }
    }

    /// Closes the in-progress edit into one transaction on the undo stack,
    /// clears the redo stack (a new edit starts a new branch of history), and
    /// snapshots the selection on both sides of the boundary.
    pub fn commit(&mut self)
        requires
            old(self).wf(),
            !old(self).state().mode.spec_is_tracking(),
        ensures
            final(self).wf(),
            final(self).state() == old(self).state(),
            final(self).committed() == old(self).committed().push(old(self).state()),
            final(self).future() == Seq::<EditorView>::empty(),
            final(self).uncommitted() == Seq::<Command>::empty(),
    {
        let new_selection = self.mode.selection();
        let old_selection = self.uncommitted_selection;
        self.uncommitted_selection = new_selection;
        let mut commands: Vec<Command> = Vec::new();
        core::mem::swap(&mut commands, &mut self.uncommitted_commands);
        self.undo_actions.push(Action::new(commands, old_selection, new_selection));
        self.redo_actions.clear();
        proof {
            crate::plan::lemma_selection_roundtrip(self.mode);
            self.committed_states@ = self.committed_states@.push(
                EditorView { graph: self.graph@, mode: self.mode },
            );
            self.future_states@ = Seq::empty();
            assert(seq_apply_rev(self.graph@, self.uncommitted_commands@) == self.graph@);
            assert(self.committed_states@.last() == self.state());
        }
    }

    /// Rolls the in-progress edit back by replaying its inverses, last
    /// recorded first, and discards them. Only the graph and the inverse list
    /// change; the caller re-establishes the mode.
    fn rollback_uncommitted(&mut self)
        requires
            old(self).wf(),
        ensures
            final(self).graph.inv(),
            final(self).graph@ == old(self).committed_states@.last().graph,
            final(self).uncommitted_commands@ == Seq::<Command>::empty(),
            final(self).mode == old(self).mode,
            final(self).undo_actions == old(self).undo_actions,
            final(self).redo_actions == old(self).redo_actions,
            final(self).uncommitted_selection == old(self).uncommitted_selection,
            final(self).committed_states == old(self).committed_states,
            final(self).future_states == old(self).future_states,
    {
        let ghost target = self.committed_states@.last().graph;
        while self.uncommitted_commands.len() > 0
            invariant
                self.graph.inv(),
                seq_apply_rev(self.graph@, self.uncommitted_commands@) == target,
                self.mode == old(self).mode,
                self.undo_actions == old(self).undo_actions,
                self.redo_actions == old(self).redo_actions,
                self.uncommitted_selection == old(self).uncommitted_selection,
                self.committed_states == old(self).committed_states,
                self.future_states == old(self).future_states,
            decreases self.uncommitted_commands@.len(),
        {
            let ghost before = self.uncommitted_commands@;
            let cmd = self.uncommitted_commands.pop().unwrap();
            let _ = apply_command(&mut self.graph, cmd);
            proof {
                assert(before.last() == cmd);
                assert(before.drop_last() == self.uncommitted_commands@);
            }
        }
    }

    /// Pops the last committed transaction, replays its inverses in reverse
    /// order of original application (after rolling back any in-progress
    /// edit), moves the transaction onto the redo side, and restores the
    /// selection from before the edit. With nothing committed it is a no-op.
    ///
    /// Transaction reversibility, undo half: the editor returns exactly to
    /// the previous committed state.
    pub fn undo(&mut self)
        requires
            old(self).wf(),
        ensures
            final(self).wf(),
            old(self).committed().len() > 1 ==> {
                &&& final(self).committed() == old(self).committed().drop_last()
                &&& final(self).future() == old(self).future().push(old(self).committed().last())
                &&& final(self).state() == old(self).committed()[old(self).committed().len() - 2]
                &&& final(self).uncommitted() == Seq::<Command>::empty()
            },
            old(self).committed().len() <= 1 ==> *final(self) == *old(self),
    {
        if self.undo_actions.len() == 0 {
            return ;
        }
        self.rollback_uncommitted();
        let action = match self.undo_actions.pop() {
            Some(action) => action,
            None => {
                return ;
            },
        };
        let ghost base = old(self).committed_states@.last();
        let ghost restored = old(self).committed_states@[old(self).committed_states@.len() - 2];
        let collected = replay_commands(&mut self.graph, &action.commands);
        self.redo_actions.push(Action::new(collected, action.old_selection, action.new_selection));
        self.mode = element_to_mode(action.old_selection);
        self.uncommitted_selection = action.old_selection;
        self.uncommitted_commands.clear();
        proof {
            self.future_states@ = self.future_states@.push(base);
            self.committed_states@ = self.committed_states@.drop_last();
            let committed = self.committed_states@;
            let future = self.future_states@;
            assert(committed.last() == restored);
            assert(self.graph@ == restored.graph);
            assert(state_ok(restored));
            assert(self.state() == restored);
            assert(seq_apply_rev(self.graph@, self.uncommitted_commands@) == self.graph@);
            assert forall|i: int| 0 <= i < self.undo_actions@.len() implies {
                &&& seq_apply_rev(
                    committed[i + 1].graph,
                    (#[trigger] self.undo_actions@[i]).commands@,
                ) == committed[i].graph
                &&& committed[i].mode == element_mode(self.undo_actions@[i].old_selection)
                &&& committed[i + 1].mode == element_mode(self.undo_actions@[i].new_selection)
            } by {
                assert(self.undo_actions@[i] == old(self).undo_actions@[i]);
                assert(committed[i] == old(self).committed_states@[i]);
                assert(committed[i + 1] == old(self).committed_states@[i + 1]);
            }
            assert forall|j: int| 0 <= j < self.redo_actions@.len() implies {
                let source = if j == self.redo_actions@.len() - 1 {
                    committed.last()
                } else {
                    future[j + 1]
                };
                &&& seq_apply_rev(
                    source.graph,
                    (#[trigger] self.redo_actions@[j]).commands@,
                ) == future[j].graph
                &&& source.mode == element_mode(self.redo_actions@[j].old_selection)
                &&& future[j].mode == element_mode(self.redo_actions@[j].new_selection)
            } by {
                if j < self.redo_actions@.len() - 1 {
                    assert(self.redo_actions@[j] == old(self).redo_actions@[j]);
                    if j == old(self).redo_actions@.len() - 1 {
                        assert(future[j + 1] == base);
                    } else {
                        assert(future[j + 1] == old(self).future_states@[j + 1]);
                    }
                }
            }
        }
    }

    /// Pops the last undone transaction, replays it forward (its stored
    /// commands are the inverses collected while undoing), moves it back onto
    /// the undo side, and restores the selection from after the edit. With
    /// nothing undone it is a no-op.
    ///
    /// Transaction reversibility, redo half: the editor returns exactly to
    /// the state the undo stepped back over.
    pub fn redo(&mut self)
        requires
            old(self).wf(),
        ensures
            final(self).wf(),
            old(self).future().len() > 0 ==> {
                &&& final(self).committed() == old(self).committed().push(
                    old(self).future().last(),
                )
                &&& final(self).future() == old(self).future().drop_last()
                &&& final(self).state() == old(self).future().last()
                &&& final(self).uncommitted() == Seq::<Command>::empty()
            },
            old(self).future().len() == 0 ==> *final(self) == *old(self),
    {
        if self.redo_actions.len() == 0 {
            return ;
        }
        self.rollback_uncommitted();
        let action = match self.redo_actions.pop() {
            Some(action) => action,
            None => {
                return ;
            },
        };
        let ghost base = old(self).committed_states@.last();
        let ghost restored = old(self).future_states@.last();
        let collected = replay_commands(&mut self.graph, &action.commands);
        self.undo_actions.push(Action::new(collected, action.old_selection, action.new_selection));
        self.mode = element_to_mode(action.new_selection);
        self.uncommitted_selection = action.new_selection;
        self.uncommitted_commands.clear();
        proof {
            self.committed_states@ = self.committed_states@.push(restored);
            self.future_states@ = self.future_states@.drop_last();
            let committed = self.committed_states@;
            let future = self.future_states@;
            assert(self.graph@ == restored.graph);
            assert(state_ok(restored));
            assert(self.state() == restored);
            assert(seq_apply_rev(self.graph@, self.uncommitted_commands@) == self.graph@);
            assert forall|i: int| 0 <= i < self.undo_actions@.len() implies {
                &&& seq_apply_rev(
                    committed[i + 1].graph,
                    (#[trigger] self.undo_actions@[i]).commands@,
                ) == committed[i].graph
                &&& committed[i].mode == element_mode(self.undo_actions@[i].old_selection)
                &&& committed[i + 1].mode == element_mode(self.undo_actions@[i].new_selection)
            } by {
                if i < self.undo_actions@.len() - 1 {
                    assert(self.undo_actions@[i] == old(self).undo_actions@[i]);
                    assert(committed[i] == old(self).committed_states@[i]);
                    assert(committed[i + 1] == old(self).committed_states@[i + 1]);
                } else {
                    assert(committed[i] == base);
                    assert(committed[i + 1] == restored);
                }
            }
            assert forall|j: int| 0 <= j < self.redo_actions@.len() implies {
                let source = if j == self.redo_actions@.len() - 1 {
                    committed.last()
                } else {
                    future[j + 1]
                };
                &&& seq_apply_rev(
                    source.graph,
                    (#[trigger] self.redo_actions@[j]).commands@,
                ) == future[j].graph
                &&& source.mode == element_mode(self.redo_actions@[j].old_selection)
                &&& future[j].mode == element_mode(self.redo_actions@[j].new_selection)
            } by {
                assert(self.redo_actions@[j] == old(self).redo_actions@[j]);
                if j == self.redo_actions@.len() - 1 {
                    assert(old(self).future_states@[j + 1] == restored);
                } else {
                    assert(future[j + 1] == old(self).future_states@[j + 1]);
                }
            }
        }
    }
    /// Selects a point; refused (and a no-op) when it does not exist.
    pub fn select_point(&mut self, point: usize) -> (r: bool)
        requires
            old(self).wf(),
        ensures
            final(self).wf(),
            r == old(self).state().graph.points.dom().contains(point),
            r ==> final(self).state() == (EditorView {
                graph: old(self).state().graph,
                mode: PlanMode::Point(point, PointMode::Normal),
            }),
            !r ==> *final(self) == *old(self),
            final(self).committed() == old(self).committed(),
            final(self).future() == old(self).future(),
            final(self).uncommitted() == old(self).uncommitted(),
    {
        if self.graph.contains_point(point) {
            self.mode = PlanMode::Point(point, PointMode::Normal);
            true
        } else {
            false
        }
    }

    /// Selects a line; refused (and a no-op) when it does not exist.
    pub fn select_line(&mut self, line: usize) -> (r: bool)
        requires
            old(self).wf(),
        ensures
            final(self).wf(),
            r == old(self).state().graph.lines.dom().contains(line),
            r ==> final(self).state() == (EditorView {
                graph: old(self).state().graph,
                mode: PlanMode::Line(line),
            }),
            !r ==> *final(self) == *old(self),
            final(self).committed() == old(self).committed(),
            final(self).future() == old(self).future(),
            final(self).uncommitted() == old(self).uncommitted(),
    {
        if self.graph.contains_line(line) {
            self.mode = PlanMode::Line(line);
            true
        } else {
            false
        }
    }

    /// Drops any selection, back to normal mode.
    pub fn unselect(&mut self)
        requires
            old(self).wf(),
        ensures
            final(self).wf(),
            final(self).state() == (EditorView {
                graph: old(self).state().graph,
                mode: PlanMode::Normal,
            }),
            final(self).committed() == old(self).committed(),
            final(self).future() == old(self).future(),
            final(self).uncommitted() == old(self).uncommitted(),
    {
        self.mode = PlanMode::Normal;
    }

    /// Cancels tracking: rolls the in-progress edit back and routes the
    /// selection by the reason tracking started — a created point is
    /// discarded and nothing stays selected, a moved point is restored and
    /// reselected, an extension reselects its origin point, a split reselects
    /// the line it had replaced. Not tracking: a no-op.
    pub fn cancel_track(&mut self)
        requires
            old(self).wf(),
        ensures
            final(self).wf(),
            final(self).committed() == old(self).committed(),
            final(self).future() == old(self).future(),
            match old(self).state().mode {
                PlanMode::Point(followed, PointMode::Track(reason)) => {
                    &&& final(self).state().graph == old(self).committed().last().graph
                    &&& final(self).uncommitted() == Seq::<Command>::empty()
                    &&& final(self).state().mode == match reason {
                        TrackMode::Create => PlanMode::Normal,
                        TrackMode::Move => PlanMode::Point(followed, PointMode::Normal),
                        TrackMode::Extend(origin) => PlanMode::Point(origin, PointMode::Normal),
                        TrackMode::Split(line) => PlanMode::Line(line),
                    }
                },
                _ => *final(self) == *old(self),
            },
    {
        match self.mode {
            PlanMode::Point(followed, PointMode::Track(reason)) => {
                self.rollback_uncommitted();
                self.mode = match reason {
                    TrackMode::Create => PlanMode::Normal,
                    TrackMode::Move => PlanMode::Point(followed, PointMode::Normal),
                    TrackMode::Extend(origin) => PlanMode::Point(origin, PointMode::Normal),
                    TrackMode::Split(line) => PlanMode::Line(line),
                };
            },
            _ => {},
        }
    }

    /// Deletes a point and, first, every line still incident to it: lines
    /// before point, so the graph never dangles. The point must not be
    /// selected (callers unselect first), and no line may be selected.
    /// Returns whether the point existed; a vanished id is a no-op.
    ///
    /// Cascade delete: exactly the point goes, exactly its incident lines go,
    /// and every other point keeps its position and loses exactly the ids of
    /// those lines from its incident set.
    pub fn delete_point(&mut self, point: usize) -> (r: bool)
        requires
            old(self).wf(),
            old(self).state().mode.spec_selection() != Element::Point(point),
            !(old(self).state().mode matches PlanMode::Line(_)),
        ensures
            final(self).wf(),
            r == old(self).state().graph.points.dom().contains(point),
            final(self).state().mode == old(self).state().mode,
            final(self).committed() == old(self).committed(),
            final(self).future() == old(self).future(),
            r ==> final(self).state().graph == cascade_delete(old(self).state().graph, point),
            !r ==> *final(self) == *old(self),
    {
        if !self.graph.contains_point(point) {
            return false;
        }
        let ghost g0 = self.graph@;
        let ghost incident = g0.points[point].lines;
        proof {
            self.graph.lemma_point_lines_finite(point);
            assert(detach_lines(g0, incident.difference(g0.points[point].lines)) =~~= g0);
        }
        loop
            invariant
                self.wf(),
                self.state().mode == old(self).state().mode,
                self.state().mode.spec_selection() != Element::Point(point),
                !(self.state().mode matches PlanMode::Line(_)),
                self.committed() == old(self).committed(),
                self.future() == old(self).future(),
                self.state().graph.points.dom().contains(point),
                self.state().graph.points[point].lines.subset_of(incident),
                incident.finite(),
                g0.wf(),
                self.state().graph == detach_lines(
                    g0,
                    incident.difference(self.state().graph.points[point].lines),
                ),
            ensures
                self.wf(),
                self.state().mode == old(self).state().mode,
                self.committed() == old(self).committed(),
                self.future() == old(self).future(),
                self.state().graph.points.dom().contains(point),
                g0.wf(),
                self.state().graph.points[point].lines =~= Set::<usize>::empty(),
                self.state().graph == detach_lines(g0, incident),
            decreases self.state().graph.points[point].lines.len(),
        {
            let ghost remaining = self.state().graph.points[point].lines;
            proof {
                self.graph.lemma_point_lines_finite(point);
            }
            match self.graph.first_line(point) {
                Some(l) => {
                    let ghost done = incident.difference(remaining);
                    proof {
                        assert(g0.points[point].lines.contains(l)) by {
                            assert(detach_lines(g0, done).points[point].lines =~= remaining);
                        }
                        assert(g0.lines.dom().contains(l));
                        assert(!done.contains(l));
                        lemma_detach_step(g0, done, l);
                        assert(incident.difference(remaining.remove(l)) =~= done.insert(l));
                    }
                    self.push(Command::DeleteLine(l));
                    proof {
                        assert(self.state().graph == detach_lines(g0, done.insert(l)));
                        assert(self.state().graph.points[point].lines =~= remaining.remove(l));
                    }
                },
                None => {
                    proof {
                        assert(incident.difference(self.state().graph.points[point].lines)
                            =~= incident);
                    }
                    break;
                },
            }
        }
        self.push(Command::DespawnPoint(point));
        proof {
            assert(self.state().graph =~~= cascade_delete(g0, point));
        }
        true
    }
    /// Moves every line of `old_point` over to `new_point`, dropping a line
    /// instead of re-pointing it whenever keeping it would create a duplicate
    /// edge or a self-loop: deduplication takes priority over preservation.
    /// Refused (and a no-op) unless both points exist and differ. No line may
    /// be selected while lines are rewritten.
    ///
    /// Transfer dedup: afterwards `new_point`'s neighbours are exactly the
    /// union of both points' former neighbours, minus the two points
    /// themselves, and `old_point` is left with zero incident lines.
    pub fn transfer_point_lines(&mut self, old_point: usize, new_point: usize) -> (r: bool)
        requires
            old(self).wf(),
            !(old(self).state().mode matches PlanMode::Line(_)),
        ensures
            final(self).wf(),
            final(self).state().mode == old(self).state().mode,
            final(self).committed() == old(self).committed(),
            final(self).future() == old(self).future(),
            r == ({
                &&& old(self).state().graph.points.dom().contains(old_point)
                &&& old(self).state().graph.points.dom().contains(new_point)
                &&& old_point != new_point
            }),
            r ==> ({
                let g0 = old(self).state().graph;
                let g1 = final(self).state().graph;
                &&& g1.points.dom() == g0.points.dom()
                &&& forall|p: usize| #[trigger] g0.points.dom().contains(p)
                    ==> g1.points[p].position == g0.points[p].position
                &&& g1.points[old_point].lines =~= Set::<usize>::empty()
                &&& g1.neighbours(new_point) == g0.neighbours(new_point).union(
                    g0.neighbours(old_point),
                ).remove(old_point).remove(new_point)
                &&& transfer_lines_ok(g0, old_point, new_point, g1, g0.points[old_point].lines)
            }),
            !r ==> *final(self) == *old(self),
    {
        if old_point == new_point || !self.graph.contains_point(old_point)
            || !self.graph.contains_point(new_point) {
            return false;
        }
        let ghost g0 = self.graph@;
        let nbrs_snapshot = self.graph.neighbours_list(new_point);
        let ghost nbrs0_new = g0.neighbours(new_point);
        let ghost incident = g0.points[old_point].lines;
        loop
            invariant
                self.wf(),
                self.state().mode == old(self).state().mode,
                !(self.state().mode matches PlanMode::Line(_)),
                self.committed() == old(self).committed(),
                self.future() == old(self).future(),
                g0.wf(),
                old_point != new_point,
                g0.points.dom().contains(old_point),
                g0.points.dom().contains(new_point),
                incident == g0.points[old_point].lines,
                nbrs0_new == g0.neighbours(new_point),
                forall|q: usize| #[trigger] nbrs_snapshot@.contains(q) <==> nbrs0_new.contains(
                    q,
                ),
                self.state().graph.points.dom() =~= g0.points.dom(),
                forall|p: usize| #[trigger] g0.points.dom().contains(p)
                    ==> self.state().graph.points[p].position == g0.points[p].position,
                self.state().graph.points[old_point].lines.subset_of(incident),
                transfer_mid(
                    g0,
                    old_point,
                    new_point,
                    self.state().graph,
                    incident.difference(self.state().graph.points[old_point].lines),
                ),
            ensures
                self.wf(),
                self.state().mode == old(self).state().mode,
                self.committed() == old(self).committed(),
                self.future() == old(self).future(),
                g0.wf(),
                forall|p: usize| #[trigger] g0.points.dom().contains(p)
                    ==> self.state().graph.points[p].position == g0.points[p].position,
                self.state().graph.points.dom() =~= g0.points.dom(),
                self.state().graph.points[old_point].lines =~= Set::<usize>::empty(),
                transfer_mid(g0, old_point, new_point, self.state().graph, incident),
            decreases self.state().graph.points[old_point].lines.len(),
        {
            let ghost cur = self.state().graph;
            let ghost remaining = cur.points[old_point].lines;
            let ghost done = incident.difference(remaining);
            proof {
                self.graph.lemma_point_lines_finite(old_point);
            }
            match self.graph.first_line(old_point) {
                Some(l) => {
                    proof {
                        // The line about to move is an untouched original.
                        assert(incident.contains(l));
                        assert(g0.points[old_point].lines.contains(l));
                        assert(g0.lines.dom().contains(l));
                        assert(!done.contains(l));
                        assert(cur.lines.dom().contains(l) && cur.lines[l] == g0.lines[l]);
                        assert(g0.line_ok(l));
                    }
                    let other = match self.graph.neighbour_of(l, old_point) {
                        Ok(q) => q,
                        Err(_) => {
                            proof {
                                assert(cur.points[old_point].lines.contains(l));
                                assert(false);
                            }
                            return false;
                        },
                    };
                    proof {
                        assert(other != old_point);
                        assert(g0.points.dom().contains(other)) by {
                            assert(g0.line_ok(l));
                        }
                    }
                    self.push(Command::DeleteLine(l));
                    let ghost done1 = done.insert(l);
                    proof {
                        assert(incident.difference(remaining.remove(l)) =~= done1);
                        assert(self.state().graph.points[old_point].lines =~= remaining.remove(
                            l,
                        ));
                        lemma_others_of_insert(g0, old_point, done, l, other);
                        lemma_transfer_delete_step(g0, old_point, new_point, cur, done, l);
                    }
                    if other != new_point && !vec_contains(&nbrs_snapshot, other) {
                        let ghost cur1 = self.state().graph;
                        let lid = self.graph.fresh_line_id();
                        proof {
                            assert(others_of(g0, old_point, done1).remove(other).subset_of(
                                others_of(g0, old_point, done),
                            ));
                        }
                        self.push(Command::CreateLine(lid, other, new_point));
                        proof {
                            lemma_transfer_create_step(
                                g0,
                                old_point,
                                new_point,
                                cur1,
                                done1,
                                other,
                                lid,
                            );
                        }
                    } else {
                        proof {
                            let cur1 = self.state().graph;
                            assert forall|q: usize|
                                others_of(g0, old_point, done1).contains(q) && !g0.neighbours(
                                    new_point,
                                ).contains(q) && q != new_point implies exists|w: usize|
                                #[trigger] cur1.lines.dom().contains(w)
                                    && cur1.lines[w].spec_other(new_point) == Some(q) by {
                                if q == other {
                                    assert(nbrs0_new.contains(other) || other == new_point);
                                    assert(false);
                                } else {
                                    assert(others_of(g0, old_point, done).contains(q));
                                }
                            }
                        }
                    }
                },
                None => {
                    proof {
                        assert(incident.difference(self.state().graph.points[old_point].lines)
                            =~= incident);
                    }
                    break;
                },
            }
        }
        proof {
            lemma_transfer_conclude(g0, old_point, new_point, self.state().graph, incident);
        }
        true
    }
    /// Splits a line at its midpoint: the line goes; a new point appears at
    /// the midpoint of its endpoints; two new lines join each old endpoint to
    /// the new point. Returns the ids of the new point and the two new lines,
    /// or nothing (a no-op) when the line does not exist. The line must not
    /// be selected (callers unselect first).
    ///
    /// Split geometry: the new point sits at the midpoint, the two new lines
    /// connect exactly the old endpoints to it, and the old line id is gone.
    pub fn split_line(&mut self, line: usize) -> (r: Option<(usize, usize, usize)>)
        requires
            old(self).wf(),
            old(self).state().mode.spec_selection() != Element::Line(line),
        ensures
            final(self).wf(),
            final(self).state().mode == old(self).state().mode,
            final(self).committed() == old(self).committed(),
            final(self).future() == old(self).future(),
            match r {
                Some((new_point, line_a, line_b)) => {
                    let g0 = old(self).state().graph;
                    let a = g0.lines[line].point_a;
                    let b = g0.lines[line].point_b;
                    let m = crate::geometry::midpoint(
                        g0.points[a].position,
                        g0.points[b].position,
                    );
                    &&& g0.lines.dom().contains(line)
                    &&& !g0.points.dom().contains(new_point)
                    &&& line_a != line_b
                    &&& final(self).state().graph.lines == g0.lines.remove(line).insert(
                        line_a,
                        Line { point_a: a, point_b: new_point },
                    ).insert(line_b, Line { point_a: b, point_b: new_point })
                    &&& final(self).state().graph.points == g0.points.insert(
                        a,
                        crate::graph::PointView {
                            position: g0.points[a].position,
                            lines: g0.points[a].lines.remove(line).insert(line_a),
                        },
                    ).insert(
                        b,
                        crate::graph::PointView {
                            position: g0.points[b].position,
                            lines: g0.points[b].lines.remove(line).insert(line_b),
                        },
                    ).insert(
                        new_point,
                        crate::graph::PointView { position: m, lines: set![line_a, line_b] },
                    )
                },
                None => !old(self).state().graph.lines.dom().contains(line) && *final(self)
                    == *old(self),
            },
    {
        let old_line = match self.graph.line_endpoints(line) {
            Some(l) => l,
            None => {
                return None;
            },
        };
        let ghost g0 = self.graph@;
        proof {
            assert(g0.line_ok(line));
        }
        let pos_a = match self.graph.point_position(old_line.point_a) {
            Some(p) => p,
            None => {
                proof {
                    assert(false);
                }
                return None;
            },
        };
        let pos_b = match self.graph.point_position(old_line.point_b) {
            Some(p) => p,
            None => {
                proof {
                    assert(false);
                }
                return None;
            },
        };
        let mid = pos_a.midpoint(&pos_b);
        self.push(Command::DeleteLine(line));
        let new_point = self.graph.fresh_point_id();
        self.push(Command::CreatePoint(new_point, mid));
        let line_a = self.graph.fresh_line_id();
        self.push(Command::CreateLine(line_a, old_line.point_a, new_point));
        let line_b = self.graph.fresh_line_id();
        self.push(Command::CreateLine(line_b, old_line.point_b, new_point));
        proof {
            let a = old_line.point_a;
            let b = old_line.point_b;
            assert(self.state().graph.lines =~~= g0.lines.remove(line).insert(
                line_a,
                Line { point_a: a, point_b: new_point },
            ).insert(line_b, Line { point_a: b, point_b: new_point }));
            assert(set![line_a, line_b] =~= Set::<usize>::empty().insert(line_a).insert(line_b));
            assert(self.state().graph.points =~~= g0.points.insert(
                a,
                crate::graph::PointView {
                    position: g0.points[a].position,
                    lines: g0.points[a].lines.remove(line).insert(line_a),
                },
            ).insert(
                b,
                crate::graph::PointView {
                    position: g0.points[b].position,
                    lines: g0.points[b].lines.remove(line).insert(line_b),
                },
            ).insert(
                new_point,
                crate::graph::PointView { position: mid, lines: set![line_a, line_b] },
            ));
        }
        Some((new_point, line_a, line_b))
    }

    /// Starts creating a point: a fresh point appears at the origin of the
    /// plan and is tracked, following the pointer until placed or cancelled.
    /// Returns the new point's id.
    pub fn start_create(&mut self) -> (p: usize)
        requires
            old(self).wf(),
        ensures
            final(self).wf(),
            final(self).committed() == old(self).committed(),
            final(self).future() == old(self).future(),
            !old(self).state().graph.points.dom().contains(p),
            final(self).state().graph.points == old(self).state().graph.points.insert(
                p,
                crate::graph::PointView {
                    position: (Position { x: 0, y: 0 }),
                    lines: Set::empty(),
                },
            ),
            final(self).state().graph.lines == old(self).state().graph.lines,
            final(self).state().mode == PlanMode::Point(p, PointMode::Track(TrackMode::Create)),
    {
        let p = self.graph.fresh_point_id();
        self.push(Command::CreatePoint(p, Position { x: 0, y: 0 }));
        self.mode = PlanMode::Point(p, PointMode::Track(TrackMode::Create));
        p
    }

    /// Starts extending a point: a fresh point appears at the origin of the
    /// plan, joined to `origin` by a fresh line, and is tracked. Returns the
    /// ids of the new point and line. Refused (and a no-op) when `origin`
    /// does not exist or an edit is already in progress.
    pub fn start_extend(&mut self, origin: usize) -> (r: Option<(usize, usize)>)
        requires
            old(self).wf(),
        ensures
            final(self).wf(),
            final(self).committed() == old(self).committed(),
            final(self).future() == old(self).future(),
            match r {
                Some((p, l)) => {
                    let g0 = old(self).state().graph;
                    &&& old(self).uncommitted() == Seq::<Command>::empty()
                    &&& g0.points.dom().contains(origin)
                    &&& !g0.points.dom().contains(p)
                    &&& !g0.lines.dom().contains(l)
                    &&& final(self).state().graph.points == g0.points.insert(
                        p,
                        crate::graph::PointView {
                            position: (Position { x: 0, y: 0 }),
                            lines: Set::empty().insert(l),
                        },
                    ).insert(
                        origin,
                        crate::graph::PointView {
                            position: g0.points[origin].position,
                            lines: g0.points[origin].lines.insert(l),
                        },
                    )
                    &&& final(self).state().graph.lines == g0.lines.insert(
                        l,
                        Line { point_a: origin, point_b: p },
                    )
                    &&& final(self).state().mode == PlanMode::Point(
                        p,
                        PointMode::Track(TrackMode::Extend(origin)),
                    )
                },
                None => (old(self).uncommitted().len() > 0 || !old(
                    self,
                ).state().graph.points.dom().contains(origin)) && *final(self) == *old(self),
            },
    {
        if self.uncommitted_commands.len() > 0 || !self.graph.contains_point(origin) {
            return None;
        }
        let ghost g0 = self.graph@;
        let p = self.graph.fresh_point_id();
        self.push(Command::CreatePoint(p, Position { x: 0, y: 0 }));
        let l = self.graph.fresh_line_id();
        self.push(Command::CreateLine(l, origin, p));
        self.mode = PlanMode::Point(p, PointMode::Track(TrackMode::Extend(origin)));
        proof {
            assert(self.state().graph.points =~~= g0.points.insert(
                p,
                crate::graph::PointView {
                    position: (Position { x: 0, y: 0 }),
                    lines: Set::empty().insert(l),
                },
            ).insert(
                origin,
                crate::graph::PointView {
                    position: g0.points[origin].position,
                    lines: g0.points[origin].lines.insert(l),
                },
            ));
        }
        Some((p, l))
    }

    /// Starts moving a point: the point is tracked, following the pointer,
    /// remembering that a cancel should put it back and reselect it. Refused
    /// (and a no-op) when the point does not exist or an edit is already in
    /// progress.
    pub fn start_move(&mut self, point: usize) -> (r: bool)
        requires
            old(self).wf(),
        ensures
            final(self).wf(),
            final(self).committed() == old(self).committed(),
            final(self).future() == old(self).future(),
            r == (old(self).uncommitted().len() == 0 && old(
                self,
            ).state().graph.points.dom().contains(point)),
            r ==> final(self).state() == (EditorView {
                graph: old(self).state().graph,
                mode: PlanMode::Point(point, PointMode::Track(TrackMode::Move)),
            }),
            !r ==> *final(self) == *old(self),
    {
        if self.uncommitted_commands.len() > 0 || !self.graph.contains_point(point) {
            return false;
        }
        self.mode = PlanMode::Point(point, PointMode::Track(TrackMode::Move));
        true
    }

    /// Starts splitting a line: the selection is dropped, the line is split
    /// at its midpoint, and the new point is tracked, remembering which line
    /// a cancel should restore and reselect. Returns the ids of the new point
    /// and the two new lines. Refused (and a no-op) when the line does not
    /// exist or an edit is already in progress.
    pub fn start_split(&mut self, line: usize) -> (r: Option<(usize, usize, usize)>)
        requires
            old(self).wf(),
        ensures
            final(self).wf(),
            final(self).committed() == old(self).committed(),
            final(self).future() == old(self).future(),
            match r {
                Some((new_point, line_a, line_b)) => {
                    let g0 = old(self).state().graph;
                    let a = g0.lines[line].point_a;
                    let b = g0.lines[line].point_b;
                    let m = crate::geometry::midpoint(
                        g0.points[a].position,
                        g0.points[b].position,
                    );
                    &&& old(self).uncommitted() == Seq::<Command>::empty()
                    &&& g0.lines.dom().contains(line)
                    &&& !g0.points.dom().contains(new_point)
                    &&& line_a != line_b
                    &&& final(self).state().graph.lines == g0.lines.remove(line).insert(
                        line_a,
                        Line { point_a: a, point_b: new_point },
                    ).insert(line_b, Line { point_a: b, point_b: new_point })
                    &&& final(self).state().graph.points == g0.points.insert(
                        a,
                        crate::graph::PointView {
                            position: g0.points[a].position,
                            lines: g0.points[a].lines.remove(line).insert(line_a),
                        },
                    ).insert(
                        b,
                        crate::graph::PointView {
                            position: g0.points[b].position,
                            lines: g0.points[b].lines.remove(line).insert(line_b),
                        },
                    ).insert(
                        new_point,
                        crate::graph::PointView { position: m, lines: set![line_a, line_b] },
                    )
                    &&& final(self).state().mode == PlanMode::Point(
                        new_point,
                        PointMode::Track(TrackMode::Split(line)),
                    )
                },
                None => (old(self).uncommitted().len() > 0 || !old(
                    self,
                ).state().graph.lines.dom().contains(line)) && *final(self) == *old(self),
            },
    {
        if self.uncommitted_commands.len() > 0 || !self.graph.contains_line(line) {
            return None;
        }
        self.unselect();
        match self.split_line(line) {
            Some((new_point, line_a, line_b)) => {
                self.mode = PlanMode::Point(new_point, PointMode::Track(TrackMode::Split(line)));
                Some((new_point, line_a, line_b))
            },
            None => {
                proof {
                    assert(false);
                }
                None
            },
        }
    }

    /// Merges `old_point` into `new_point`: selects `new_point`, transfers
    /// every line over (dropping duplicates), and deletes what is left of
    /// `old_point`. Refused (and a no-op) unless both points exist and
    /// differ.
    pub fn merge_points(&mut self, old_point: usize, new_point: usize) -> (r: bool)
        requires
            old(self).wf(),
            !(old(self).state().mode matches PlanMode::Line(_)),
        ensures
            final(self).wf(),
            final(self).committed() == old(self).committed(),
            final(self).future() == old(self).future(),
            r == ({
                &&& old(self).state().graph.points.dom().contains(old_point)
                &&& old(self).state().graph.points.dom().contains(new_point)
                &&& old_point != new_point
            }),
            r ==> ({
                let g0 = old(self).state().graph;
                let g1 = final(self).state().graph;
                &&& g1.points.dom() == g0.points.dom().remove(old_point)
                &&& forall|p: usize| #[trigger] g1.points.dom().contains(p)
                    ==> g1.points[p].position == g0.points[p].position
                &&& g1.neighbours(new_point) == g0.neighbours(new_point).union(
                    g0.neighbours(old_point),
                ).remove(old_point).remove(new_point)
                &&& final(self).state().mode == PlanMode::Point(new_point, PointMode::Normal)
            }),
            !r ==> *final(self) == *old(self),
    {
        if old_point == new_point || !self.graph.contains_point(old_point)
            || !self.graph.contains_point(new_point) {
            return false;
        }
        let ghost g0 = self.graph@;
        let selected = self.select_point(new_point);
        proof {
            assert(selected);
        }
        let transferred = self.transfer_point_lines(old_point, new_point);
        proof {
            assert(transferred);
        }
        let ghost g_mid = self.state().graph;
        let deleted = self.delete_point(old_point);
        proof {
            assert(deleted);
            let g1 = self.state().graph;
            // The cascade had nothing left to detach: the line map survives,
            // and with it every neighbour relation.
            assert(g_mid.points[old_point].lines =~= Set::<usize>::empty());
            assert(g1.lines =~= g_mid.lines);
            assert(g1.points.dom() =~= g0.points.dom().remove(old_point));
            assert forall|p: usize| #[trigger] g1.points.dom().contains(p)
                implies g1.points[p].position == g0.points[p].position by {
                assert(g_mid.points.dom().contains(p));
            }
            assert(g1.neighbours(new_point) =~= g_mid.neighbours(new_point)) by {
                assert forall|q: usize| #[trigger] g1.neighbours(new_point).contains(q)
                    implies g_mid.neighbours(new_point).contains(q) by {
                    let l = choose|l: usize|
                        #[trigger] g1.lines.dom().contains(l) && g1.lines[l].spec_other(new_point)
                            == Some(q);
                    assert(g_mid.lines.dom().contains(l) && g_mid.lines[l] == g1.lines[l]);
                }
                assert forall|q: usize| #[trigger] g_mid.neighbours(new_point).contains(q)
                    implies g1.neighbours(new_point).contains(q) by {
                    let l = choose|l: usize|
                        #[trigger] g_mid.lines.dom().contains(l) && g_mid.lines[l].spec_other(
                            new_point,
                        ) == Some(q);
                    assert(g1.lines.dom().contains(l) && g1.lines[l] == g_mid.lines[l]);
                }
            }
        }
        true
    }
}

/// Replays recorded inverses in reverse order of recording, collecting the
/// inverses of the replay itself: rolling those back returns to the graph the
/// replay started from.
fn replay_commands(graph: &mut Graph, cmds: &Vec<Command>) -> (collected: Vec<Command>)
    requires
        old(graph).inv(),
    ensures
        final(graph).inv(),
        final(graph)@ == seq_apply_rev(old(graph)@, cmds@),
        seq_apply_rev(final(graph)@, collected@) == old(graph)@,
{
    let ghost orig = graph@;
    let mut collected: Vec<Command> = Vec::new();
    let mut i: usize = cmds.len();
    proof {
        assert(cmds@.skip(cmds@.len() as int) =~= Seq::<Command>::empty());
    }
    while i > 0
        invariant
            i <= cmds@.len(),
            graph.inv(),
            graph@ == seq_apply_rev(orig, cmds@.skip(i as int)),
            seq_apply_rev(graph@, collected@) == orig,
        decreases i,
    {
        i = i - 1;
        let c = cmds[i];
        let ghost pre = graph@;
        let inverse = apply_command(graph, c);
        proof {
            lemma_seq_apply_rev_first(orig, cmds@.skip(i as int));
            assert(cmds@.skip(i as int).subrange(1, cmds@.skip(i as int).len() as int)
                =~= cmds@.skip(i as int + 1));
            assert(cmds@.skip(i as int)[0] == cmds@[i as int]);
        }
        match inverse {
            Some(ic) => {
                proof {
                    lemma_command_roundtrip(pre, c);
                    lemma_seq_apply_rev_push(graph@, collected@, ic);
                }
                collected.push(ic);
            },
            None => {},
        }
    }
    proof {
        assert(cmds@.skip(0) =~= cmds@);
    }
    collected
}

/// The graph with a set of line ids gone: the lines leave the line map and
/// every point's incident set; nothing else moves.
pub open spec fn detach_lines(g: GraphView, ls: Set<usize>) -> GraphView {
    GraphView {
        points: Map::new(
            |p: usize| g.points.dom().contains(p),
            |p: usize| crate::graph::PointView {
                position: g.points[p].position,
                lines: g.points[p].lines.difference(ls),
            },
        ),
        lines: g.lines.remove_keys(ls),
    }
}

/// The result of deleting a point with everything incident to it: its lines
/// detach everywhere, then the point itself goes.
pub open spec fn cascade_delete(g: GraphView, point: usize) -> GraphView {
    let detached = detach_lines(g, g.points[point].lines);
    GraphView { points: detached.points.remove(point), lines: detached.lines }
}

/// Deleting one more line of a well-formed graph moves the partial detachment
/// one step forward: only the line's two endpoints lose an id.
proof fn lemma_detach_step(g0: GraphView, done: Set<usize>, l: usize)
    requires
        g0.wf(),
        g0.lines.dom().contains(l),
        !done.contains(l),
    ensures
        cmd_apply(detach_lines(g0, done), Command::DeleteLine(l)) == detach_lines(
            g0,
            done.insert(l),
        ),
{
    let cur = detach_lines(g0, done);
    let target = detach_lines(g0, done.insert(l));
    assert(cur.lines.dom().contains(l));
    let line = g0.lines[l];
    assert(cur.lines[l] == line);
    assert(g0.line_ok(l));
    let applied = cmd_apply(cur, Command::DeleteLine(l));
    assert(applied.lines =~= target.lines);
    assert forall|p: usize| #[trigger]
        g0.points.dom().contains(p) && p != line.point_a && p != line.point_b
        implies !g0.points[p].lines.contains(l) by {
        if g0.points[p].lines.contains(l) {
            assert(g0.lines[l].point_a == p || g0.lines[l].point_b == p);
        }
    }
    assert(applied.points =~~= target.points);
    assert(applied =~~= target);
}

/// The other endpoints of a set of lines, looked at from `point`.
pub open spec fn others_of(g: GraphView, point: usize, ls: Set<usize>) -> Set<usize> {
    Set::new(
        |q: usize|
            exists|l: usize| #[trigger] ls.contains(l) && g.lines[l].spec_other(point) == Some(q),
    )
}

/// Mid-transfer shape of the line map, after the lines in `done` (all of them
/// formerly at `old_point`) have been processed: every untouched original is
/// still there, and everything else is a replacement line that joins
/// `new_point` to a former neighbour of `old_point` it was not already joined
/// to.
pub open spec fn transfer_lines_ok(
    g0: GraphView,
    old_point: usize,
    new_point: usize,
    cur: GraphView,
    done: Set<usize>,
) -> bool {
    &&& forall|l: usize|
        #[trigger] g0.lines.dom().contains(l) && !done.contains(l) ==> cur.lines.dom().contains(l)
            && cur.lines[l] == g0.lines[l]
    &&& forall|l: usize| #[trigger]
        cur.lines.dom().contains(l) ==> {
            ||| (g0.lines.dom().contains(l) && !done.contains(l) && cur.lines[l] == g0.lines[l])
            ||| {
                let line = cur.lines[l];
                &&& line.point_b == new_point
                &&& others_of(g0, old_point, done).contains(line.point_a)
                &&& !g0.neighbours(new_point).contains(line.point_a)
                &&& line.point_a != new_point
                &&& line.point_a != old_point
            }
        }
}

/// Every neighbour in `qs` that was not already a neighbour of `new_point`
/// has a line to `new_point` now.
pub open spec fn transfer_covered(
    g0: GraphView,
    old_point: usize,
    new_point: usize,
    cur: GraphView,
    qs: Set<usize>,
) -> bool {
    forall|q: usize|
        qs.contains(q) && !g0.neighbours(new_point).contains(q) && q != new_point
            ==> exists|w: usize|
            #[trigger] cur.lines.dom().contains(w) && cur.lines[w].spec_other(new_point) == Some(
                q,
            )
}

/// The full mid-transfer invariant: the structural shape, plus coverage for
/// every processed neighbour.
pub open spec fn transfer_mid(
    g0: GraphView,
    old_point: usize,
    new_point: usize,
    cur: GraphView,
    done: Set<usize>,
) -> bool {
    &&& transfer_lines_ok(g0, old_point, new_point, cur, done)
    &&& transfer_covered(g0, old_point, new_point, cur, others_of(g0, old_point, done))
}

/// Processing one more line grows the processed neighbours by exactly the
/// line's other endpoint.
proof fn lemma_others_of_insert(g0: GraphView, old_point: usize, done: Set<usize>, l: usize, other: usize)
    requires
        g0.lines[l].spec_other(old_point) == Some(other),
    ensures
        others_of(g0, old_point, done.insert(l)) =~= others_of(g0, old_point, done).insert(other),
{
    let done1 = done.insert(l);
    assert forall|q: usize| #[trigger] others_of(g0, old_point, done1).contains(q)
        implies others_of(g0, old_point, done).insert(other).contains(q) by {
        let l2 = choose|l2: usize|
            #[trigger] done1.contains(l2) && g0.lines[l2].spec_other(old_point) == Some(q);
        if l2 != l {
            assert(done.contains(l2));
            assert(others_of(g0, old_point, done).contains(q));
        }
    }
    assert forall|q: usize| #[trigger] others_of(g0, old_point, done).insert(other).contains(q)
        implies others_of(g0, old_point, done1).contains(q) by {
        if q == other {
            assert(done1.contains(l));
        } else {
            let l2 = choose|l2: usize|
                #[trigger] done.contains(l2) && g0.lines[l2].spec_other(old_point) == Some(q);
            assert(done1.contains(l2));
        }
    }
}

/// Deleting the next original line of `old_point` keeps the structural shape
/// and every replacement line already created.
proof fn lemma_transfer_delete_step(
    g0: GraphView,
    old_point: usize,
    new_point: usize,
    cur: GraphView,
    done: Set<usize>,
    l: usize,
)
    requires
        g0.wf(),
        old_point != new_point,
        transfer_lines_ok(g0, old_point, new_point, cur, done),
        transfer_covered(g0, old_point, new_point, cur, others_of(g0, old_point, done)),
        g0.lines.dom().contains(l),
        !done.contains(l),
        g0.points[old_point].lines.contains(l),
        cur.lines.dom().contains(l),
        cur.lines[l] == g0.lines[l],
    ensures
        transfer_lines_ok(
            g0,
            old_point,
            new_point,
            cmd_apply(cur, Command::DeleteLine(l)),
            done.insert(l),
        ),
        transfer_covered(
            g0,
            old_point,
            new_point,
            cmd_apply(cur, Command::DeleteLine(l)),
            others_of(g0, old_point, done),
        ),
{
    let done1 = done.insert(l);
    let cur1 = cmd_apply(cur, Command::DeleteLine(l));
    assert(cur1.lines == cur.lines.remove(l));
    assert forall|l2: usize|
        #[trigger] g0.lines.dom().contains(l2) && !done1.contains(l2)
        implies cur1.lines.dom().contains(l2) && cur1.lines[l2] == g0.lines[l2] by {
        assert(l2 != l);
        assert(cur.lines.dom().contains(l2) && cur.lines[l2] == g0.lines[l2]);
    }
    assert forall|l2: usize| #[trigger] cur1.lines.dom().contains(l2) implies {
        ||| (g0.lines.dom().contains(l2) && !done1.contains(l2) && cur1.lines[l2] == g0.lines[l2])
        ||| {
            let line = cur1.lines[l2];
            &&& line.point_b == new_point
            &&& others_of(g0, old_point, done1).contains(line.point_a)
            &&& !g0.neighbours(new_point).contains(line.point_a)
            &&& line.point_a != new_point
            &&& line.point_a != old_point
        }
    } by {
        assert(cur.lines.dom().contains(l2));
        assert(l2 != l);
        if !(g0.lines.dom().contains(l2) && !done.contains(l2) && cur.lines[l2] == g0.lines[l2]) {
            let line = cur.lines[l2];
            let l3 = choose|l3: usize|
                #[trigger] done.contains(l3) && g0.lines[l3].spec_other(old_point) == Some(
                    line.point_a,
                );
            assert(done1.contains(l3));
            assert(others_of(g0, old_point, done1).contains(line.point_a));
        } else {
            if done1.contains(l2) {
                assert(false);
            }
        }
    }
    assert forall|q: usize|
        others_of(g0, old_point, done).contains(q) && !g0.neighbours(new_point).contains(q) && q
            != new_point implies exists|w: usize|
        #[trigger] cur1.lines.dom().contains(w) && cur1.lines[w].spec_other(new_point) == Some(
            q,
        ) by {
        let w = choose|w: usize|
            #[trigger] cur.lines.dom().contains(w) && cur.lines[w].spec_other(new_point) == Some(
                q,
            );
        assert(w != l) by {
            if w == l {
                // l joins old_point to some point; for it to also join
                // new_point to q, one of its endpoints would be old_point
                // seen from new_point, making q the old point itself, which
                // coverage never asks for.
                let line = g0.lines[l];
                assert(g0.line_ok(l));
                assert(line.point_a == old_point || line.point_b == old_point);
                assert(line.spec_other(new_point) == Some(q));
                assert(q == old_point || new_point == old_point);
                assert(others_of(g0, old_point, done).contains(old_point));
                let l3 = choose|l3: usize|
                    #[trigger] done.contains(l3) && g0.lines[l3].spec_other(old_point) == Some(
                        old_point,
                    );
                assert(g0.line_ok(l3));
                assert(false);
            }
        }
        assert(cur1.lines.dom().contains(w));
    }
}

/// Creating the replacement line for the neighbour just detached extends
/// coverage to that neighbour.
proof fn lemma_transfer_create_step(
    g0: GraphView,
    old_point: usize,
    new_point: usize,
    cur: GraphView,
    done: Set<usize>,
    other: usize,
    lid: usize,
)
    requires
        g0.wf(),
        old_point != new_point,
        other != new_point,
        other != old_point,
        !g0.neighbours(new_point).contains(other),
        others_of(g0, old_point, done).contains(other),
        transfer_lines_ok(g0, old_point, new_point, cur, done),
        transfer_covered(
            g0,
            old_point,
            new_point,
            cur,
            others_of(g0, old_point, done).remove(other),
        ),
        !cur.lines.dom().contains(lid),
        cmd_applicable(cur, Command::CreateLine(lid, other, new_point)),
    ensures
        transfer_lines_ok(
            g0,
            old_point,
            new_point,
            cmd_apply(cur, Command::CreateLine(lid, other, new_point)),
            done,
        ),
        transfer_covered(
            g0,
            old_point,
            new_point,
            cmd_apply(cur, Command::CreateLine(lid, other, new_point)),
            others_of(g0, old_point, done),
        ),
{
    let cur1 = cmd_apply(cur, Command::CreateLine(lid, other, new_point));
    assert(cur1.lines == cur.lines.insert(lid, Line { point_a: other, point_b: new_point }));
    assert forall|l2: usize|
        #[trigger] g0.lines.dom().contains(l2) && !done.contains(l2)
        implies cur1.lines.dom().contains(l2) && cur1.lines[l2] == g0.lines[l2] by {
        assert(cur.lines.dom().contains(l2) && cur.lines[l2] == g0.lines[l2]);
        assert(l2 != lid);
    }
    assert forall|l2: usize| #[trigger] cur1.lines.dom().contains(l2) implies {
        ||| (g0.lines.dom().contains(l2) && !done.contains(l2) && cur1.lines[l2] == g0.lines[l2])
        ||| {
            let line = cur1.lines[l2];
            &&& line.point_b == new_point
            &&& others_of(g0, old_point, done).contains(line.point_a)
            &&& !g0.neighbours(new_point).contains(line.point_a)
            &&& line.point_a != new_point
            &&& line.point_a != old_point
        }
    } by {
        if l2 == lid {
            assert(cur1.lines[lid] == Line { point_a: other, point_b: new_point });
        } else {
            assert(cur.lines.dom().contains(l2));
            assert(cur1.lines[l2] == cur.lines[l2]);
        }
    }
    assert forall|q: usize|
        others_of(g0, old_point, done).contains(q) && !g0.neighbours(new_point).contains(q) && q
            != new_point implies exists|w: usize|
        #[trigger] cur1.lines.dom().contains(w) && cur1.lines[w].spec_other(new_point) == Some(
            q,
        ) by {
        if q == other {
            assert(cur1.lines.dom().contains(lid));
            assert(cur1.lines[lid].spec_other(new_point) == Some(other));
        } else {
            assert(others_of(g0, old_point, done).remove(other).contains(q));
            let w = choose|w: usize|
                #[trigger] cur.lines.dom().contains(w) && cur.lines[w].spec_other(new_point)
                    == Some(q);
            assert(cur1.lines.dom().contains(w));
            assert(cur1.lines[w] == cur.lines[w]);
        }
    }
}

/// With every former line of `old_point` processed, the mid-transfer shape
/// pins the neighbours of `new_point` down exactly.
proof fn lemma_transfer_conclude(
    g0: GraphView,
    old_point: usize,
    new_point: usize,
    cur: GraphView,
    incident: Set<usize>,
)
    requires
        g0.wf(),
        cur.wf(),
        old_point != new_point,
        g0.points.dom().contains(old_point),
        g0.points.dom().contains(new_point),
        incident == g0.points[old_point].lines,
        transfer_mid(g0, old_point, new_point, cur, incident),
    ensures
        cur.neighbours(new_point) == g0.neighbours(new_point).union(
            g0.neighbours(old_point),
        ).remove(old_point).remove(new_point),
{
    let nbrs0_new = g0.neighbours(new_point);
    let nbrs0_old = g0.neighbours(old_point);
    let target = nbrs0_new.union(nbrs0_old).remove(old_point).remove(new_point);
    // The processed others are exactly the old point's former neighbours.
    assert(others_of(g0, old_point, incident) =~= nbrs0_old) by {
        assert forall|q: usize| #[trigger] others_of(g0, old_point, incident).contains(q)
            implies nbrs0_old.contains(q) by {
            let l = choose|l: usize|
                #[trigger] incident.contains(l) && g0.lines[l].spec_other(old_point) == Some(q);
            assert(g0.lines.dom().contains(l));
        }
        assert forall|q: usize| #[trigger] nbrs0_old.contains(q) implies others_of(
            g0,
            old_point,
            incident,
        ).contains(q) by {
            let l = choose|l: usize|
                #[trigger] g0.lines.dom().contains(l) && g0.lines[l].spec_other(old_point)
                    == Some(q);
            assert(g0.line_ok(l));
            assert(incident.contains(l));
        }
    }
    assert forall|q: usize| #[trigger] cur.neighbours(new_point).contains(q) implies target
        .contains(q) by {
        let l = choose|l: usize|
            #[trigger] cur.lines.dom().contains(l) && cur.lines[l].spec_other(new_point) == Some(
                q,
            );
        assert(cur.line_ok(l));
        assert(q != new_point);
        if g0.lines.dom().contains(l) && !incident.contains(l) && cur.lines[l] == g0.lines[l] {
            assert(nbrs0_new.contains(q));
            assert(q != old_point) by {
                if q == old_point {
                    assert(g0.lines[l].point_a == old_point || g0.lines[l].point_b == old_point);
                    assert(g0.line_ok(l));
                    assert(g0.points[old_point].lines.contains(l));
                }
            }
        } else {
            let line = cur.lines[l];
            assert(line.point_b == new_point);
            assert(q == line.point_a);
            assert(nbrs0_old.contains(q));
            assert(q != old_point);
        }
    }
    assert forall|q: usize| #[trigger] target.contains(q) implies cur.neighbours(
        new_point,
    ).contains(q) by {
        if nbrs0_new.contains(q) {
            let m = choose|m: usize|
                #[trigger] g0.lines.dom().contains(m) && g0.lines[m].spec_other(new_point)
                    == Some(q);
            assert(!incident.contains(m)) by {
                if incident.contains(m) {
                    assert(g0.lines[m].point_a == old_point || g0.lines[m].point_b == old_point);
                    assert(g0.lines[m].spec_other(new_point) == Some(q));
                    assert(q == old_point || new_point == old_point);
                }
            }
            assert(g0.lines.dom().contains(m) && !incident.contains(m));
            assert(cur.lines.dom().contains(m) && cur.lines[m] == g0.lines[m]);
            assert(cur.neighbours(new_point).contains(q));
        } else {
            assert(nbrs0_old.contains(q));
            assert(others_of(g0, old_point, incident).contains(q));
            let w = choose|w: usize|
                #[trigger] cur.lines.dom().contains(w) && cur.lines[w].spec_other(new_point)
                    == Some(q);
            assert(cur.neighbours(new_point).contains(q));
        }
    }
    assert(cur.neighbours(new_point) =~= target);
}

/// Whether a value occurs in a vector.
fn vec_contains(v: &Vec<usize>, x: usize) -> (r: bool)
    ensures
        r == v@.contains(x),
{
    let n = v.len();
    let mut k: usize = 0;
    while k < n
        invariant
            k <= n,
            n == v@.len(),
            forall|j: int| 0 <= j < k ==> v@[j] != x,
        decreases n - k,
    {
        if v[k] == x {
            return true;
        }
        k = k + 1;
    }
    false
}

} // verus!
