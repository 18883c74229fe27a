use vstd::prelude::*;
use crate::command::{cmd_apply, Command};
use crate::editor::{cascade_delete, Editor, EditorView};
use crate::geometry::Position;
use crate::graph::{Line, PointView};
use crate::plan::{Element, PlanMode, PointMode, TrackMode};

verus! {

/// The mouse buttons the editor binds.
#[derive(Clone, Copy, PartialEq, Eq, Structural, Debug)]
pub enum MouseButton {
    Left,
    Right,
}

/// The keys the editor binds.
#[derive(Clone, Copy, PartialEq, Eq, Structural, Debug)]
pub enum KeyCode {
    E,
    G,
    R,
    U,
    Delete,
    Escape,
}

/// One edge-triggered input source.
#[derive(Clone, Copy, PartialEq, Eq, Structural, Debug)]
pub enum Binding {
    Mouse(MouseButton),
    Keyboard(KeyCode),
}

/// What a triggered binding asks the editor to do.
#[derive(Clone, Copy, PartialEq, Eq, Structural, Debug)]
pub enum BoundCommand {
    /// Select a hovered point.
    SelectPoint(usize),
    /// Select a hovered line.
    SelectLine(usize),
    /// Drop the selection.
    Unselect,
    /// Create a fresh point and track it.
    Create,
    /// Create a fresh point joined to this one, and track it.
    Extend(usize),
    /// Track this point to move it.
    Move(usize),
    /// Delete this point and everything incident to it.
    DeletePoint(usize),
    /// Delete this line.
    DeleteLine(usize),
    /// Split this line at its midpoint and track the new point.
    Split(usize),
    /// Place the tracked point: select it and close the transaction.
    Place(usize),
    /// Merge the tracked point into the hovered one.
    Merge(usize, usize),
    /// Cancel tracking, rolling the in-progress edit back.
    Cancel,
    /// Step one transaction back.
    Undo,
    /// Step one undone transaction forward again.
    Redo,
}

impl BoundCommand {
    /// The label a binding panel shows for this command.
    pub fn label(&self) -> &'static str {
        match *self {
            BoundCommand::SelectPoint(_) => "Select",
            BoundCommand::SelectLine(_) => "Select",
            BoundCommand::Unselect => "Unselect",
            BoundCommand::Create => "Create",
            BoundCommand::Extend(_) => "Extend",
            BoundCommand::Move(_) => "Move",
            BoundCommand::DeletePoint(_) => "Delete",
            BoundCommand::DeleteLine(_) => "Delete",
            BoundCommand::Split(_) => "Split",
            BoundCommand::Place(_) => "Place",
            BoundCommand::Merge(_, _) => "Merge",
            BoundCommand::Cancel => "Cancel",
            BoundCommand::Undo => "Undo",
            BoundCommand::Redo => "Redo",
        }
    }
}

/// A command offered this tick: the input that triggers it and whether its
/// execution closes an undoable transaction.
#[derive(Clone, Copy, PartialEq, Eq, Structural, Debug)]
pub struct BindedCommand {
    pub binding: Binding,
    pub command: BoundCommand,
    pub should_commit: bool,
}

/// The commands offered in one tick, in priority order: the first triggered
/// one wins.
pub struct BindedCommands(pub Vec<BindedCommand>);

impl BindedCommands {
    /// An empty offer list.
    pub fn new() -> (r: BindedCommands)
        ensures
            r.0@ == Seq::<BindedCommand>::empty(),
    {
        BindedCommands(Vec::new())
    }

    /// Offers a command that closes a transaction when executed.
    pub fn commit(&mut self, binding: Binding, command: BoundCommand)
        ensures
            final(self).0@ == old(self).0@.push(
                BindedCommand { binding, command, should_commit: true },
            ),
    {
        self.0.push(BindedCommand { binding, command, should_commit: true });
    }

    /// Offers a command that leaves the transaction open.
    pub fn no_commit(&mut self, binding: Binding, command: BoundCommand)
        ensures
            final(self).0@ == old(self).0@.push(
                BindedCommand { binding, command, should_commit: false },
            ),
    {
        self.0.push(BindedCommand { binding, command, should_commit: false });
    }
}

/// Bindings for normal mode: select what is hovered, or create a point.
pub struct NormalBindings {
    pub select: Binding,
    pub create: Binding,
}

impl NormalBindings {
    /// The commands normal mode offers for this hover target.
    pub open spec fn spec_bind(self, hover: Element) -> Seq<BindedCommand> {
        (match hover {
            Element::Point(point) => seq![
                BindedCommand {
                    binding: self.select,
                    command: BoundCommand::SelectPoint(point),
                    should_commit: false,
                },
            ],
            Element::Line(line) => seq![
                BindedCommand {
                    binding: self.select,
                    command: BoundCommand::SelectLine(line),
                    should_commit: false,
                },
            ],
            Element::Empty => Seq::empty(),
        }) + seq![
            BindedCommand {
                binding: self.create,
                command: BoundCommand::Create,
                should_commit: false,
            },
        ]
    }

    /// Offers normal mode's commands, in priority order.
    pub fn bind(&self, hover: Element, commands: &mut BindedCommands)
        ensures
            final(commands).0@ == old(commands).0@ + self.spec_bind(hover),
    {
        match hover {
            Element::Point(point) => {
                commands.no_commit(self.select, BoundCommand::SelectPoint(point));
            },
            Element::Line(line) => {
                commands.no_commit(self.select, BoundCommand::SelectLine(line));
            },
            Element::Empty => {},
        }
        commands.no_commit(self.create, BoundCommand::Create);
        proof {
            assert(final(commands).0@ =~= old(commands).0@ + self.spec_bind(hover));
        }
    }
}

/// Bindings for a plainly selected point: reselect by hover, move, extend,
/// delete, or unselect.
pub struct NormalPointBindings {
    pub select: Binding,
    pub track: Binding,
    pub extend: Binding,
    pub delete: Binding,
    pub unselect: Binding,
}

impl NormalPointBindings {
    /// The commands a selected point offers for this hover target.
    pub open spec fn spec_bind(self, selected: usize, hover: Element) -> Seq<BindedCommand> {
        (match hover {
            Element::Point(point) => seq![
                BindedCommand {
                    binding: self.select,
                    command: BoundCommand::SelectPoint(point),
                    should_commit: false,
                },
            ],
            Element::Line(line) => seq![
                BindedCommand {
                    binding: self.select,
                    command: BoundCommand::SelectLine(line),
                    should_commit: false,
                },
            ],
            Element::Empty => seq![
                BindedCommand {
                    binding: self.select,
                    command: BoundCommand::Unselect,
                    should_commit: false,
                },
            ],
        }) + seq![
            BindedCommand {
                binding: self.track,
                command: BoundCommand::Move(selected),
                should_commit: false,
            },
            BindedCommand {
                binding: self.extend,
                command: BoundCommand::Extend(selected),
                should_commit: false,
            },
            BindedCommand {
                binding: self.delete,
                command: BoundCommand::DeletePoint(selected),
                should_commit: true,
            },
            BindedCommand {
                binding: self.unselect,
                command: BoundCommand::Unselect,
                should_commit: false,
            },
        ]
    }

    /// Offers a selected point's commands, in priority order.
    pub fn bind(&self, selected: usize, hover: Element, commands: &mut BindedCommands)
        ensures
            final(commands).0@ == old(commands).0@ + self.spec_bind(selected, hover),
    {
        match hover {
            Element::Point(point) => {
                commands.no_commit(self.select, BoundCommand::SelectPoint(point));
            },
            Element::Line(line) => {
                commands.no_commit(self.select, BoundCommand::SelectLine(line));
            },
            Element::Empty => {
                commands.no_commit(self.select, BoundCommand::Unselect);
            },
        }
        commands.no_commit(self.track, BoundCommand::Move(selected));
        commands.no_commit(self.extend, BoundCommand::Extend(selected));
        commands.commit(self.delete, BoundCommand::DeletePoint(selected));
        commands.no_commit(self.unselect, BoundCommand::Unselect);
        proof {
            assert(final(commands).0@ =~= old(commands).0@ + self.spec_bind(selected, hover));
        }
    }
}

/// Bindings for a tracked point: place or merge it, or cancel.
pub struct TrackPointBindings {
    pub place: Binding,
    pub cancel: Binding,
}

impl TrackPointBindings {
    /// The commands a tracked point offers. Hovering a point turns placement
    /// into a merge, except that merging a fresh creation into its own hover
    /// target, or an extension back into its origin, is a cancel instead.
    pub open spec fn spec_bind(
        self,
        followed: usize,
        track_mode: TrackMode,
        hover: Element,
    ) -> Seq<BindedCommand> {
        (match hover {
            Element::Point(hovered) => match track_mode {
                TrackMode::Create => seq![
                    BindedCommand {
                        binding: self.place,
                        command: BoundCommand::Cancel,
                        should_commit: false,
                    },
                ],
                TrackMode::Move | TrackMode::Split(_) => seq![
                    BindedCommand {
                        binding: self.place,
                        command: BoundCommand::Merge(followed, hovered),
                        should_commit: true,
                    },
                ],
                TrackMode::Extend(origin) => {
                    if hovered == origin {
                        seq![
                            BindedCommand {
                                binding: self.place,
                                command: BoundCommand::Cancel,
                                should_commit: false,
                            },
                        ]
                    } else {
                        seq![
                            BindedCommand {
                                binding: self.place,
                                command: BoundCommand::Merge(followed, hovered),
                                should_commit: true,
                            },
                        ]
                    }
                },
            },
            _ => seq![
                BindedCommand {
                    binding: self.place,
                    command: BoundCommand::Place(followed),
                    should_commit: true,
                },
            ],
        }) + seq![
            BindedCommand {
                binding: self.cancel,
                command: BoundCommand::Cancel,
                should_commit: false,
            },
        ]
    }

    /// Offers a tracked point's commands, in priority order.
    pub fn bind(
        &self,
        followed: usize,
        track_mode: TrackMode,
        hover: Element,
        commands: &mut BindedCommands,
    )
        ensures
            final(commands).0@ == old(commands).0@ + self.spec_bind(followed, track_mode, hover),
    {
        match hover {
            Element::Point(hovered) => match track_mode {
                TrackMode::Create => {
                    commands.no_commit(self.place, BoundCommand::Cancel);
                },
                TrackMode::Move | TrackMode::Split(_) => {
                    commands.commit(self.place, BoundCommand::Merge(followed, hovered));
                },
                TrackMode::Extend(origin) => {
                    if hovered == origin {
                        commands.no_commit(self.place, BoundCommand::Cancel);
                    } else {
                        commands.commit(self.place, BoundCommand::Merge(followed, hovered));
                    }
                },
            },
            _ => {
                commands.commit(self.place, BoundCommand::Place(followed));
            },
        }
        commands.no_commit(self.cancel, BoundCommand::Cancel);
        proof {
            assert(final(commands).0@ =~= old(commands).0@ + self.spec_bind(
                followed,
                track_mode,
                hover,
            ));
        }
    }
}

/// Bindings for a selected point, in either sub-mode.
pub struct PointBindings {
    pub normal: NormalPointBindings,
    pub track: TrackPointBindings,
}

impl PointBindings {
    /// The commands a selected point offers, by sub-mode.
    pub open spec fn spec_bind(
        self,
        selected: usize,
        point_mode: PointMode,
        hover: Element,
    ) -> Seq<BindedCommand> {
        match point_mode {
            PointMode::Normal => self.normal.spec_bind(selected, hover),
            PointMode::Track(track_mode) => self.track.spec_bind(selected, track_mode, hover),
        }
    }

    /// Offers a selected point's commands, by sub-mode.
    pub fn bind(
        &self,
        selected: usize,
        point_mode: PointMode,
        hover: Element,
        commands: &mut BindedCommands,
    )
        ensures
            final(commands).0@ == old(commands).0@ + self.spec_bind(selected, point_mode, hover),
    {
        match point_mode {
            PointMode::Normal => self.normal.bind(selected, hover, commands),
            PointMode::Track(track_mode) => self.track.bind(selected, track_mode, hover, commands),
        }
    }
}

/// Bindings for a selected line: reselect by hover, split, delete, or
/// unselect.
pub struct LineBindings {
    pub select: Binding,
    pub split: Binding,
    pub delete: Binding,
    pub unselect: Binding,
}

impl LineBindings {
    /// The commands a selected line offers for this hover target.
    pub open spec fn spec_bind(self, selected: usize, hover: Element) -> Seq<BindedCommand> {
        (match hover {
            Element::Point(point) => seq![
                BindedCommand {
                    binding: self.select,
                    command: BoundCommand::SelectPoint(point),
                    should_commit: false,
                },
            ],
            Element::Line(line) => seq![
                BindedCommand {
                    binding: self.select,
                    command: BoundCommand::SelectLine(line),
                    should_commit: false,
                },
            ],
            Element::Empty => seq![
                BindedCommand {
                    binding: self.select,
                    command: BoundCommand::Unselect,
                    should_commit: false,
                },
            ],
        }) + seq![
            BindedCommand {
                binding: self.split,
                command: BoundCommand::Split(selected),
                should_commit: false,
            },
            BindedCommand {
                binding: self.delete,
                command: BoundCommand::DeleteLine(selected),
                should_commit: true,
            },
            BindedCommand {
                binding: self.unselect,
                command: BoundCommand::Unselect,
                should_commit: false,
            },
        ]
    }

    /// Offers a selected line's commands, in priority order.
    pub fn bind(&self, selected: usize, hover: Element, commands: &mut BindedCommands)
        ensures
            final(commands).0@ == old(commands).0@ + self.spec_bind(selected, hover),
    {
        match hover {
            Element::Point(point) => {
                commands.no_commit(self.select, BoundCommand::SelectPoint(point));
            },
            Element::Line(line) => {
                commands.no_commit(self.select, BoundCommand::SelectLine(line));
            },
            Element::Empty => {
                commands.no_commit(self.select, BoundCommand::Unselect);
            },
        }
        commands.no_commit(self.split, BoundCommand::Split(selected));
        commands.commit(self.delete, BoundCommand::DeleteLine(selected));
        commands.no_commit(self.unselect, BoundCommand::Unselect);
        proof {
            assert(final(commands).0@ =~= old(commands).0@ + self.spec_bind(selected, hover));
        }
    }
}

/// The full binding table: one rule list per mode, plus undo and redo, which
/// are always offered last when available.
pub struct Bindings {
    pub normal: NormalBindings,
    pub point: PointBindings,
    pub line: LineBindings,
    pub undo: Binding,
    pub redo: Binding,
}

impl Bindings {
    /// Everything offered in one tick, in priority order.
    pub open spec fn spec_bind(
        self,
        mode: PlanMode,
        hover: Element,
        can_undo: bool,
        can_redo: bool,
    ) -> Seq<BindedCommand> {
        (match mode {
            PlanMode::Normal => self.normal.spec_bind(hover),
            PlanMode::Point(selected, point_mode) => self.point.spec_bind(
                selected,
                point_mode,
                hover,
            ),
            PlanMode::Line(selected) => self.line.spec_bind(selected, hover),
        }) + (if can_undo {
            seq![
                BindedCommand {
                    binding: self.undo,
                    command: BoundCommand::Undo,
                    should_commit: false,
                },
            ]
        } else {
            Seq::empty()
        }) + (if can_redo {
            seq![
                BindedCommand {
                    binding: self.redo,
                    command: BoundCommand::Redo,
                    should_commit: false,
                },
            ]
        } else {
            Seq::empty()
        })
    }

    /// Offers everything for one tick, in priority order.
    pub fn bind(
        &self,
        mode: PlanMode,
        hover: Element,
        can_undo: bool,
        can_redo: bool,
    ) -> (commands: BindedCommands)
        ensures
            commands.0@ == self.spec_bind(mode, hover, can_undo, can_redo),
    {
        let mut commands = BindedCommands::new();
        match mode {
            PlanMode::Normal => self.normal.bind(hover, &mut commands),
            PlanMode::Point(selected, point_mode) => self.point.bind(
                selected,
                point_mode,
                hover,
                &mut commands,
            ),
            PlanMode::Line(selected) => self.line.bind(selected, hover, &mut commands),
        }
        if can_undo {
            commands.no_commit(self.undo, BoundCommand::Undo);
        }
        if can_redo {
            commands.no_commit(self.redo, BoundCommand::Redo);
        }
        proof {
            assert(commands.0@ =~= self.spec_bind(mode, hover, can_undo, can_redo));
        }
        commands
    }

}

impl Default for Bindings {
    /// The standard layout: left mouse selects and places, E creates, extends
    /// or splits, G grabs, Delete deletes, Escape cancels or unselects, U
    /// undoes and R redoes.
    fn default() -> (b: Bindings)
        ensures
            b.undo == Binding::Keyboard(KeyCode::U),
            b.redo == Binding::Keyboard(KeyCode::R),
    {
        Bindings {
            normal: NormalBindings {
                select: Binding::Mouse(MouseButton::Left),
                create: Binding::Keyboard(KeyCode::E),
            },
            point: PointBindings {
                normal: NormalPointBindings {
                    select: Binding::Mouse(MouseButton::Left),
                    track: Binding::Keyboard(KeyCode::G),
                    extend: Binding::Keyboard(KeyCode::E),
                    delete: Binding::Keyboard(KeyCode::Delete),
                    unselect: Binding::Keyboard(KeyCode::Escape),
                },
                track: TrackPointBindings {
                    place: Binding::Mouse(MouseButton::Left),
                    cancel: Binding::Keyboard(KeyCode::Escape),
                },
            },
            line: LineBindings {
                select: Binding::Mouse(MouseButton::Left),
                split: Binding::Keyboard(KeyCode::E),
                delete: Binding::Keyboard(KeyCode::Delete),
                unselect: Binding::Keyboard(KeyCode::Escape),
            },
            undo: Binding::Keyboard(KeyCode::U),
            redo: Binding::Keyboard(KeyCode::R),
        }
    }
}

/// The edge-triggered inputs of one tick.
pub struct InputState {
    pub just_pressed: Vec<Binding>,
}

impl InputState {
    /// Whether this input was just pressed.
    pub open spec fn spec_triggered(self, binding: Binding) -> bool {
        self.just_pressed@.contains(binding)
    }

    /// Whether this input was just pressed.
    pub fn triggered(&self, binding: Binding) -> (r: bool)
        ensures
            r == self.spec_triggered(binding),
    {
        let n = self.just_pressed.len();
        let mut k: usize = 0;
        while k < n
            invariant
                k <= n,
                n == self.just_pressed@.len(),
                forall|j: int| 0 <= j < k ==> self.just_pressed@[j] != binding,
            decreases n - k,
        {
            if self.just_pressed[k] == binding {
                return true;
            }
            k = k + 1;
        }
        false
    }
}

/// The first offered command whose binding was just pressed, if any: rules
/// are priority-ordered and at most one fires per tick.
pub open spec fn first_triggered(
    commands: Seq<BindedCommand>,
    input: InputState,
) -> Option<BindedCommand>
    decreases commands.len(),
{
    if commands.len() == 0 {
        None
    } else if input.spec_triggered(commands[0].binding) {
        Some(commands[0])
    } else {
        first_triggered(commands.subrange(1, commands.len() as int), input)
    }
}

/// Picks the first offered command whose binding was just pressed.
pub fn process_binded_commands(commands: &BindedCommands, input: &InputState) -> (r: Option<
    BindedCommand,
>)
    ensures
        r == first_triggered(commands.0@, *input),
{
    let n = commands.0.len();
    let mut k: usize = 0;
    proof {
        assert(commands.0@.subrange(0, n as int) =~= commands.0@);
    }
    while k < n
        invariant
            k <= n,
            n == commands.0@.len(),
            first_triggered(commands.0@, *input) == first_triggered(
                commands.0@.subrange(k as int, n as int),
                *input,
            ),
        decreases n - k,
    {
        let candidate = commands.0[k];
        if input.triggered(candidate.binding) {
            proof {
                assert(commands.0@.subrange(k as int, n as int)[0] == candidate);
            }
            return Some(candidate);
        }
        proof {
            let tail = commands.0@.subrange(k as int, n as int);
            assert(tail[0] == candidate);
            assert(tail.subrange(1, tail.len() as int) =~= commands.0@.subrange(
                k as int + 1,
                n as int,
            ));
        }
        k = k + 1;
    }
    proof {
        assert(commands.0@.subrange(n as int, n as int) =~= Seq::<BindedCommand>::empty());
    }
    None
}

/// What executing one resolved command does to the editor, before any commit:
/// each command forwards to the editor operation of the same name, and a
/// command whose target vanished or whose moment has passed leaves the editor
/// untouched.
pub open spec fn execute_effect(pre: Editor, post: Editor, command: BoundCommand) -> bool {
    let s0 = pre.state();
    let g0 = s0.graph;
    match command {
        BoundCommand::SelectPoint(p) => {
            &&& post.committed() == pre.committed()
            &&& post.future() == pre.future()
            &&& post.state().graph == g0
            &&& post.state().mode == if g0.points.dom().contains(p) {
                PlanMode::Point(p, PointMode::Normal)
            } else {
                s0.mode
            }
        },
        BoundCommand::SelectLine(l) => {
            &&& post.committed() == pre.committed()
            &&& post.future() == pre.future()
            &&& post.state().graph == g0
            &&& post.state().mode == if g0.lines.dom().contains(l) {
                PlanMode::Line(l)
            } else {
                s0.mode
            }
        },
        BoundCommand::Unselect => {
            &&& post.committed() == pre.committed()
            &&& post.future() == pre.future()
            &&& post.state() == (EditorView { graph: g0, mode: PlanMode::Normal })
        },
        BoundCommand::Create => {
            &&& post.committed() == pre.committed()
            &&& post.future() == pre.future()
            &&& exists|p: usize|
                {
                    &&& !g0.points.dom().contains(p)
                    &&& #[trigger] post.state().graph.points == g0.points.insert(
                        p,
                        PointView { position: (Position { x: 0, y: 0 }), lines: Set::empty() },
                    )
                    &&& post.state().graph.lines == g0.lines
                    &&& post.state().mode == PlanMode::Point(
                        p,
                        PointMode::Track(TrackMode::Create),
                    )
                }
        },
        BoundCommand::Extend(origin) => {
            &&& post.committed() == pre.committed()
            &&& post.future() == pre.future()
            &&& if pre.uncommitted().len() == 0 && g0.points.dom().contains(origin) {
                exists|p: usize, l: usize|
                    {
                        &&& !g0.points.dom().contains(p)
                        &&& !g0.lines.dom().contains(l)
                        &&& #[trigger] post.state().graph.points == g0.points.insert(
                            p,
                            PointView {
                                position: (Position { x: 0, y: 0 }),
                                lines: Set::empty().insert(l),
                            },
                        ).insert(
                            origin,
                            PointView {
                                position: g0.points[origin].position,
                                lines: g0.points[origin].lines.insert(l),
                            },
                        )
                        &&& post.state().graph.lines == g0.lines.insert(
                            l,
                            Line { point_a: origin, point_b: p },
                        )
                        &&& post.state().mode == PlanMode::Point(
                            p,
                            PointMode::Track(TrackMode::Extend(origin)),
                        )
                    }
            } else {
                post == pre
            }
        },
        BoundCommand::Move(p) => {
            &&& post.committed() == pre.committed()
            &&& post.future() == pre.future()
            &&& if pre.uncommitted().len() == 0 && g0.points.dom().contains(p) {
                post.state() == (EditorView {
                    graph: g0,
                    mode: PlanMode::Point(p, PointMode::Track(TrackMode::Move)),
                })
            } else {
                post == pre
            }
        },
        BoundCommand::DeletePoint(p) => {
            &&& post.committed() == pre.committed()
            &&& post.future() == pre.future()
            &&& post.state().mode == PlanMode::Normal
            &&& post.state().graph == if g0.points.dom().contains(p) {
                cascade_delete(g0, p)
            } else {
                g0
            }
        },
        BoundCommand::DeleteLine(l) => {
            &&& post.committed() == pre.committed()
            &&& post.future() == pre.future()
            &&& post.state().mode == PlanMode::Normal
            &&& post.state().graph == cmd_apply(g0, Command::DeleteLine(l))
        },
        BoundCommand::Split(l) => {
            &&& post.committed() == pre.committed()
            &&& post.future() == pre.future()
            &&& if pre.uncommitted().len() == 0 && g0.lines.dom().contains(l) {
                exists|ids: (usize, usize, usize)|
                    #![trigger ids.0, ids.1, ids.2]
                    {
                        let a = g0.lines[l].point_a;
                        let b = g0.lines[l].point_b;
                        let m = crate::geometry::midpoint(
                            g0.points[a].position,
                            g0.points[b].position,
                        );
                        &&& !g0.points.dom().contains(ids.0)
                        &&& ids.1 != ids.2
                        &&& post.state().graph.lines == g0.lines.remove(l).insert(
                            ids.1,
                            Line { point_a: a, point_b: ids.0 },
                        ).insert(ids.2, Line { point_a: b, point_b: ids.0 })
                        &&& post.state().graph.points == g0.points.insert(
                            a,
                            PointView {
                                position: g0.points[a].position,
                                lines: g0.points[a].lines.remove(l).insert(ids.1),
                            },
                        ).insert(
                            b,
                            PointView {
                                position: g0.points[b].position,
                                lines: g0.points[b].lines.remove(l).insert(ids.2),
                            },
                        ).insert(ids.0, PointView { position: m, lines: set![ids.1, ids.2] })
                        &&& post.state().mode == PlanMode::Point(
                            ids.0,
                            PointMode::Track(TrackMode::Split(l)),
                        )
                    }
            } else {
                post == pre
            }
        },
        BoundCommand::Place(p) => {
            &&& post.committed() == pre.committed()
            &&& post.future() == pre.future()
            &&& post.state().graph == g0
            &&& post.state().mode == if g0.points.dom().contains(p) {
                PlanMode::Point(p, PointMode::Normal)
            } else {
                s0.mode
            }
        },
        BoundCommand::Merge(old_point, new_point) => {
            &&& post.committed() == pre.committed()
            &&& post.future() == pre.future()
            &&& if !(s0.mode matches PlanMode::Line(_)) && old_point != new_point
                && g0.points.dom().contains(old_point) && g0.points.dom().contains(new_point) {
                let g1 = post.state().graph;
                &&& g1.points.dom() == g0.points.dom().remove(old_point)
                &&& forall|p: usize| #[trigger] g1.points.dom().contains(p)
                    ==> g1.points[p].position == g0.points[p].position
                &&& g1.neighbours(new_point) == g0.neighbours(new_point).union(
                    g0.neighbours(old_point),
                ).remove(old_point).remove(new_point)
                &&& post.state().mode == PlanMode::Point(new_point, PointMode::Normal)
            } else {
                post == pre
            }
        },
        BoundCommand::Cancel => {
            &&& post.committed() == pre.committed()
            &&& post.future() == pre.future()
            &&& match s0.mode {
                PlanMode::Point(followed, PointMode::Track(reason)) => {
                    &&& post.state().graph == pre.committed().last().graph
                    &&& post.uncommitted() == Seq::<Command>::empty()
                    &&& post.state().mode == match reason {
                        TrackMode::Create => PlanMode::Normal,
                        TrackMode::Move => PlanMode::Point(followed, PointMode::Normal),
                        TrackMode::Extend(origin) => PlanMode::Point(origin, PointMode::Normal),
                        TrackMode::Split(line) => PlanMode::Line(line),
                    }
                },
                _ => post == pre,
            }
        },
        BoundCommand::Undo => {
            if pre.committed().len() > 1 {
                &&& post.committed() == pre.committed().drop_last()
                &&& post.future() == pre.future().push(pre.committed().last())
                &&& post.state() == pre.committed()[pre.committed().len() - 2]
                &&& post.uncommitted() == Seq::<Command>::empty()
            } else {
                post == pre
            }
        },
        BoundCommand::Redo => {
            if pre.future().len() > 0 {
                &&& post.committed() == pre.committed().push(pre.future().last())
                &&& post.future() == pre.future().drop_last()
                &&& post.state() == pre.future().last()
                &&& post.uncommitted() == Seq::<Command>::empty()
            } else {
                post == pre
            }
        },
    }
}

/// Executes one resolved command against the editor, without committing.
pub fn execute_command(editor: &mut Editor, command: BoundCommand)
    requires
        old(editor).wf(),
    ensures
        final(editor).wf(),
        execute_effect(*old(editor), *final(editor), command),
{
    match command {
        BoundCommand::SelectPoint(p) => {
            let _ = editor.select_point(p);
        },
        BoundCommand::SelectLine(l) => {
            let _ = editor.select_line(l);
        },
        BoundCommand::Unselect => {
            editor.unselect();
        },
        BoundCommand::Create => {
            let _ = editor.start_create();
        },
        BoundCommand::Extend(origin) => {
            let _ = editor.start_extend(origin);
        },
        BoundCommand::Move(p) => {
            let _ = editor.start_move(p);
        },
        BoundCommand::DeletePoint(p) => {
            editor.unselect();
            let _ = editor.delete_point(p);
        },
        BoundCommand::DeleteLine(l) => {
            editor.unselect();
            editor.push(Command::DeleteLine(l));
        },
        BoundCommand::Split(l) => {
            let _ = editor.start_split(l);
        },
        BoundCommand::Place(p) => {
            let _ = editor.select_point(p);
        },
        BoundCommand::Merge(old_point, new_point) => {
            match editor.mode() {
                PlanMode::Line(_) => {},
                _ => {
                    let _ = editor.merge_points(old_point, new_point);
                },
            }
        },
        BoundCommand::Cancel => {
            editor.cancel_track();
        },
        BoundCommand::Undo => {
            editor.undo();
        },
        BoundCommand::Redo => {
            editor.redo();
        },
    }
}

/// What committing after a command does: the state stays; it becomes the new
/// last committed boundary; the redo side empties.
pub open spec fn commit_effect(pre: Editor, post: Editor) -> bool {
    &&& post.state() == pre.state()
    &&& post.committed() == pre.committed().push(pre.state())
    &&& post.future() == Seq::<EditorView>::empty()
    &&& post.uncommitted() == Seq::<Command>::empty()
}

/// One input tick: offers this mode's commands, picks the first one whose
/// binding was just pressed, executes it, and closes the transaction when the
/// rule asks for one (never while a point is still tracked).
pub fn process_input(
    editor: &mut Editor,
    bindings: &Bindings,
    hover: Element,
    input: &InputState,
)
    requires
        old(editor).wf(),
    ensures
        final(editor).wf(),
        ({
            let offered = bindings.spec_bind(
                old(editor).state().mode,
                hover,
                old(editor).committed().len() > 1,
                old(editor).future().len() > 0,
            );
            match first_triggered(offered, *input) {
                None => *final(editor) == *old(editor),
                Some(binded) => exists|mid: Editor|
                    {
                        &&& #[trigger] mid.wf()
                        &&& execute_effect(*old(editor), mid, binded.command)
                        &&& if binded.should_commit && !mid.state().mode.spec_is_tracking() {
                            commit_effect(mid, *final(editor))
                        } else {
                            *final(editor) == mid
                        }
                    },
            }
        }),
{
    let can_undo = editor.can_undo();
    let can_redo = editor.can_redo();
    let mode = editor.mode();
    let commands = bindings.bind(mode, hover, can_undo, can_redo);
    match process_binded_commands(&commands, input) {
        Some(binded) => {
            execute_command(editor, binded.command);
            let ghost mid = *editor;
            if binded.should_commit {
                let tracking = match editor.mode() {
                    PlanMode::Point(_, PointMode::Track(_)) => true,
                    _ => false,
                };
                if !tracking {
                    editor.commit();
                }
            }
            proof {
                assert(mid.wf() && execute_effect(*old(editor), mid, binded.command));
            }
        },
        None => {},
    }
}

} // verus!
