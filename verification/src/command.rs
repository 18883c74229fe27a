use vstd::prelude::*;
use crate::geometry::Position;
use crate::graph::{Graph, GraphError, GraphView, Line, PointView};

verus! {

/// An atomic command over the graph store. Each command carries only what is
/// needed to apply it; its inverse is derived from the state observed while
/// it is applied, never precomputed.
#[derive(Clone, Copy, PartialEq, Eq, Structural, Debug)]
pub enum Command {
    /// Create a point with this id at this position.
    CreatePoint(usize, Position),
    /// Remove a point that has no incident lines left.
    DespawnPoint(usize),
    /// Move a point to this position.
    MovePoint(usize, Position),
    /// Create a line with this id between these two points.
    CreateLine(usize, usize, usize),
    /// Delete a line, detaching it from both endpoints.
    DeleteLine(usize),
}

/// Whether a command has an effect on this graph. A command aimed at a
/// vanished or conflicting id is a recoverable no-op, uniformly for every
/// command kind.
pub open spec fn cmd_applicable(g: GraphView, c: Command) -> bool {
    match c {
        Command::CreatePoint(id, _) => !g.points.dom().contains(id),
        Command::DespawnPoint(id) => g.points.dom().contains(id) && g.points[id].lines
            =~= Set::<usize>::empty(),
        Command::MovePoint(id, _) => g.points.dom().contains(id),
        Command::CreateLine(id, a, b) => a != b && g.points.dom().contains(a)
            && g.points.dom().contains(b) && !g.lines.dom().contains(id),
        Command::DeleteLine(id) => g.lines.dom().contains(id),
    }
}

/// The effect of a command on the graph model: the stated transformation when
/// the command is applicable, and the identity otherwise.
pub open spec fn cmd_apply(g: GraphView, c: Command) -> GraphView {
    if !cmd_applicable(g, c) {
        g
    } else {
        match c {
            Command::CreatePoint(id, position) => GraphView {
                points: g.points.insert(id, PointView { position, lines: Set::empty() }),
                lines: g.lines,
            },
            Command::DespawnPoint(id) => GraphView { points: g.points.remove(id), lines: g.lines },
            Command::MovePoint(id, position) => GraphView {
                points: g.points.insert(id, PointView { position, lines: g.points[id].lines }),
                lines: g.lines,
            },
            Command::CreateLine(id, a, b) => GraphView {
                points: g.points.insert(
                    a,
                    PointView {
                        position: g.points[a].position,
                        lines: g.points[a].lines.insert(id),
                    },
                ).insert(
                    b,
                    PointView {
                        position: g.points[b].position,
                        lines: g.points[b].lines.insert(id),
                    },
                ),
                lines: g.lines.insert(id, Line { point_a: a, point_b: b }),
            },
            Command::DeleteLine(id) => {
                let line = g.lines[id];
                GraphView {
                    points: g.points.insert(
                        line.point_a,
                        PointView {
                            position: g.points[line.point_a].position,
                            lines: g.points[line.point_a].lines.remove(id),
                        },
                    ).insert(
                        line.point_b,
                        PointView {
                            position: g.points[line.point_b].position,
                            lines: g.points[line.point_b].lines.remove(id),
                        },
                    ),
                    lines: g.lines.remove(id),
                }
            },
        }
    }
}

/// The inverse of an applicable command, read off the graph it is about to be
/// applied to.
pub open spec fn cmd_inverse(g: GraphView, c: Command) -> Command {
    match c {
        Command::CreatePoint(id, _) => Command::DespawnPoint(id),
        Command::DespawnPoint(id) => Command::CreatePoint(id, g.points[id].position),
        Command::MovePoint(id, _) => Command::MovePoint(id, g.points[id].position),
        Command::CreateLine(id, _, _) => Command::DeleteLine(id),
        Command::DeleteLine(id) => Command::CreateLine(
            id,
            g.lines[id].point_a,
            g.lines[id].point_b,
        ),
    }
}

/// Inverse correctness: on a well-formed graph, applying a command and then
/// the inverse it derived restores the graph exactly; the inverse is itself
/// applicable there, and its own derived inverse is the original command.
pub proof fn lemma_command_roundtrip(g: GraphView, c: Command)
    requires
        g.wf(),
        cmd_applicable(g, c),
    ensures
        cmd_applicable(cmd_apply(g, c), cmd_inverse(g, c)),
        cmd_apply(cmd_apply(g, c), cmd_inverse(g, c)) == g,
        cmd_inverse(cmd_apply(g, c), cmd_inverse(g, c)) == c,
{
    let g2 = cmd_apply(g, c);
    let ic = cmd_inverse(g, c);
    match c {
        Command::CreatePoint(id, position) => {
            assert(g2.points[id].lines =~= Set::<usize>::empty());
            assert(cmd_apply(g2, ic) =~~= g);
        },
        Command::DespawnPoint(id) => {
            assert(cmd_apply(g2, ic).points =~~= g.points);
            assert(cmd_apply(g2, ic) =~~= g);
        },
        Command::MovePoint(id, position) => {
            assert(cmd_apply(g2, ic) =~~= g);
        },
        Command::CreateLine(id, a, b) => {
            // A fresh line id is in no point's incident set.
            assert(!g.points[a].lines.contains(id));
            assert(!g.points[b].lines.contains(id));
            assert(g2.points[a].lines.remove(id) =~= g.points[a].lines);
            assert(g2.points[b].lines.remove(id) =~= g.points[b].lines);
            assert(cmd_apply(g2, ic) =~~= g);
        },
        Command::DeleteLine(id) => {
            let line = g.lines[id];
            assert(g.line_ok(id));
            assert(g2.points[line.point_a].lines.insert(id) =~= g.points[line.point_a].lines);
            assert(g2.points[line.point_b].lines.insert(id) =~= g.points[line.point_b].lines);
            assert(cmd_apply(g2, ic) =~~= g);
        },
    }
}

/// Applies a command to the graph store. The store moves to `cmd_apply` of
/// its old model in every case; when the command had an effect, its derived
/// inverse is returned, and a command aimed at a vanished or conflicting id
/// is a recoverable no-op that returns nothing.
pub fn apply_command(graph: &mut Graph, c: Command) -> (inverse: Option<Command>)
    requires
        old(graph).inv(),
    ensures
        final(graph).inv(),
        final(graph)@ == cmd_apply(old(graph)@, c),
        match inverse {
            Some(ic) => cmd_applicable(old(graph)@, c) && ic == cmd_inverse(old(graph)@, c),
            None => !cmd_applicable(old(graph)@, c) && final(graph)@ == old(graph)@,
        },
{
    match c {
        Command::CreatePoint(id, position) => match graph.create_point(id, position) {
            Ok(()) => {
                proof {
                    assert(graph@ =~~= cmd_apply(old(graph)@, c));
                }
                Some(Command::DespawnPoint(id))
            },
            Err(_) => None,
        },
        Command::DespawnPoint(id) => match graph.despawn_point(id) {
            Ok(prev) => {
                proof {
                    assert(graph@ =~~= cmd_apply(old(graph)@, c));
                }
                Some(Command::CreatePoint(id, prev))
            },
            Err(_) => None,
        },
        Command::MovePoint(id, position) => match graph.move_point(id, position) {
            Ok(prev) => {
                proof {
                    assert(graph@ =~~= cmd_apply(old(graph)@, c));
                }
                Some(Command::MovePoint(id, prev))
            },
            Err(_) => None,
        },
        Command::CreateLine(id, a, b) => match graph.create_line(id, a, b) {
            Ok(()) => {
                proof {
                    assert(graph@ =~~= cmd_apply(old(graph)@, c));
                }
                Some(Command::DeleteLine(id))
            },
            Err(_) => None,
        },
        Command::DeleteLine(id) => match graph.delete_line(id) {
            Ok(line) => {
                proof {
                    assert(graph@ =~~= cmd_apply(old(graph)@, c));
                }
                Some(Command::CreateLine(id, line.point_a, line.point_b))
            },
            Err(_) => None,
        },
    }
}

/// Rolls a graph model back through a list of recorded inverses, last
/// recorded first, as undo replays a transaction.
pub open spec fn seq_apply_rev(g: GraphView, cmds: Seq<Command>) -> GraphView
    decreases cmds.len(),
{
    if cmds.len() == 0 {
        g
    } else {
        seq_apply_rev(cmd_apply(g, cmds.last()), cmds.drop_last())
    }
}

/// Recording one more inverse extends the rollback: undoing it first leads
/// back to where the shorter rollback starts.
pub proof fn lemma_seq_apply_rev_push(g: GraphView, cmds: Seq<Command>, c: Command)
    ensures
        seq_apply_rev(g, cmds.push(c)) == seq_apply_rev(cmd_apply(g, c), cmds),
{
    assert(cmds.push(c).last() == c);
    assert(cmds.push(c).drop_last() =~= cmds);
}

/// Unfolding a rollback from the front: the first recorded inverse is the
/// last one applied.
pub proof fn lemma_seq_apply_rev_first(g: GraphView, cmds: Seq<Command>)
    requires
        cmds.len() > 0,
    ensures
        seq_apply_rev(g, cmds) == cmd_apply(
            seq_apply_rev(g, cmds.subrange(1, cmds.len() as int)),
            cmds[0],
        ),
    decreases cmds.len(),
{
    if cmds.len() == 1 {
        assert(cmds.drop_last() =~= Seq::<Command>::empty());
        assert(cmds.subrange(1, cmds.len() as int) =~= Seq::<Command>::empty());
        assert(seq_apply_rev(cmd_apply(g, cmds.last()), Seq::<Command>::empty()) == cmd_apply(
            g,
            cmds.last(),
        ));
    } else {
        let shorter = cmds.drop_last();
        let tail = cmds.subrange(1, cmds.len() as int);
        let g1 = cmd_apply(g, cmds.last());
        lemma_seq_apply_rev_first(g1, shorter);
        assert(shorter.subrange(1, shorter.len() as int) =~= tail.drop_last());
        assert(shorter[0] == cmds[0]);
        // Unfold both rollbacks one step and line the pieces up.
        assert(seq_apply_rev(g, cmds) == seq_apply_rev(g1, shorter));
        assert(tail.last() == cmds.last());
        assert(tail.len() > 0);
        assert(seq_apply_rev(g, tail) == seq_apply_rev(cmd_apply(g, tail.last()), tail.drop_last()));
        assert(seq_apply_rev(g1, shorter) == cmd_apply(seq_apply_rev(g1, tail.drop_last()), cmds[0]));
    }
}

} // verus!
