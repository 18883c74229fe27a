use vstd::prelude::*;
use vstd::pervasive::VecAdditionalExecFns;
use crate::geometry::Position;

verus! {

/// A point of the plan: a position and the ids of its incident lines, kept in
/// insertion order. The order matters only for deterministic iteration; the
/// mathematical model of a point keeps the incident ids as a set.
#[derive(Debug)]
pub struct Point {
    pub position: Position,
    pub lines: Vec<usize>,
}

/// A line of the plan: the ids of its two endpoints. The pair is unordered as
/// an edge, but each slot keeps its place so an endpoint can be replaced.
#[derive(Clone, Copy, PartialEq, Eq, Structural, Debug)]
pub struct Line {
    pub point_a: usize,
    pub point_b: usize,
}

impl Line {
    /// The endpoint of this line other than `point`, if `point` is incident.
    pub open spec fn spec_other(self, point: usize) -> Option<usize> {
        if point == self.point_a {
            Some(self.point_b)
        } else if point == self.point_b {
            Some(self.point_a)
        } else {
            None
        }
    }

    /// The endpoint of this line other than `point`, if `point` is incident.
    pub fn other(&self, point: usize) -> (r: Option<usize>)
        ensures
            r == self.spec_other(point),
    {
        if point == self.point_a {
            Some(self.point_b)
        } else if point == self.point_b {
            Some(self.point_a)
        } else {
            None
        }
    }
}

/// Mathematical model of a point: its position and the set of incident line
/// ids.
#[verifier::ext_equal]
pub struct PointView {
    pub position: Position,
    pub lines: Set<usize>,
}

/// Mathematical model of the graph store: two finite maps from id to entity.
/// Point ids and line ids are separate namespaces.
#[verifier::ext_equal]
pub struct GraphView {
    pub points: Map<usize, PointView>,
    pub lines: Map<usize, Line>,
}

impl View for Point {
    type V = PointView;

    open spec fn view(&self) -> PointView {
        PointView { position: self.position, lines: self.lines@.to_set() }
    }
}

impl Point {
    /// Detaches a line id from this point's incident list, keeping the order
    /// of the rest.
    pub fn remove_line(&mut self, line: usize)
        requires
            old(self).lines@.contains(line),
            old(self).lines@.no_duplicates(),
        ensures
            final(self).position == old(self).position,
            final(self).lines@.no_duplicates(),
            final(self)@.lines == old(self)@.lines.remove(line),
    {
        let ghost old_lines = self.lines@;
        let n = self.lines.len();
        let mut idx: usize = 0;
        proof {
            let witness = choose|j: int| 0 <= j < old_lines.len() && old_lines[j] == line;
        }
        while self.lines[idx] != line
            invariant
                idx < n,
                n == old_lines.len(),
                self.lines@ == old_lines,
                forall|j: int| 0 <= j < idx ==> old_lines[j] != line,
                old_lines.contains(line),
            decreases n - idx,
        {
            idx = idx + 1;
            proof {
                if idx >= old_lines.len() {
                    let witness = choose|j: int| 0 <= j < old_lines.len() && old_lines[j] == line;
                    assert(false);
                }
            }
        }
        self.lines.remove(idx);
        proof {
            lemma_remove_keeps_no_duplicates(old_lines, idx as int);
            lemma_remove_to_set(old_lines, idx as int);
            assert(self@.lines =~= old(self)@.lines.remove(line));
        }
    }
}

impl GraphView {
    /// Adjacency conditions on one line: both endpoints exist, are distinct,
    /// and list the line among their incident ids.
    pub open spec fn line_ok(self, l: usize) -> bool {
        let line = self.lines[l];
        &&& self.points.dom().contains(line.point_a)
        &&& self.points.dom().contains(line.point_b)
        &&& line.point_a != line.point_b
        &&& self.points[line.point_a].lines.contains(l)
        &&& self.points[line.point_b].lines.contains(l)
    }

    /// Adjacency symmetry for the whole graph: every line's endpoints know the
    /// line, and every id in a point's incident set is a line at that point.
    pub open spec fn wf(self) -> bool {
        &&& forall|l: usize| #[trigger] self.lines.dom().contains(l) ==> self.line_ok(l)
        &&& forall|p: usize, l: usize|
            self.points.dom().contains(p) && #[trigger] self.points[p].lines.contains(l) ==> {
                &&& self.lines.dom().contains(l)
                &&& (self.lines[l].point_a == p || self.lines[l].point_b == p)
            }
    }

    /// The neighbours of a point: every point joined to it by some line.
    pub open spec fn neighbours(self, p: usize) -> Set<usize> {
        Set::new(
            |q: usize|
                exists|l: usize|
                    #[trigger] self.lines.dom().contains(l) && self.lines[l].spec_other(p)
                        == Some(q),
        )
    }
}

/// Why a graph store operation was refused. Every refusal leaves the store
/// unchanged.
#[derive(Clone, Copy, PartialEq, Eq, Structural, Debug)]
pub enum GraphError {
    /// A point with the requested id already exists.
    PointIdInUse,
    /// A line with the requested id already exists.
    LineIdInUse,
    /// The requested point does not exist.
    UnknownPoint,
    /// The requested line does not exist.
    UnknownLine,
    /// The point still has incident lines and cannot be removed.
    PointHasLines,
    /// A line's endpoints must be two distinct points.
    SelfLoop,
    /// The given point is not an endpoint of the given line.
    NotIncident,
}

/// The graph store. Entities live in slots indexed by their id; a despawned
/// id leaves an empty slot behind and is never reused by the editor's
/// allocator.
pub struct Graph {
    points: Vec<Option<Point>>,
    lines: Vec<Option<Line>>,
}

impl View for Graph {
    type V = GraphView;

    closed spec fn view(&self) -> GraphView {
        GraphView {
            points: Map::new(
                |id: usize| id < self.points@.len() && self.points@[id as int] is Some,
                |id: usize| self.points@[id as int]->Some_0@,
            ),
            lines: Map::new(
                |id: usize| id < self.lines@.len() && self.lines@[id as int] is Some,
                |id: usize| self.lines@[id as int]->Some_0,
            ),
        }
    }
}

impl Graph {
    /// Representation invariant: no point lists the same incident line twice,
    /// so the incident set models the incident list faithfully.
    pub closed spec fn repr_ok(self) -> bool {
        forall|i: int|
            0 <= i < self.points@.len() && self.points@[i] is Some
                ==> (#[trigger] self.points@[i])->Some_0.lines@.no_duplicates()
    }

    /// The store's invariant: well-formed adjacency over the model, plus the
    /// representation invariant.
    pub open spec fn inv(self) -> bool {
        &&& self.repr_ok()
        &&& self@.wf()
    }

    /// An empty graph store.
    pub fn new() -> (g: Graph)
        ensures
            g.inv(),
            g@.points == Map::<usize, PointView>::empty(),
            g@.lines == Map::<usize, Line>::empty(),
    {
        let g = Graph { points: Vec::new(), lines: Vec::new() };
        proof {
            assert(g@.points =~~= Map::<usize, PointView>::empty());
            assert(g@.lines =~~= Map::<usize, Line>::empty());
        }
        g
    }

    /// Whether a point with this id exists.
    pub fn contains_point(&self, id: usize) -> (r: bool)
        ensures
            r == self@.points.dom().contains(id),
    {
        id < self.points.len() && self.points[id].is_some()
    }

    /// Whether a line with this id exists.
    pub fn contains_line(&self, id: usize) -> (r: bool)
        ensures
            r == self@.lines.dom().contains(id),
    {
        id < self.lines.len() && self.lines[id].is_some()
    }

    /// The position of a point, if it exists.
    pub fn point_position(&self, id: usize) -> (r: Option<Position>)
        ensures
            match r {
                Some(p) => self@.points.dom().contains(id) && p == self@.points[id].position,
                None => !self@.points.dom().contains(id),
            },
    {
        if id < self.points.len() {
            match &self.points[id] {
                Some(point) => Some(point.position),
                None => None,
            }
        } else {
            None
        }
    }

    /// The endpoints of a line, if it exists.
    pub fn line_endpoints(&self, id: usize) -> (r: Option<Line>)
        ensures
            match r {
                Some(l) => self@.lines.dom().contains(id) && l == self@.lines[id],
                None => !self@.lines.dom().contains(id),
            },
    {
        if id < self.lines.len() {
            self.lines[id]
        } else {
            None
        }
    }

    /// Creates a point at `position` under the given id. Refused when the id
    /// is already in use.
    #[verifier::loop_isolation(false)]
    pub fn create_point(&mut self, id: usize, position: Position) -> (r: Result<(), GraphError>)
        requires
            old(self).inv(),
        ensures
            final(self).inv(),
            match r {
                Ok(()) => {
                    &&& !old(self)@.points.dom().contains(id)
                    &&& final(self)@.points == old(self)@.points.insert(
                        id,
                        PointView { position, lines: Set::empty() },
                    )
                    &&& final(self)@.lines == old(self)@.lines
                },
                Err(e) => {
                    &&& e == GraphError::PointIdInUse
                    &&& old(self)@.points.dom().contains(id)
                    &&& *final(self) == *old(self)
                },
            },
    {
        if self.contains_point(id) {
            return Err(GraphError::PointIdInUse);
        }
        while self.points.len() <= id
            invariant
                self.lines == old(self).lines,
                self@.points =~= old(self)@.points,
                self.repr_ok(),
            decreases id + 1 - self.points.len(),
        {
            self.points.push(None);
            proof {
                assert(self@.points =~= old(self)@.points);
            }
        }
        let fresh = Point { position, lines: Vec::new() };
        proof {
            assert(fresh@.lines =~= Set::<usize>::empty());
        }
        self.points.set(id, Some(fresh));
        proof {
            assert(self@.points =~~= old(self)@.points.insert(
                id,
                PointView { position, lines: Set::empty() },
            ));
            assert(self@.lines =~= old(self)@.lines);
            assert(self@.wf()) by {
                assert(forall|l: usize| #[trigger] self@.lines.dom().contains(l)
                    ==> self@.line_ok(l)) by {
                    assert(forall|l: usize| #[trigger] old(self)@.lines.dom().contains(l)
                        ==> old(self)@.line_ok(l));
                }
            }
        }
        Ok(())
    }

    /// Moves a point to `position`, returning its previous position. Refused
    /// when the point does not exist.
    pub fn move_point(&mut self, id: usize, position: Position) -> (r: Result<
        Position,
        GraphError,
    >)
        requires
            old(self).inv(),
        ensures
            final(self).inv(),
            match r {
                Ok(prev) => {
                    &&& old(self)@.points.dom().contains(id)
                    &&& prev == old(self)@.points[id].position
                    &&& final(self)@.points == old(self)@.points.insert(
                        id,
                        PointView { position, lines: old(self)@.points[id].lines },
                    )
                    &&& final(self)@.lines == old(self)@.lines
                },
                Err(e) => {
                    &&& e == GraphError::UnknownPoint
                    &&& !old(self)@.points.dom().contains(id)
                    &&& *final(self) == *old(self)
                },
            },
    {
        if !self.contains_point(id) {
            return Err(GraphError::UnknownPoint);
        }
        let mut slot: Option<Point> = None;
        self.points.set_and_swap(id, &mut slot);
        match slot {
            Some(mut point) => {
                let prev = point.position;
                point.position = position;
                self.points.set(id, Some(point));
                proof {
                    assert(self@.points =~~= old(self)@.points.insert(
                        id,
                        PointView { position, lines: old(self)@.points[id].lines },
                    ));
                    assert(self@.lines =~= old(self)@.lines);
                    lemma_same_shape_wf(old(self)@, self@);
                }
                Ok(prev)
            },
            None => Err(GraphError::UnknownPoint),
        }
    }

    /// Removes a point, returning its last position. Refused when the point
    /// does not exist or still has incident lines (callers must detach first).
    pub fn despawn_point(&mut self, id: usize) -> (r: Result<Position, GraphError>)
        requires
            old(self).inv(),
        ensures
            final(self).inv(),
            match r {
                Ok(prev) => {
                    &&& old(self)@.points.dom().contains(id)
                    &&& old(self)@.points[id].lines =~= Set::<usize>::empty()
                    &&& prev == old(self)@.points[id].position
                    &&& final(self)@.points == old(self)@.points.remove(id)
                    &&& final(self)@.lines == old(self)@.lines
                },
                Err(GraphError::UnknownPoint) => {
                    &&& !old(self)@.points.dom().contains(id)
                    &&& *final(self) == *old(self)
                },
                Err(GraphError::PointHasLines) => {
                    &&& old(self)@.points.dom().contains(id)
                    &&& old(self)@.points[id].lines != Set::<usize>::empty()
                    &&& *final(self) == *old(self)
                },
                Err(_) => false,
            },
    {
        if id >= self.points.len() {
            return Err(GraphError::UnknownPoint);
        }
        let prev = match &self.points[id] {
            Some(point) => {
                if point.lines.len() > 0 {
                    proof {
                        assert(point@.lines.contains(point.lines@[0]));
                    }
                    return Err(GraphError::PointHasLines);
                }
                proof {
                    assert(point@.lines =~= Set::<usize>::empty());
                }
                point.position
            },
            None => {
                return Err(GraphError::UnknownPoint);
            },
        };
        self.points.set(id, None);
        proof {
            assert(self@.points =~~= old(self)@.points.remove(id));
            assert(self@.lines =~= old(self)@.lines);
            assert(self@.wf()) by {
                assert forall|l: usize| #[trigger] self@.lines.dom().contains(l)
                    implies self@.line_ok(l) by {
                    assert(old(self)@.line_ok(l));
                    assert(old(self)@.lines[l].point_a != id);
                    assert(old(self)@.lines[l].point_b != id);
                }
            }
        }
        Ok(prev)
    }

    /// Adds `lid` to the incident list of point `pid`.
    fn point_push_line(&mut self, pid: usize, lid: usize)
        requires
            old(self).repr_ok(),
            old(self)@.points.dom().contains(pid),
            !old(self)@.points[pid].lines.contains(lid),
        ensures
            final(self).repr_ok(),
            final(self)@.points == old(self)@.points.insert(
                pid,
                PointView {
                    position: old(self)@.points[pid].position,
                    lines: old(self)@.points[pid].lines.insert(lid),
                },
            ),
            final(self)@.lines == old(self)@.lines,
    {
        let mut slot: Option<Point> = None;
        self.points.set_and_swap(pid, &mut slot);
        match slot {
            Some(mut point) => {
                proof {
                    assert(!point.lines@.contains(lid));
                }
                proof {
                    lemma_push_keeps_no_duplicates(point.lines@, lid);
                    lemma_push_to_set(point.lines@, lid);
                }
                point.lines.push(lid);
                proof {
                    assert(point@.lines =~= old(self)@.points[pid].lines.insert(lid));
                }
                self.points.set(pid, Some(point));
                proof {
                    assert(self@.points =~~= old(self)@.points.insert(
                        pid,
                        PointView {
                            position: old(self)@.points[pid].position,
                            lines: old(self)@.points[pid].lines.insert(lid),
                        },
                    ));
                    assert(self@.lines =~= old(self)@.lines);
                }
            },
            None => {
                proof {
                    assert(false);
                }
            },
        }
    }

    /// Removes `lid` from the incident list of point `pid`.
    fn point_remove_line(&mut self, pid: usize, lid: usize)
        requires
            old(self).repr_ok(),
            old(self)@.points.dom().contains(pid),
            old(self)@.points[pid].lines.contains(lid),
        ensures
            final(self).repr_ok(),
            final(self)@.points == old(self)@.points.insert(
                pid,
                PointView {
                    position: old(self)@.points[pid].position,
                    lines: old(self)@.points[pid].lines.remove(lid),
                },
            ),
            final(self)@.lines == old(self)@.lines,
    {
        let mut slot: Option<Point> = None;
        self.points.set_and_swap(pid, &mut slot);
        match slot {
            Some(mut point) => {
                proof {
                    assert(point.lines@.contains(lid));
                }
                point.remove_line(lid);
                self.points.set(pid, Some(point));
                proof {
                    assert(self@.points =~~= old(self)@.points.insert(
                        pid,
                        PointView {
                            position: old(self)@.points[pid].position,
                            lines: old(self)@.points[pid].lines.remove(lid),
                        },
                    ));
                    assert(self@.lines =~= old(self)@.lines);
                }
            },
            None => {
                proof {
                    assert(false);
                }
            },
        }
    }

    /// Stores a line under a fresh id, growing the slot table as needed.
    #[verifier::loop_isolation(false)]
    fn place_line(&mut self, id: usize, line: Line)
        requires
            !old(self)@.lines.dom().contains(id),
        ensures
            final(self).points == old(self).points,
            final(self)@.lines == old(self)@.lines.insert(id, line),
    {
        while self.lines.len() <= id
            invariant
                self.points == old(self).points,
                self@.lines =~= old(self)@.lines,
            decreases id + 1 - self.lines.len(),
        {
            self.lines.push(None);
            proof {
                assert(self@.lines =~= old(self)@.lines);
            }
        }
        self.lines.set(id, Some(line));
        proof {
            assert(self@.lines =~= old(self)@.lines.insert(id, line));
        }
    }

    /// Creates a line between two existing, distinct points under the given
    /// id, and records it in both endpoints' incident lists.
    pub fn create_line(&mut self, id: usize, point_a: usize, point_b: usize) -> (r: Result<
        (),
        GraphError,
    >)
        requires
            old(self).inv(),
        ensures
            final(self).inv(),
            match r {
                Ok(()) => {
                    &&& point_a != point_b
                    &&& old(self)@.points.dom().contains(point_a)
                    &&& old(self)@.points.dom().contains(point_b)
                    &&& !old(self)@.lines.dom().contains(id)
                    &&& final(self)@.lines == old(self)@.lines.insert(
                        id,
                        Line { point_a, point_b },
                    )
                    &&& final(self)@.points == old(self)@.points.insert(
                        point_a,
                        PointView {
                            position: old(self)@.points[point_a].position,
                            lines: old(self)@.points[point_a].lines.insert(id),
                        },
                    ).insert(
                        point_b,
                        PointView {
                            position: old(self)@.points[point_b].position,
                            lines: old(self)@.points[point_b].lines.insert(id),
                        },
                    )
                },
                Err(GraphError::SelfLoop) => point_a == point_b && *final(self) == *old(self),
                Err(GraphError::UnknownPoint) => {
                    &&& point_a != point_b
                    &&& (!old(self)@.points.dom().contains(point_a) || !old(
                        self,
                    )@.points.dom().contains(point_b))
                    &&& *final(self) == *old(self)
                },
                Err(GraphError::LineIdInUse) => {
                    &&& point_a != point_b
                    &&& old(self)@.points.dom().contains(point_a)
                    &&& old(self)@.points.dom().contains(point_b)
                    &&& old(self)@.lines.dom().contains(id)
                    &&& *final(self) == *old(self)
                },
                Err(_) => false,
            },
    {
        if point_a == point_b {
            return Err(GraphError::SelfLoop);
        }
        if !self.contains_point(point_a) || !self.contains_point(point_b) {
            return Err(GraphError::UnknownPoint);
        }
        if self.contains_line(id) {
            return Err(GraphError::LineIdInUse);
        }
        let line = Line { point_a, point_b };
        self.place_line(id, line);
        proof {
            // A fresh line id appears in no point's incident set.
            assert(!old(self)@.points[point_a].lines.contains(id));
            assert(!old(self)@.points[point_b].lines.contains(id));
        }
        self.point_push_line(point_a, id);
        self.point_push_line(point_b, id);
        proof {
            let new = self@;
            let prev = old(self)@;
            assert(new.wf()) by {
                assert forall|l: usize| #[trigger] new.lines.dom().contains(l)
                    implies new.line_ok(l) by {
                    if l == id {
                        assert(new.points[point_a].lines.contains(id));
                        assert(new.points[point_b].lines.contains(id));
                    } else {
                        assert(prev.line_ok(l));
                    }
                }
                assert forall|p: usize, l: usize|
                    new.points.dom().contains(p) && #[trigger] new.points[p].lines.contains(l)
                    implies new.lines.dom().contains(l) && (new.lines[l].point_a == p
                    || new.lines[l].point_b == p) by {
                    if l != id {
                        assert(prev.points.dom().contains(p) && prev.points[p].lines.contains(l));
                    }
                }
            }
        }
        Ok(())
    }

    /// Deletes a line, detaching it from both endpoints first, and returns
    /// its endpoints as read at delete time.
    pub fn delete_line(&mut self, id: usize) -> (r: Result<Line, GraphError>)
        requires
            old(self).inv(),
        ensures
            final(self).inv(),
            match r {
                Ok(line) => {
                    &&& old(self)@.lines.dom().contains(id)
                    &&& line == old(self)@.lines[id]
                    &&& final(self)@.lines == old(self)@.lines.remove(id)
                    &&& final(self)@.points == old(self)@.points.insert(
                        line.point_a,
                        PointView {
                            position: old(self)@.points[line.point_a].position,
                            lines: old(self)@.points[line.point_a].lines.remove(id),
                        },
                    ).insert(
                        line.point_b,
                        PointView {
                            position: old(self)@.points[line.point_b].position,
                            lines: old(self)@.points[line.point_b].lines.remove(id),
                        },
                    )
                },
                Err(e) => {
                    &&& e == GraphError::UnknownLine
                    &&& !old(self)@.lines.dom().contains(id)
                    &&& *final(self) == *old(self)
                },
            },
    {
        let line = match self.line_endpoints(id) {
            Some(line) => line,
            None => {
                return Err(GraphError::UnknownLine);
            },
        };
        proof {
            assert(old(self)@.line_ok(id));
        }
        self.point_remove_line(line.point_a, id);
        self.point_remove_line(line.point_b, id);
        let mut slot: Option<Line> = None;
        self.lines.set_and_swap(id, &mut slot);
        proof {
            assert(self@.lines =~= old(self)@.lines.remove(id));
            let new = self@;
            let prev = old(self)@;
            assert(new.wf()) by {
                assert forall|l: usize| #[trigger] new.lines.dom().contains(l)
                    implies new.line_ok(l) by {
                    assert(prev.line_ok(l));
                    // No other line is detached: a point's incident set lost
                    // only the deleted id.
                    assert(l != id);
                }
                assert forall|p: usize, l: usize|
                    new.points.dom().contains(p) && #[trigger] new.points[p].lines.contains(l)
                    implies new.lines.dom().contains(l) && (new.lines[l].point_a == p
                    || new.lines[l].point_b == p) by {
                    assert(prev.points.dom().contains(p) && prev.points[p].lines.contains(l));
                    assert(l != id);
                }
            }
        }
        Ok(line)
    }

    /// The other endpoint of a line with respect to one of its endpoints, as
    /// the original graph query for following a line from a point.
    pub fn neighbour_of(&self, line_id: usize, point_id: usize) -> (r: Result<usize, GraphError>)
        ensures
            match r {
                Ok(q) => {
                    &&& self@.lines.dom().contains(line_id)
                    &&& self@.lines[line_id].spec_other(point_id) == Some(q)
                },
                Err(GraphError::UnknownLine) => !self@.lines.dom().contains(line_id),
                Err(GraphError::NotIncident) => {
                    &&& self@.lines.dom().contains(line_id)
                    &&& self@.lines[line_id].spec_other(point_id) is None
                },
                Err(_) => false,
            },
    {
        match self.line_endpoints(line_id) {
            Some(line) => match line.other(point_id) {
                Some(q) => Ok(q),
                None => Err(GraphError::NotIncident),
            },
            None => Err(GraphError::UnknownLine),
        }
    }

    /// An id no point uses: ids are slot indices and slots are never reused,
    /// so the table's length is always free.
    pub fn fresh_point_id(&self) -> (id: usize)
        ensures
            !self@.points.dom().contains(id),
    {
        self.points.len()
    }

    /// An id no line uses.
    pub fn fresh_line_id(&self) -> (id: usize)
        ensures
            !self@.lines.dom().contains(id),
    {
        self.lines.len()
    }

    /// Some incident line of a point, or nothing when the point has none.
    pub fn first_line(&self, id: usize) -> (r: Option<usize>)
        requires
            self@.points.dom().contains(id),
        ensures
            match r {
                Some(l) => self@.points[id].lines.contains(l),
                None => self@.points[id].lines =~= Set::<usize>::empty(),
            },
    {
        match &self.points[id] {
            Some(point) => {
                if point.lines.len() > 0 {
                    proof {
                        assert(point@.lines.contains(point.lines@[0]));
                    }
                    Some(point.lines[0])
                } else {
                    proof {
                        assert(point@.lines =~= Set::<usize>::empty());
                    }
                    None
                }
            },
            None => None,
        }
    }

    /// A point's incident set is always finite: it models a stored list.
    pub proof fn lemma_point_lines_finite(&self, id: usize)
        requires
            self@.points.dom().contains(id),
        ensures
            self@.points[id].lines.finite(),
    {
        broadcast use vstd::seq_lib::seq_to_set_is_finite;

    }

    /// A snapshot of a point's neighbours: exactly the points some line joins
    /// it to, in no particular order.
    pub fn neighbours_list(&self, id: usize) -> (r: Vec<usize>)
        requires
            self.inv(),
            self@.points.dom().contains(id),
        ensures
            forall|q: usize| #[trigger] r@.contains(q) <==> self@.neighbours(id).contains(q),
    {
        let mut result: Vec<usize> = Vec::new();
        match &self.points[id] {
            Some(point) => {
                let n = point.lines.len();
                let mut k: usize = 0;
                while k < n
                    invariant
                        k <= n,
                        n == point.lines@.len(),
                        self.inv(),
                        self@.points.dom().contains(id),
                        point@ == self@.points[id],
                        point.lines@.to_set() == self@.points[id].lines,
                        forall|q: usize| #[trigger] result@.contains(q) <==> exists|j: int|
                            0 <= j < k && self@.lines.dom().contains(point.lines@[j])
                                && self@.lines[point.lines@[j]].spec_other(id) == Some(q),
                    decreases n - k,
                {
                    let l = point.lines[k];
                    proof {
                        assert(point.lines@.contains(l));
                        assert(self@.points[id].lines.contains(l));
                        assert(self@.lines.dom().contains(l));
                    }
                    let ghost pre = result@;
                    match &self.lines[l] {
                        Some(line) => match line.other(id) {
                            Some(q) => {
                                result.push(q);
                                proof {
                                    lemma_push_to_set(pre, q);
                                    assert(self@.lines[point.lines@[k as int]].spec_other(id)
                                        == Some(q));
                                    assert forall|y: usize|
                                        #[trigger] result@.contains(y) <==> (pre.contains(y) || y
                                            == q) by {
                                        assert(result@.to_set() == pre.to_set().insert(q));
                                        assert(result@.contains(y) == result@.to_set().contains(
                                            y,
                                        ));
                                        assert(pre.contains(y) == pre.to_set().contains(y));
                                    }
                                    assert forall|y: usize| #[trigger] result@.contains(y)
                                        implies exists|j: int|
                                        0 <= j < k + 1 && self@.lines.dom().contains(
                                            point.lines@[j],
                                        ) && self@.lines[point.lines@[j]].spec_other(id) == Some(
                                            y,
                                        ) by {
                                        if pre.contains(y) {
                                            let j = choose|j: int|
                                                0 <= j < k && self@.lines.dom().contains(
                                                    point.lines@[j],
                                                ) && self@.lines[point.lines@[j]].spec_other(id)
                                                    == Some(y);
                                            assert(0 <= j < k + 1);
                                        } else {
                                            assert(y == q);
                                            assert(0 <= k < k + 1);
                                        }
                                    }
                                    assert forall|y: usize, j: int|
                                        #![trigger point.lines@[j], result@.contains(y)]
                                        0 <= j < k + 1 && self@.lines.dom().contains(
                                            point.lines@[j],
                                        ) && self@.lines[point.lines@[j]].spec_other(id) == Some(
                                            y,
                                        ) implies result@.contains(y) by {
                                        if j < k {
                                            assert(pre.contains(y));
                                        } else {
                                            assert(y == q);
                                        }
                                    }
                                }
                            },
                            None => {
                                proof {
                                    assert(false);
                                }
                            },
                        },
                        None => {
                            proof {
                                assert(false);
                            }
                        },
                    }
                    k = k + 1;
                }
                proof {
                    assert forall|q: usize| #[trigger] result@.contains(q)
                        implies self@.neighbours(id).contains(q) by {
                        let j = choose|j: int|
                            0 <= j < n && self@.lines.dom().contains(point.lines@[j])
                                && self@.lines[point.lines@[j]].spec_other(id) == Some(q);
                    }
                    assert forall|q: usize| self@.neighbours(id).contains(q)
                        implies #[trigger] result@.contains(q) by {
                        let l = choose|l: usize|
                            #[trigger] self@.lines.dom().contains(l)
                                && self@.lines[l].spec_other(id) == Some(q);
                        assert(self@.line_ok(l));
                        assert(self@.points[id].lines.contains(l));
                        assert(point.lines@.contains(l));
                        let j = choose|j: int| 0 <= j < point.lines@.len() && point.lines@[j] == l;
                    }
                }
            },
            None => {
                proof {
                    assert(false);
                }
            },
        }
        result
    }

}


/// Pushing a fresh element onto a duplicate-free sequence keeps it
/// duplicate-free.
proof fn lemma_push_keeps_no_duplicates(s: Seq<usize>, x: usize)
    requires
        s.no_duplicates(),
        !s.contains(x),
    ensures
        s.push(x).no_duplicates(),
{
    let p = s.push(x);
    assert forall|j: int, k: int|
        0 <= j < p.len() && 0 <= k < p.len() && j != k implies p[j] != p[k] by {
        if j < s.len() && k < s.len() {
        } else if j < s.len() {
            assert(s[j] == p[j]);
        } else {
            assert(s[k] == p[k]);
        }
    }
}

/// Pushing an element adds exactly that element to the sequence's set of
/// members.
proof fn lemma_push_to_set(s: Seq<usize>, x: usize)
    ensures
        s.push(x).to_set() =~= s.to_set().insert(x),
{
    let p = s.push(x);
    assert forall|y: usize| #[trigger] p.to_set().contains(y)
        implies s.to_set().insert(x).contains(y) by {
        let j = choose|j: int| 0 <= j < p.len() && p[j] == y;
        if j < s.len() {
            assert(s[j] == y);
        } else {
            assert(y == x);
        }
    }
    assert forall|y: usize| #[trigger] s.to_set().insert(x).contains(y)
        implies p.to_set().contains(y) by {
        if y == x {
            assert(p[s.len() as int] == x);
            assert(p.contains(y));
        } else {
            let j = choose|j: int| 0 <= j < s.len() && s[j] == y;
            assert(p[j] == y);
            assert(p.contains(y));
        }
    }
}

/// Removing an index from a duplicate-free sequence keeps it duplicate-free.
proof fn lemma_remove_keeps_no_duplicates(s: Seq<usize>, i: int)
    requires
        s.no_duplicates(),
        0 <= i < s.len(),
    ensures
        s.remove(i).no_duplicates(),
{
    let r = s.remove(i);
    assert forall|j: int, k: int|
        0 <= j < r.len() && 0 <= k < r.len() && j != k implies r[j] != r[k] by {
        let j0 = if j < i { j } else { j + 1 };
        let k0 = if k < i { k } else { k + 1 };
        assert(r[j] == s[j0]);
        assert(r[k] == s[k0]);
    }
}

/// On a duplicate-free sequence, removing an index removes exactly that
/// element from the sequence's set of members.
proof fn lemma_remove_to_set(s: Seq<usize>, i: int)
    requires
        s.no_duplicates(),
        0 <= i < s.len(),
    ensures
        s.remove(i).to_set() =~= s.to_set().remove(s[i]),
{
    let r = s.remove(i);
    assert forall|x: usize| #[trigger] r.to_set().contains(x)
        implies s.to_set().remove(s[i]).contains(x) by {
        let j = choose|j: int| 0 <= j < r.len() && r[j] == x;
        let j0 = if j < i { j } else { j + 1 };
        assert(s[j0] == x);
        assert(x != s[i]);
    }
    assert forall|x: usize| #[trigger] s.to_set().remove(s[i]).contains(x)
        implies r.to_set().contains(x) by {
        let j = choose|j: int| 0 <= j < s.len() && s[j] == x;
        if j < i {
            assert(r[j] == x);
        } else {
            assert(r[j - 1] == x);
        }
        assert(r.contains(x));
    }
}

/// Well-formedness only reads the adjacency shape: it is kept by any change
/// that leaves the line map, the point ids and every incident set as they
/// were (for instance, moving a point).
proof fn lemma_same_shape_wf(g1: GraphView, g2: GraphView)
    requires
        g1.wf(),
        g2.lines == g1.lines,
        g2.points.dom() =~= g1.points.dom(),
        forall|p: usize| #[trigger] g1.points.dom().contains(p) ==> g2.points[p].lines
            == g1.points[p].lines,
    ensures
        g2.wf(),
{
    assert forall|l: usize| #[trigger] g2.lines.dom().contains(l) implies g2.line_ok(l) by {
        assert(g1.line_ok(l));
    }
}

} // verus!
