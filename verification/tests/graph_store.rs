use home_planner::geometry::Position;
use home_planner::graph::{Graph, GraphError, Line};

fn pos(x: i64, y: i64) -> Position {
    Position { x, y }
}

#[test]
fn midpoint_of_horizontal_segment() {
    assert_eq!(pos(0, 0).midpoint(&pos(4, 0)), pos(2, 0));
}

#[test]
fn midpoint_rounds_toward_lesser_coordinate() {
    assert_eq!(pos(0, 0).midpoint(&pos(3, 3)), pos(1, 1));
    assert_eq!(pos(3, 3).midpoint(&pos(0, 0)), pos(1, 1));
}

#[test]
fn midpoint_with_negative_coordinates() {
    assert_eq!(pos(-3, 1).midpoint(&pos(0, 2)), pos(-2, 1));
    assert_eq!(pos(-4, -4).midpoint(&pos(4, 4)), pos(0, 0));
}

#[test]
fn midpoint_is_symmetric_at_extremes() {
    let a = pos(i64::MIN, i64::MAX);
    let b = pos(i64::MAX, i64::MIN);
    assert_eq!(a.midpoint(&b), b.midpoint(&a));
}

#[test]
fn create_point_then_query() {
    let mut g = Graph::new();
    assert!(g.create_point(0, pos(1, 2)).is_ok());
    assert!(g.contains_point(0));
    assert_eq!(g.point_position(0), Some(pos(1, 2)));
    assert!(!g.contains_point(1));
    assert_eq!(g.point_position(1), None);
}

#[test]
fn create_point_refuses_id_in_use() {
    let mut g = Graph::new();
    assert!(g.create_point(0, pos(0, 0)).is_ok());
    assert_eq!(g.create_point(0, pos(5, 5)), Err(GraphError::PointIdInUse));
    assert_eq!(g.point_position(0), Some(pos(0, 0)));
}

#[test]
fn move_point_returns_old_position() {
    let mut g = Graph::new();
    g.create_point(0, pos(1, 1)).unwrap();
    assert_eq!(g.move_point(0, pos(7, 8)), Ok(pos(1, 1)));
    assert_eq!(g.point_position(0), Some(pos(7, 8)));
    assert_eq!(g.move_point(9, pos(0, 0)), Err(GraphError::UnknownPoint));
}

#[test]
fn despawn_point_refuses_incident_lines() {
    let mut g = Graph::new();
    g.create_point(0, pos(0, 0)).unwrap();
    g.create_point(1, pos(1, 0)).unwrap();
    g.create_line(0, 0, 1).unwrap();
    assert_eq!(g.despawn_point(0), Err(GraphError::PointHasLines));
    g.delete_line(0).unwrap();
    assert_eq!(g.despawn_point(0), Ok(pos(0, 0)));
    assert!(!g.contains_point(0));
    assert_eq!(g.despawn_point(0), Err(GraphError::UnknownPoint));
}

#[test]
fn create_line_refuses_self_loop_and_missing_endpoints() {
    let mut g = Graph::new();
    g.create_point(0, pos(0, 0)).unwrap();
    assert_eq!(g.create_line(0, 0, 0), Err(GraphError::SelfLoop));
    assert_eq!(g.create_line(0, 0, 1), Err(GraphError::UnknownPoint));
    g.create_point(1, pos(1, 0)).unwrap();
    assert!(g.create_line(0, 0, 1).is_ok());
    assert_eq!(g.create_line(0, 1, 0), Err(GraphError::LineIdInUse));
}

#[test]
fn delete_line_detaches_both_endpoints() {
    let mut g = Graph::new();
    g.create_point(0, pos(0, 0)).unwrap();
    g.create_point(1, pos(1, 0)).unwrap();
    g.create_line(0, 0, 1).unwrap();
    assert_eq!(g.first_line(0), Some(0));
    assert_eq!(g.first_line(1), Some(0));
    let line = g.delete_line(0).unwrap();
    assert_eq!(line, Line { point_a: 0, point_b: 1 });
    assert!(!g.contains_line(0));
    assert_eq!(g.first_line(0), None);
    assert_eq!(g.first_line(1), None);
    assert_eq!(g.delete_line(0), Err(GraphError::UnknownLine));
}

#[test]
fn neighbour_of_walks_a_line_from_either_end() {
    let mut g = Graph::new();
    g.create_point(0, pos(0, 0)).unwrap();
    g.create_point(1, pos(1, 0)).unwrap();
    g.create_point(2, pos(2, 0)).unwrap();
    g.create_line(0, 0, 1).unwrap();
    assert_eq!(g.neighbour_of(0, 0), Ok(1));
    assert_eq!(g.neighbour_of(0, 1), Ok(0));
    assert_eq!(g.neighbour_of(0, 2), Err(GraphError::NotIncident));
    assert_eq!(g.neighbour_of(3, 0), Err(GraphError::UnknownLine));
}

#[test]
fn line_other_mirrors_neighbour_query() {
    let line = Line { point_a: 4, point_b: 9 };
    assert_eq!(line.other(4), Some(9));
    assert_eq!(line.other(9), Some(4));
    assert_eq!(line.other(5), None);
}

#[test]
fn neighbours_list_collects_all_adjacent_points() {
    let mut g = Graph::new();
    for id in 0..4 {
        g.create_point(id, pos(id as i64, 0)).unwrap();
    }
    g.create_line(0, 0, 1).unwrap();
    g.create_line(1, 0, 2).unwrap();
    let mut nbrs = g.neighbours_list(0);
    nbrs.sort();
    assert_eq!(nbrs, vec![1, 2]);
    assert_eq!(g.neighbours_list(3), Vec::<usize>::new());
}

#[test]
fn fresh_ids_never_collide_with_live_entities() {
    let mut g = Graph::new();
    let p0 = g.fresh_point_id();
    g.create_point(p0, pos(0, 0)).unwrap();
    let p1 = g.fresh_point_id();
    assert_ne!(p0, p1);
    g.create_point(p1, pos(1, 0)).unwrap();
    let l0 = g.fresh_line_id();
    g.create_line(l0, p0, p1).unwrap();
    assert_ne!(g.fresh_line_id(), l0);
}

#[test]
fn point_remove_line_keeps_the_rest_in_order() {
    let mut g = Graph::new();
    for id in 0..4 {
        g.create_point(id, pos(id as i64, 0)).unwrap();
    }
    g.create_line(0, 0, 1).unwrap();
    g.create_line(1, 0, 2).unwrap();
    g.create_line(2, 0, 3).unwrap();
    g.delete_line(1).unwrap();
    assert_eq!(g.first_line(0), Some(0));
    let mut nbrs = g.neighbours_list(0);
    nbrs.sort();
    assert_eq!(nbrs, vec![1, 3]);
}
