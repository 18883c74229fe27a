use home_planner::command::Command;
use home_planner::editor::Editor;
use home_planner::geometry::Position;
use home_planner::plan::{PlanMode, PointMode, TrackMode};

fn pos(x: i64, y: i64) -> Position {
    Position { x, y }
}

#[test]
fn create_point_inverts_to_despawn() {
    let mut e = Editor::new();
    e.push(Command::CreatePoint(0, pos(1, 1)));
    e.commit();
    assert!(e.graph().contains_point(0));
    e.undo();
    assert!(!e.graph().contains_point(0));
    e.redo();
    assert_eq!(e.graph().point_position(0), Some(pos(1, 1)));
}

#[test]
fn move_point_inverts_to_move_back() {
    let mut e = Editor::new();
    e.push(Command::CreatePoint(0, pos(1, 1)));
    e.commit();
    e.push(Command::MovePoint(0, pos(9, 9)));
    e.commit();
    e.undo();
    assert_eq!(e.graph().point_position(0), Some(pos(1, 1)));
    e.redo();
    assert_eq!(e.graph().point_position(0), Some(pos(9, 9)));
}

#[test]
fn delete_line_inverts_to_recreate_with_same_endpoints() {
    let mut e = Editor::new();
    e.push(Command::CreatePoint(0, pos(0, 0)));
    e.push(Command::CreatePoint(1, pos(4, 0)));
    e.push(Command::CreateLine(0, 0, 1));
    e.commit();
    e.push(Command::DeleteLine(0));
    e.commit();
    assert!(!e.graph().contains_line(0));
    e.undo();
    let line = e.graph().line_endpoints(0).unwrap();
    assert_eq!((line.point_a, line.point_b), (0, 1));
    assert_eq!(e.graph().neighbour_of(0, 0), Ok(1));
    e.redo();
    assert!(!e.graph().contains_line(0));
}

#[test]
fn despawn_point_inverts_to_recreate_at_old_position() {
    let mut e = Editor::new();
    e.push(Command::CreatePoint(0, pos(3, 4)));
    e.commit();
    e.push(Command::DespawnPoint(0));
    e.commit();
    assert!(!e.graph().contains_point(0));
    e.undo();
    assert_eq!(e.graph().point_position(0), Some(pos(3, 4)));
}

#[test]
fn stale_commands_are_recoverable_no_ops() {
    let mut e = Editor::new();
    e.push(Command::MovePoint(5, pos(1, 1)));
    e.push(Command::DeleteLine(2));
    e.push(Command::DespawnPoint(7));
    assert_eq!(e.uncommitted_len(), 0);
    assert!(!e.graph().contains_point(5));
}

#[test]
fn transaction_groups_commands_between_commits() {
    let mut e = Editor::new();
    e.push(Command::CreatePoint(0, pos(0, 0)));
    e.push(Command::CreatePoint(1, pos(4, 0)));
    e.push(Command::CreateLine(0, 0, 1));
    e.commit();
    e.undo();
    assert!(!e.graph().contains_point(0));
    assert!(!e.graph().contains_point(1));
    assert!(!e.graph().contains_line(0));
    e.redo();
    assert!(e.graph().contains_point(0));
    assert!(e.graph().contains_point(1));
    assert_eq!(e.graph().neighbour_of(0, 1), Ok(0));
}

#[test]
fn undo_and_redo_with_empty_stacks_are_no_ops() {
    let mut e = Editor::new();
    assert!(!e.can_undo());
    assert!(!e.can_redo());
    e.undo();
    e.redo();
    assert!(matches!(e.mode(), PlanMode::Normal));
}

#[test]
fn commit_clears_redo() {
    let mut e = Editor::new();
    e.push(Command::CreatePoint(0, pos(0, 0)));
    e.commit();
    e.undo();
    assert!(e.can_redo());
    e.push(Command::CreatePoint(1, pos(1, 1)));
    e.commit();
    assert!(!e.can_redo());
    assert!(e.can_undo());
}

#[test]
fn cascade_delete_removes_point_and_exactly_its_lines() {
    let mut e = Editor::new();
    // A hub with three neighbours, plus one line between two neighbours.
    for id in 0..4 {
        e.push(Command::CreatePoint(id, pos(id as i64, 0)));
    }
    e.push(Command::CreateLine(0, 0, 1));
    e.push(Command::CreateLine(1, 0, 2));
    e.push(Command::CreateLine(2, 0, 3));
    e.push(Command::CreateLine(3, 1, 2));
    e.commit();
    assert!(e.delete_point(0));
    assert!(!e.graph().contains_point(0));
    for q in 1..4 {
        assert!(e.graph().contains_point(q));
    }
    assert!(!e.graph().contains_line(0));
    assert!(!e.graph().contains_line(1));
    assert!(!e.graph().contains_line(2));
    assert!(e.graph().contains_line(3));
    // Former neighbours no longer list any of the removed ids.
    assert_eq!(e.graph().first_line(3), None);
    let mut nbrs1 = e.graph().neighbours_list(1);
    nbrs1.sort();
    assert_eq!(nbrs1, vec![2]);
    // Deleting a vanished point is refused.
    assert!(!e.delete_point(0));
}

#[test]
fn cascade_delete_is_one_transaction() {
    let mut e = Editor::new();
    for id in 0..3 {
        e.push(Command::CreatePoint(id, pos(id as i64, 0)));
    }
    e.push(Command::CreateLine(0, 0, 1));
    e.push(Command::CreateLine(1, 0, 2));
    e.commit();
    e.delete_point(0);
    e.commit();
    e.undo();
    assert_eq!(e.graph().point_position(0), Some(pos(0, 0)));
    assert_eq!(e.graph().neighbour_of(0, 0), Ok(1));
    assert_eq!(e.graph().neighbour_of(1, 0), Ok(2));
}

#[test]
fn transfer_deduplicates_shared_neighbours() {
    let mut e = Editor::new();
    // A(0) with neighbours {X(1), Y(2)}; B(3) with neighbours {Y(2), Z(4)}.
    for id in 0..5 {
        e.push(Command::CreatePoint(id, pos(id as i64, 0)));
    }
    e.push(Command::CreateLine(0, 0, 1));
    e.push(Command::CreateLine(1, 0, 2));
    e.push(Command::CreateLine(2, 3, 2));
    e.push(Command::CreateLine(3, 3, 4));
    e.commit();
    assert!(e.transfer_point_lines(0, 3));
    // B ends with neighbours exactly {X, Y, Z}; Y is not duplicated.
    let mut nbrs = e.graph().neighbours_list(3);
    nbrs.sort();
    assert_eq!(nbrs, vec![1, 2, 4]);
    // A is left with zero incident lines.
    assert_eq!(e.graph().first_line(0), None);
    assert!(e.graph().contains_point(0));
}

#[test]
fn transfer_drops_direct_line_between_the_two_points() {
    let mut e = Editor::new();
    for id in 0..3 {
        e.push(Command::CreatePoint(id, pos(id as i64, 0)));
    }
    e.push(Command::CreateLine(0, 0, 1));
    e.push(Command::CreateLine(1, 0, 2));
    e.commit();
    assert!(e.transfer_point_lines(0, 1));
    let nbrs = e.graph().neighbours_list(1);
    assert_eq!(nbrs, vec![2]);
    assert_eq!(e.graph().first_line(0), None);
}

#[test]
fn transfer_refuses_missing_or_equal_points() {
    let mut e = Editor::new();
    e.push(Command::CreatePoint(0, pos(0, 0)));
    e.commit();
    assert!(!e.transfer_point_lines(0, 0));
    assert!(!e.transfer_point_lines(0, 9));
    assert!(!e.transfer_point_lines(9, 0));
}

#[test]
fn split_puts_new_point_at_midpoint() {
    let mut e = Editor::new();
    e.push(Command::CreatePoint(0, pos(0, 0)));
    e.push(Command::CreatePoint(1, pos(4, 0)));
    e.push(Command::CreateLine(0, 0, 1));
    e.commit();
    let (new_point, line_a, line_b) = e.split_line(0).unwrap();
    assert_eq!(e.graph().point_position(new_point), Some(pos(2, 0)));
    assert!(!e.graph().contains_line(0));
    assert_ne!(line_a, line_b);
    assert_eq!(e.graph().neighbour_of(line_a, 0), Ok(new_point));
    assert_eq!(e.graph().neighbour_of(line_b, 1), Ok(new_point));
    assert!(e.split_line(0).is_none());
}

#[test]
fn merge_absorbs_one_point_into_another() {
    let mut e = Editor::new();
    for id in 0..4 {
        e.push(Command::CreatePoint(id, pos(id as i64, 0)));
    }
    e.push(Command::CreateLine(0, 0, 1));
    e.push(Command::CreateLine(1, 2, 3));
    e.push(Command::CreateLine(2, 0, 2));
    e.commit();
    assert!(e.merge_points(0, 2));
    assert!(!e.graph().contains_point(0));
    assert!(matches!(e.mode(), PlanMode::Point(2, PointMode::Normal)));
    let mut nbrs = e.graph().neighbours_list(2);
    nbrs.sort();
    assert_eq!(nbrs, vec![1, 3]);
}

#[test]
fn mode_and_undo_walk_back_and_forth_together() {
    // Create a point, extend it, delete the extension, then cross the whole
    // history in both directions.
    let mut e = Editor::new();
    let p1 = e.start_create();
    assert!(matches!(e.mode(), PlanMode::Point(_, PointMode::Track(TrackMode::Create))));
    e.push(Command::MovePoint(p1, pos(1, 1)));
    assert!(e.select_point(p1));
    e.commit();

    let (p2, l) = e.start_extend(p1).unwrap();
    assert!(matches!(e.mode(), PlanMode::Point(_, PointMode::Track(TrackMode::Extend(_)))));
    e.push(Command::MovePoint(p2, pos(5, 5)));
    assert!(e.select_point(p2));
    e.commit();

    e.unselect();
    assert!(e.delete_point(p2));
    e.commit();
    assert!(e.graph().contains_point(p1));
    assert!(!e.graph().contains_point(p2));

    e.undo();
    assert_eq!(e.graph().point_position(p2), Some(pos(5, 5)));
    assert_eq!(e.graph().neighbour_of(l, p1), Ok(p2));
    assert!(matches!(e.mode(), PlanMode::Point(q, PointMode::Normal) if q == p2));
    e.undo();
    assert!(!e.graph().contains_point(p2));
    assert!(!e.graph().contains_line(l));
    assert!(matches!(e.mode(), PlanMode::Point(q, PointMode::Normal) if q == p1));
    e.undo();
    assert!(!e.graph().contains_point(p1));
    assert!(matches!(e.mode(), PlanMode::Normal));
    assert!(!e.can_undo());

    e.redo();
    assert_eq!(e.graph().point_position(p1), Some(pos(1, 1)));
    e.redo();
    assert_eq!(e.graph().point_position(p2), Some(pos(5, 5)));
    assert_eq!(e.graph().neighbour_of(l, p2), Ok(p1));
    e.redo();
    assert!(e.graph().contains_point(p1));
    assert!(!e.graph().contains_point(p2));
    assert!(!e.can_redo());
}

#[test]
fn cancel_of_creation_discards_and_deselects() {
    let mut e = Editor::new();
    let p = e.start_create();
    e.push(Command::MovePoint(p, pos(2, 3)));
    e.cancel_track();
    assert!(!e.graph().contains_point(p));
    assert!(matches!(e.mode(), PlanMode::Normal));
    assert_eq!(e.uncommitted_len(), 0);
}

#[test]
fn cancel_of_move_restores_position_and_reselects() {
    let mut e = Editor::new();
    e.push(Command::CreatePoint(0, pos(1, 1)));
    e.commit();
    assert!(e.start_move(0));
    e.push(Command::MovePoint(0, pos(8, 8)));
    e.push(Command::MovePoint(0, pos(9, 9)));
    e.cancel_track();
    assert_eq!(e.graph().point_position(0), Some(pos(1, 1)));
    assert!(matches!(e.mode(), PlanMode::Point(0, PointMode::Normal)));
}

#[test]
fn cancel_of_extension_reselects_origin() {
    let mut e = Editor::new();
    e.push(Command::CreatePoint(0, pos(0, 0)));
    e.commit();
    let (p2, l) = e.start_extend(0).unwrap();
    e.cancel_track();
    assert!(!e.graph().contains_point(p2));
    assert!(!e.graph().contains_line(l));
    assert!(matches!(e.mode(), PlanMode::Point(0, PointMode::Normal)));
}

#[test]
fn cancel_of_split_restores_and_reselects_line() {
    let mut e = Editor::new();
    e.push(Command::CreatePoint(0, pos(0, 0)));
    e.push(Command::CreatePoint(1, pos(4, 0)));
    e.push(Command::CreateLine(0, 0, 1));
    e.commit();
    let (p, la, lb) = e.start_split(0).unwrap();
    assert!(e.graph().contains_point(p));
    e.cancel_track();
    assert!(!e.graph().contains_point(p));
    assert!(!e.graph().contains_line(la));
    assert!(!e.graph().contains_line(lb));
    assert_eq!(e.graph().neighbour_of(0, 0), Ok(1));
    assert!(matches!(e.mode(), PlanMode::Line(0)));
}

#[test]
fn place_after_move_commits_one_transaction() {
    let mut e = Editor::new();
    e.push(Command::CreatePoint(0, pos(1, 1)));
    e.commit();
    assert!(e.start_move(0));
    e.push(Command::MovePoint(0, pos(6, 6)));
    assert!(e.select_point(0));
    e.commit();
    e.undo();
    assert_eq!(e.graph().point_position(0), Some(pos(1, 1)));
    e.redo();
    assert_eq!(e.graph().point_position(0), Some(pos(6, 6)));
}
