use home_planner::binding::{
    process_binded_commands, process_input, Binding, Bindings, BoundCommand, InputState, KeyCode,
    MouseButton,
};
use home_planner::command::Command;
use home_planner::editor::Editor;
use home_planner::geometry::Position;
use home_planner::plan::{Element, PlanMode, PointMode, TrackMode};

fn pressed(bindings: Vec<Binding>) -> InputState {
    InputState { just_pressed: bindings }
}

fn left() -> Binding {
    Binding::Mouse(MouseButton::Left)
}

fn key(k: KeyCode) -> Binding {
    Binding::Keyboard(k)
}

#[test]
fn normal_mode_offers_select_before_create() {
    let b = Bindings::default();
    let commands = b.bind(PlanMode::Normal, Element::Point(5), false, false);
    assert_eq!(commands.0.len(), 2);
    assert_eq!(commands.0[0].command, BoundCommand::SelectPoint(5));
    assert!(!commands.0[0].should_commit);
    assert_eq!(commands.0[1].command, BoundCommand::Create);
}

#[test]
fn normal_mode_with_no_hover_offers_only_create() {
    let b = Bindings::default();
    let commands = b.bind(PlanMode::Normal, Element::Empty, false, false);
    assert_eq!(commands.0.len(), 1);
    assert_eq!(commands.0[0].command, BoundCommand::Create);
}

#[test]
fn selected_point_offers_full_rule_list() {
    let b = Bindings::default();
    let commands = b.bind(
        PlanMode::Point(3, PointMode::Normal),
        Element::Line(1),
        false,
        false,
    );
    let kinds: Vec<BoundCommand> = commands.0.iter().map(|c| c.command).collect();
    assert_eq!(
        kinds,
        vec![
            BoundCommand::SelectLine(1),
            BoundCommand::Move(3),
            BoundCommand::Extend(3),
            BoundCommand::DeletePoint(3),
            BoundCommand::Unselect,
        ]
    );
    assert!(commands.0[3].should_commit);
}

#[test]
fn tracked_point_over_free_space_offers_place() {
    let b = Bindings::default();
    let commands = b.bind(
        PlanMode::Point(3, PointMode::Track(TrackMode::Move)),
        Element::Empty,
        false,
        false,
    );
    assert_eq!(commands.0[0].command, BoundCommand::Place(3));
    assert!(commands.0[0].should_commit);
    assert_eq!(commands.0[1].command, BoundCommand::Cancel);
}

#[test]
fn tracked_point_over_another_point_offers_merge() {
    let b = Bindings::default();
    let commands = b.bind(
        PlanMode::Point(3, PointMode::Track(TrackMode::Move)),
        Element::Point(8),
        false,
        false,
    );
    assert_eq!(commands.0[0].command, BoundCommand::Merge(3, 8));
    assert!(commands.0[0].should_commit);
}

#[test]
fn fresh_creation_over_a_point_cancels_instead_of_merging() {
    let b = Bindings::default();
    let commands = b.bind(
        PlanMode::Point(3, PointMode::Track(TrackMode::Create)),
        Element::Point(8),
        false,
        false,
    );
    assert_eq!(commands.0[0].command, BoundCommand::Cancel);
    assert!(!commands.0[0].should_commit);
}

#[test]
fn extension_back_onto_its_origin_cancels() {
    let b = Bindings::default();
    let over_origin = b.bind(
        PlanMode::Point(3, PointMode::Track(TrackMode::Extend(7))),
        Element::Point(7),
        false,
        false,
    );
    assert_eq!(over_origin.0[0].command, BoundCommand::Cancel);
    let over_other = b.bind(
        PlanMode::Point(3, PointMode::Track(TrackMode::Extend(7))),
        Element::Point(8),
        false,
        false,
    );
    assert_eq!(over_other.0[0].command, BoundCommand::Merge(3, 8));
}

#[test]
fn selected_line_offers_split_and_delete() {
    let b = Bindings::default();
    let commands = b.bind(PlanMode::Line(2), Element::Empty, false, false);
    let kinds: Vec<BoundCommand> = commands.0.iter().map(|c| c.command).collect();
    assert_eq!(
        kinds,
        vec![
            BoundCommand::Unselect,
            BoundCommand::Split(2),
            BoundCommand::DeleteLine(2),
            BoundCommand::Unselect,
        ]
    );
}

#[test]
fn undo_and_redo_appear_only_when_available() {
    let b = Bindings::default();
    let none = b.bind(PlanMode::Normal, Element::Empty, false, false);
    assert_eq!(none.0.len(), 1);
    let both = b.bind(PlanMode::Normal, Element::Empty, true, true);
    assert_eq!(both.0.len(), 3);
    assert_eq!(both.0[1].command, BoundCommand::Undo);
    assert_eq!(both.0[2].command, BoundCommand::Redo);
}

#[test]
fn first_triggered_rule_wins() {
    let b = Bindings::default();
    let commands = b.bind(PlanMode::Point(3, PointMode::Normal), Element::Point(5), false, false);
    // Both select (left mouse) and extend (E) are pressed: select is offered
    // first and wins.
    let hit = process_binded_commands(&commands, &pressed(vec![left(), key(KeyCode::E)]));
    assert_eq!(hit.unwrap().command, BoundCommand::SelectPoint(5));
    // Nothing pressed: nothing fires.
    assert!(process_binded_commands(&commands, &pressed(vec![])).is_none());
    // Only delete pressed.
    let hit = process_binded_commands(&commands, &pressed(vec![key(KeyCode::Delete)]));
    assert_eq!(hit.unwrap().command, BoundCommand::DeletePoint(3));
}

#[test]
fn command_labels_name_the_actions() {
    assert_eq!(BoundCommand::Create.label(), "Create");
    assert_eq!(BoundCommand::Merge(0, 1).label(), "Merge");
    assert_eq!(BoundCommand::Undo.label(), "Undo");
}

#[test]
fn ticks_drive_a_create_place_delete_session() {
    let b = Bindings::default();
    let mut e = Editor::new();
    // E over free space: create a tracked point.
    process_input(&mut e, &b, Element::Empty, &pressed(vec![key(KeyCode::E)]));
    let p = match e.mode() {
        PlanMode::Point(p, PointMode::Track(TrackMode::Create)) => p,
        m => panic!("expected tracking after create, got {:?}", m),
    };
    // Drag it, then place it with the left button: one committed transaction.
    e.push(Command::MovePoint(p, Position { x: 2, y: 1 }));
    process_input(&mut e, &b, Element::Empty, &pressed(vec![left()]));
    assert!(matches!(e.mode(), PlanMode::Point(_, PointMode::Normal)));
    assert!(e.can_undo());
    assert_eq!(e.graph().point_position(p), Some(Position { x: 2, y: 1 }));
    // Delete it while selected: back to an empty plan.
    process_input(&mut e, &b, Element::Empty, &pressed(vec![key(KeyCode::Delete)]));
    assert!(!e.graph().contains_point(p));
    assert!(matches!(e.mode(), PlanMode::Normal));
    // U undoes the deletion, R redoes it.
    process_input(&mut e, &b, Element::Empty, &pressed(vec![key(KeyCode::U)]));
    assert!(e.graph().contains_point(p));
    process_input(&mut e, &b, Element::Empty, &pressed(vec![key(KeyCode::R)]));
    assert!(!e.graph().contains_point(p));
}

#[test]
fn tick_with_nothing_pressed_changes_nothing() {
    let b = Bindings::default();
    let mut e = Editor::new();
    process_input(&mut e, &b, Element::Empty, &pressed(vec![]));
    assert!(matches!(e.mode(), PlanMode::Normal));
    assert!(!e.can_undo());
}

#[test]
fn merge_tick_joins_two_points() {
    let b = Bindings::default();
    let mut e = Editor::new();
    e.push(Command::CreatePoint(0, Position { x: 0, y: 0 }));
    e.push(Command::CreatePoint(1, Position { x: 4, y: 0 }));
    e.commit();
    assert!(e.select_point(0));
    // G grabs the selected point.
    process_input(&mut e, &b, Element::Empty, &pressed(vec![key(KeyCode::G)]));
    assert!(matches!(e.mode(), PlanMode::Point(0, PointMode::Track(TrackMode::Move))));
    // Left over the other point merges into it and commits.
    process_input(&mut e, &b, Element::Point(1), &pressed(vec![left()]));
    assert!(!e.graph().contains_point(0));
    assert!(matches!(e.mode(), PlanMode::Point(1, PointMode::Normal)));
    assert_eq!(e.uncommitted_len(), 0);
    assert!(e.can_undo());
}

#[test]
fn no_mode_binds_one_input_to_two_rules() {
    let b = Bindings::default();
    let modes = vec![
        PlanMode::Normal,
        PlanMode::Point(1, PointMode::Normal),
        PlanMode::Point(1, PointMode::Track(TrackMode::Create)),
        PlanMode::Point(1, PointMode::Track(TrackMode::Move)),
        PlanMode::Point(1, PointMode::Track(TrackMode::Extend(2))),
        PlanMode::Point(1, PointMode::Track(TrackMode::Split(0))),
        PlanMode::Line(0),
    ];
    let hovers = vec![Element::Empty, Element::Point(2), Element::Point(1), Element::Line(0)];
    for mode in &modes {
        for hover in &hovers {
            let commands = b.bind(*mode, *hover, true, true);
            for i in 0..commands.0.len() {
                for j in (i + 1)..commands.0.len() {
                    assert_ne!(
                        commands.0[i].binding, commands.0[j].binding,
                        "two rules on one input in {:?} over {:?}",
                        mode, hover
                    );
                }
            }
        }
    }
}
