use behavior_tree::blackboard::Blackboard;
use behavior_tree::node::Action;
use behavior_tree::node::ActionMap;
use behavior_tree::node::Condition;
use behavior_tree::node::ConditionMap;
use behavior_tree::node::Node;
use behavior_tree::node::NodeType;
use behavior_tree::node::Predicate;
use behavior_tree::node::Routine;
use behavior_tree::node::Status;

#[test]
fn test_blackboard_set_get() {
    let mut blackboard = Blackboard::new();
    assert_eq!(blackboard.get(1), None);
    assert!(!blackboard.contains(1));

    blackboard.set(1, -5);
    assert_eq!(blackboard.get(1), Some(-5));
    assert!(blackboard.contains(1));

    blackboard.set(1, 9);
    assert_eq!(blackboard.get(1), Some(9));

    blackboard.set(2, 0);
    assert_eq!(blackboard.get(1), Some(9));
    assert_eq!(blackboard.get(2), Some(0));
}

#[test]
fn test_node_new_has_no_children() {
    let node = Node::new(3, NodeType::Sequence);
    assert_eq!(node.id, 3);
    assert_eq!(node.node_type, NodeType::Sequence);
    assert!(node.children.is_empty());
}

#[test]
fn test_condition_predicates() {
    let mut blackboard = Blackboard::new();
    blackboard.set(1, 10);

    assert!(Condition::new(Predicate::Always(true)).evaluate(&blackboard));
    assert!(!Condition::new(Predicate::Always(false)).evaluate(&blackboard));

    assert!(Condition::new(Predicate::Has(1)).evaluate(&blackboard));
    assert!(!Condition::new(Predicate::Has(2)).evaluate(&blackboard));

    assert!(Condition::new(Predicate::Equals(1, 10)).evaluate(&blackboard));
    assert!(!Condition::new(Predicate::Equals(1, 11)).evaluate(&blackboard));
    assert!(!Condition::new(Predicate::Equals(2, 10)).evaluate(&blackboard));

    assert!(Condition::new(Predicate::AtLeast(1, 10)).evaluate(&blackboard));
    assert!(Condition::new(Predicate::AtLeast(1, -3)).evaluate(&blackboard));
    assert!(!Condition::new(Predicate::AtLeast(1, 11)).evaluate(&blackboard));
    assert!(!Condition::new(Predicate::AtLeast(2, 0)).evaluate(&blackboard));
}

#[test]
fn test_condition_map_last_registration_wins() {
    let mut condition_map = ConditionMap::new();
    condition_map.add_condition(1, Condition::new(Predicate::Always(true)));
    condition_map.add_condition(1, Condition::new(Predicate::Always(false)));

    let blackboard = Blackboard::new();
    assert!(!condition_map.get_condition(1).evaluate(&blackboard));
}

#[test]
fn test_action_map_last_registration_wins() {
    let mut action_map = ActionMap::new();
    action_map.add_action(1, Action::new(Routine::Finish(Status::Success)));
    action_map.add_action(1, Action::new(Routine::Finish(Status::Failure)));

    let mut blackboard = Blackboard::new();
    let status = action_map.get_action(1).execute(&mut blackboard);
    assert_eq!(status, Status::Failure);
}

#[test]
fn test_action_store_overwrites() {
    let mut blackboard = Blackboard::new();
    blackboard.set(3, 1);

    let mut action = Action::new(Routine::Store(3, 2));
    let status = action.execute(&mut blackboard);

    assert_eq!(status, Status::Success);
    assert_eq!(blackboard.get(3), Some(2));
}

#[test]
fn test_action_bump_from_absent_key() {
    let mut blackboard = Blackboard::new();
    let mut action = Action::new(Routine::Bump(3));

    assert_eq!(action.execute(&mut blackboard), Status::Success);
    assert_eq!(blackboard.get(3), Some(1));
    assert_eq!(action.execute(&mut blackboard), Status::Success);
    assert_eq!(blackboard.get(3), Some(2));
}

#[test]
fn test_action_bump_saturates() {
    let mut blackboard = Blackboard::new();
    blackboard.set(3, i64::MAX);

    let mut action = Action::new(Routine::Bump(3));
    let status = action.execute(&mut blackboard);

    assert_eq!(status, Status::Success);
    assert_eq!(blackboard.get(3), Some(i64::MAX));
}

#[test]
fn test_action_countdown_zero_succeeds_at_once() {
    let mut blackboard = Blackboard::new();
    let mut action = Action::new(Routine::Countdown(0));

    assert_eq!(action.execute(&mut blackboard), Status::Success);
    assert_eq!(action.routine, Routine::Countdown(0));
}

#[test]
fn test_action_countdown_counts_down() {
    let mut blackboard = Blackboard::new();
    let mut action = Action::new(Routine::Countdown(2));

    assert_eq!(action.execute(&mut blackboard), Status::Running);
    assert_eq!(action.routine, Routine::Countdown(1));
    assert_eq!(action.execute(&mut blackboard), Status::Running);
    assert_eq!(action.routine, Routine::Countdown(0));
    assert_eq!(action.execute(&mut blackboard), Status::Success);
}

#[test]
fn test_action_map_hands_out_mutable_state() {
    let mut action_map = ActionMap::new();
    action_map.add_action(6, Action::new(Routine::Countdown(1)));

    let mut blackboard = Blackboard::new();
    assert_eq!(
        action_map.get_action(6).execute(&mut blackboard),
        Status::Running
    );
    // The countdown stored in the map ticked down, so the next call succeeds.
    assert_eq!(
        action_map.get_action(6).execute(&mut blackboard),
        Status::Success
    );
}
