use purrgress::cat_stage_manager::manager::StageManager;
use purrgress::cat_stage_manager::stage_graph::StageGraph;
use purrgress::condition::{InstantCondition, PurrCondition, PurrFlag};
use purrgress::types::{DuplicatePolicy, InsertPosition, PurrEvent, PurrStep};

#[derive(Debug, Clone, Copy, PartialEq, Eq, Hash)]
enum MyStage {
    Idle,
    Walk,
    Run,
    Jump,
}

impl PurrStep for MyStage {}

/// A condition for the tests: done at once, a flag, or done after a number
/// of asks (rewound by `reset`).
#[derive(Debug, Clone, Copy, PartialEq, Eq)]
enum Cond {
    Instant,
    Flag(PurrFlag),
    Countdown { left: u32, start: u32 },
}

impl PurrCondition for Cond {
    fn is_finished(&mut self) -> bool {
        match self {
            Cond::Instant => true,
            Cond::Flag(flag) => flag.is_finished(),
            Cond::Countdown { left, .. } => {
                if *left == 0 {
                    true
                } else {
                    *left -= 1;
                    false
                }
            }
        }
    }

    fn reset(&mut self) {
        match self {
            Cond::Instant => {}
            Cond::Flag(flag) => flag.reset(),
            Cond::Countdown { left, start } => *left = *start,
        }
    }
}

impl From<InstantCondition> for Cond {
    fn from(_: InstantCondition) -> Self {
        Cond::Instant
    }
}

fn idle_walk() -> StageManager<MyStage, Cond> {
    let mut cat_manager = StageManager::new();
    cat_manager.add_to_graph(MyStage::Idle);
    cat_manager.add_to_graph(MyStage::Walk);
    cat_manager.add_dependency(MyStage::Idle, MyStage::Walk);
    cat_manager
}

fn queue(m: &StageManager<MyStage, Cond>) -> Vec<MyStage> {
    m.current_vec_query().to_vec()
}

#[test]
fn push_follows_dependencies() {
    let mut cat_manager = idle_walk();
    cat_manager.push(MyStage::Walk, DuplicatePolicy::KeepAll);
    assert_eq!(queue(&cat_manager), vec![MyStage::Idle, MyStage::Walk]);
}

#[test]
fn push_and_delete_replaces_the_queue() {
    let mut cat_manager = idle_walk();
    cat_manager.push(MyStage::Walk, DuplicatePolicy::KeepAll);
    cat_manager.push_and_delete(MyStage::Idle);
    assert_eq!(queue(&cat_manager), vec![MyStage::Idle]);
}

#[test]
fn insert_at_index() {
    let mut cat_manager = idle_walk();
    cat_manager.push(MyStage::Walk, DuplicatePolicy::KeepAll);
    cat_manager.insert(MyStage::Walk, DuplicatePolicy::KeepAll, InsertPosition::Index(1));
    assert_eq!(queue(&cat_manager), vec![MyStage::Idle, MyStage::Idle, MyStage::Walk, MyStage::Walk]);
}

#[test]
fn insert_forward_and_past_the_end() {
    let mut cat_manager = idle_walk();
    cat_manager.add_to_graph(MyStage::Run);
    cat_manager.push(MyStage::Run, DuplicatePolicy::KeepAll);
    cat_manager.insert(MyStage::Walk, DuplicatePolicy::KeepAll, InsertPosition::Forward);
    assert_eq!(queue(&cat_manager), vec![MyStage::Idle, MyStage::Walk, MyStage::Run]);

    let mut pushed = idle_walk();
    pushed.add_to_graph(MyStage::Run);
    pushed.push(MyStage::Run, DuplicatePolicy::KeepAll);
    pushed.push(MyStage::Walk, DuplicatePolicy::KeepAll);
    let mut inserted = idle_walk();
    inserted.add_to_graph(MyStage::Run);
    inserted.push(MyStage::Run, DuplicatePolicy::KeepAll);
    inserted.insert(MyStage::Walk, DuplicatePolicy::KeepAll, InsertPosition::Index(99));
    assert_eq!(queue(&pushed), queue(&inserted));
}

#[test]
fn remove_match_drops_a_repeated_seam() {
    let mut cat_manager = idle_walk();
    cat_manager.push(MyStage::Idle, DuplicatePolicy::KeepAll);
    cat_manager.push(MyStage::Walk, DuplicatePolicy::RemoveMatch);
    assert_eq!(queue(&cat_manager), vec![MyStage::Idle, MyStage::Walk]);
    cat_manager.push(MyStage::Walk, DuplicatePolicy::RemoveMatch);
    assert_eq!(queue(&cat_manager), vec![MyStage::Idle, MyStage::Walk, MyStage::Idle, MyStage::Walk]);
    // The check looks at the queue's last stage, wherever the chain goes.
    cat_manager.insert(MyStage::Walk, DuplicatePolicy::RemoveMatch, InsertPosition::Forward);
    assert_eq!(
        queue(&cat_manager),
        vec![MyStage::Idle, MyStage::Walk, MyStage::Idle, MyStage::Walk, MyStage::Idle, MyStage::Walk]
    );
}

#[test]
fn pushing_an_unknown_stage_queues_nothing() {
    let mut cat_manager = idle_walk();
    cat_manager.push(MyStage::Jump, DuplicatePolicy::KeepAll);
    assert!(cat_manager.query_is_empty());
}

#[test]
fn deep_dependencies_come_first() {
    let mut cat_manager: StageManager<MyStage, Cond> = StageManager::default();
    cat_manager.add_to_graph(MyStage::Idle);
    cat_manager.add_to_graph(MyStage::Walk);
    cat_manager.add_to_graph(MyStage::Run);
    cat_manager.add_dependency(MyStage::Idle, MyStage::Walk);
    cat_manager.add_dependency(MyStage::Walk, MyStage::Run);
    // An edge that is already there, and one to an unknown stage, change nothing.
    cat_manager.add_dependency(MyStage::Walk, MyStage::Run);
    cat_manager.add_dependency(MyStage::Jump, MyStage::Run);
    cat_manager.push(MyStage::Run, DuplicatePolicy::KeepAll);
    assert_eq!(queue(&cat_manager), vec![MyStage::Idle, MyStage::Walk, MyStage::Run]);
    assert_eq!(cat_manager.first_vec_query(), Some(&MyStage::Idle));
    assert_eq!(cat_manager.next_vec_query(), Some(&MyStage::Walk));
    assert_eq!(cat_manager.last_vec_query(), Some(&MyStage::Run));
    assert_eq!(cat_manager.len_vec_query(), 3);
    assert!(cat_manager.contains_stage(&MyStage::Walk));
    assert!(!cat_manager.contains_stage(&MyStage::Jump));
    cat_manager.clear_query();
    assert!(cat_manager.query_is_empty());
    assert_eq!(cat_manager.first_vec_query(), None);
    assert_eq!(cat_manager.next_vec_query(), None);
    assert_eq!(cat_manager.last_vec_query(), None);
}

#[test]
fn stage_graph_dependencies() {
    let graph = StageGraph::new()
        .with_stage(MyStage::Idle)
        .with_stage(MyStage::Walk)
        .with_stage(MyStage::Run)
        .with_edge(MyStage::Idle, MyStage::Run)
        .with_edge(MyStage::Walk, MyStage::Run);
    assert!(graph.contains(&MyStage::Walk));
    assert!(!graph.contains(&MyStage::Jump));
    let deps = graph.calculate_dependencies(MyStage::Run);
    assert_eq!(deps.len(), 3);
    assert_eq!(deps[2], MyStage::Run);
    assert!(deps.contains(&MyStage::Idle));
    assert!(deps.contains(&MyStage::Walk));
    assert!(graph.calculate_dependencies(MyStage::Jump).is_empty());
    assert_eq!(graph.calculate_dependencies(MyStage::Idle), vec![MyStage::Idle]);
}

#[test]
fn update_walks_the_queue() {
    let mut cat_manager = idle_walk();
    cat_manager.add_to_graph(MyStage::Run);
    assert_eq!(cat_manager.update(), PurrEvent::Idle);
    cat_manager.set_condition(MyStage::Walk, Cond::Countdown { left: 1, start: 1 });
    cat_manager.push(MyStage::Walk, DuplicatePolicy::KeepAll);
    assert_eq!(
        cat_manager.update(),
        PurrEvent::Transition { from: MyStage::Idle, to: Some(MyStage::Walk) }
    );
    assert_eq!(cat_manager.update(), PurrEvent::Running(MyStage::Walk));
    assert_eq!(cat_manager.get_condition(MyStage::Walk), Some(&Cond::Countdown { left: 0, start: 1 }));
    assert_eq!(
        cat_manager.update(),
        PurrEvent::Transition { from: MyStage::Walk, to: None }
    );
    assert!(cat_manager.query_is_empty());
    assert_eq!(cat_manager.update(), PurrEvent::Idle);
}

#[test]
fn update_resets_the_next_condition() {
    let mut cat_manager = idle_walk();
    cat_manager.set_condition(MyStage::Walk, Cond::Countdown { left: 0, start: 2 });
    cat_manager.push(MyStage::Walk, DuplicatePolicy::KeepAll);
    cat_manager.update();
    assert_eq!(cat_manager.get_condition(MyStage::Walk), Some(&Cond::Countdown { left: 2, start: 2 }));
}

#[test]
fn conditions_are_set_and_changed_in_place() {
    let mut cat_manager: StageManager<MyStage, Cond> = StageManager::new();
    cat_manager.add_to_graph(MyStage::Jump);
    assert_eq!(cat_manager.get_condition(MyStage::Jump), Some(&Cond::Instant));
    assert_eq!(cat_manager.get_condition(MyStage::Run), None);
    assert!(cat_manager.get_condition_mut(MyStage::Run).is_none());
    cat_manager.set_condition(MyStage::Jump, Cond::Flag(PurrFlag::new()));
    // Registering again keeps the condition.
    cat_manager.add_to_graph(MyStage::Jump);
    assert_eq!(cat_manager.get_condition(MyStage::Jump), Some(&Cond::Flag(PurrFlag::new())));
    cat_manager.push(MyStage::Jump, DuplicatePolicy::KeepAll);
    assert_eq!(cat_manager.update(), PurrEvent::Running(MyStage::Jump));
    if let Some(Cond::Flag(flag)) = cat_manager.get_condition_mut(MyStage::Jump) {
        flag.reverse_flag();
    }
    assert_eq!(cat_manager.update(), PurrEvent::Transition { from: MyStage::Jump, to: None });
}

#[test]
fn sub_managers_take_the_smallest_free_index() {
    let mut main: StageManager<MyStage, Cond> = StageManager::new();
    main.add_to_graph(MyStage::Idle);
    assert_eq!(main.register_sub_manager(StageManager::new()), 0);
    assert_eq!(main.register_sub_manager(idle_walk()), 1);
    assert_eq!(main.register_sub_manager(StageManager::new()), 2);
    assert!(main.remove_sub_manager(1));
    assert!(!main.remove_sub_manager(1));
    assert!(main.get_sub_manager(1).is_none());
    assert_eq!(main.register_sub_manager(idle_walk()), 1);
    main.get_sub_manager_mut(1).unwrap().push(MyStage::Walk, DuplicatePolicy::KeepAll);
    assert_eq!(main.get_sub_manager(1).unwrap().len_vec_query(), 2);
    let taken = main.remove_sub_manager_get(1).unwrap();
    assert_eq!(queue(&taken), vec![MyStage::Idle, MyStage::Walk]);
    assert!(main.remove_sub_manager_get(1).is_none());
    assert!(main.get_sub_manager(0).is_some());
}

#[test]
fn sub_manager_is_first_needs_a_queue() {
    let mut main: StageManager<MyStage, Cond> = StageManager::new();
    assert!(!main.sub_manager_is_first(0, 0));
    main.add_to_graph(MyStage::Idle);
    main.push(MyStage::Idle, DuplicatePolicy::KeepAll);
    assert!(main.sub_manager_is_first(2, 2));
    assert!(!main.sub_manager_is_first(1, 2));
}

#[test]
fn flag_condition() {
    let mut flag = PurrFlag::default();
    assert!(!flag.get_flag());
    assert!(!flag.is_finished());
    flag.reverse_flag();
    assert!(flag.get_flag());
    assert!(flag.is_finished());
    flag.reset();
    assert!(!flag.get_flag());
    flag.set_flag(true);
    flag.reverse_flag();
    flag.reverse_flag();
    assert!(flag.get_flag());
    let mut instant = InstantCondition;
    assert!(instant.is_finished());
}

#[test]
fn single_instant_stage_finishes_at_once() {
    let mut cat_manager: StageManager<MyStage, Cond> = StageManager::new();
    cat_manager.add_to_graph(MyStage::Idle);
    cat_manager.push(MyStage::Idle, DuplicatePolicy::KeepAll);
    assert_eq!(cat_manager.update(), PurrEvent::Transition { from: MyStage::Idle, to: None });
    assert!(cat_manager.current_vec_query().is_empty());
}

#[test]
fn update_with_steps_on_the_answer() {
    let mut cat_manager = idle_walk();
    cat_manager.set_condition(MyStage::Walk, Cond::Countdown { left: 0, start: 4 });
    cat_manager.push(MyStage::Walk, DuplicatePolicy::KeepAll);
    assert_eq!(cat_manager.update_with(false), PurrEvent::Running(MyStage::Idle));
    assert_eq!(queue(&cat_manager), vec![MyStage::Idle, MyStage::Walk]);
    assert_eq!(
        cat_manager.update_with(true),
        PurrEvent::Transition { from: MyStage::Idle, to: Some(MyStage::Walk) }
    );
    assert_eq!(queue(&cat_manager), vec![MyStage::Walk]);
    assert_eq!(cat_manager.get_condition(MyStage::Walk), Some(&Cond::Countdown { left: 4, start: 4 }));
    assert_eq!(cat_manager.update_with(true), PurrEvent::Transition { from: MyStage::Walk, to: None });
    assert_eq!(cat_manager.update_with(true), PurrEvent::Idle);
}
