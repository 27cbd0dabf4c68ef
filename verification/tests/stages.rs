use purrgress::cat_motion_blur::pandemonium_types::PurrFrameStage;
use purrgress::cat_stage_manager::manager::StageManager;
use purrgress::condition::{InstantCondition, PurrCondition};
use purrgress::types::{DuplicatePolicy, PurrChainStep, PurrEvent, RumblePolicy};

#[derive(Debug)]
struct Always;

impl PurrCondition for Always {
    fn is_finished(&mut self) -> bool {
        true
    }

    fn reset(&mut self) {}
}

impl From<InstantCondition> for Always {
    fn from(_: InstantCondition) -> Self {
        Always
    }
}

#[test]
fn frame_stages_drive_a_manager() {
    let mut m: StageManager<PurrFrameStage, Always> = StageManager::new();
    m.add_to_graph(PurrFrameStage::Frame(0));
    m.add_to_graph(PurrFrameStage::Frame(1));
    m.add_to_graph(PurrFrameStage::PurrChain(0));
    m.add_dependency(PurrFrameStage::Frame(0), PurrFrameStage::Frame(1));
    m.push(PurrFrameStage::Frame(1), DuplicatePolicy::KeepAll);
    assert_eq!(m.current_vec_query(), &[PurrFrameStage::Frame(0), PurrFrameStage::Frame(1)]);
    assert_eq!(
        m.update(),
        PurrEvent::Transition { from: PurrFrameStage::Frame(0), to: Some(PurrFrameStage::Frame(1)) }
    );
    assert_ne!(PurrFrameStage::Frame(0), PurrFrameStage::PurrChain(0));
}

/// Finished after a number of asks.
#[derive(Debug, Clone, Copy, PartialEq, Eq)]
enum Ticks {
    Now,
    After(u32),
}

impl PurrCondition for Ticks {
    fn is_finished(&mut self) -> bool {
        match self {
            Ticks::Now => true,
            Ticks::After(0) => true,
            Ticks::After(n) => {
                *n -= 1;
                false
            }
        }
    }

    fn reset(&mut self) {}
}

impl From<InstantCondition> for Ticks {
    fn from(_: InstantCondition) -> Self {
        Ticks::Now
    }
}


fn frames(main: &mut StageManager<PurrFrameStage, Ticks>) -> PurrFrameStage {
    main.new_purr_chain(vec![
        (PurrFrameStage::Frame(0), None),
        (PurrFrameStage::Frame(1), Some(Ticks::After(1))),
        (PurrFrameStage::Frame(2), None),
    ])
}

#[test]
fn new_purr_chain_builds_and_registers_the_chain() {
    let mut main: StageManager<PurrFrameStage, Ticks> = StageManager::new();
    let chain = frames(&mut main);
    assert_eq!(chain, PurrFrameStage::PurrChain(0));
    assert_eq!(chain.chain_index(), Some(0));
    assert_eq!(PurrFrameStage::Frame(3).chain_index(), None);
    assert_eq!(main.get_condition(chain), Some(&Ticks::Now));
    let second = main.new_purr_chain(vec![(PurrFrameStage::Frame(7), None)]);
    assert_eq!(second, PurrFrameStage::PurrChain(1));

    let sub = main.get_sub_manager_mut(0).unwrap();
    assert!(sub.query_is_empty());
    assert_eq!(sub.get_condition(PurrFrameStage::Frame(1)), Some(&Ticks::After(1)));
    assert_eq!(sub.get_condition(PurrFrameStage::Frame(2)), Some(&Ticks::Now));
    // Each node depends on the one before it.
    sub.push(PurrFrameStage::Frame(2), DuplicatePolicy::KeepAll);
    assert_eq!(
        sub.current_vec_query(),
        &[PurrFrameStage::Frame(0), PurrFrameStage::Frame(1), PurrFrameStage::Frame(2)]
    );
}

#[test]
fn a_later_node_gives_the_condition() {
    let mut main: StageManager<PurrFrameStage, Ticks> = StageManager::new();
    main.new_purr_chain(vec![
        (PurrFrameStage::Frame(0), Some(Ticks::After(3))),
        (PurrFrameStage::Frame(1), None),
        (PurrFrameStage::Frame(0), Some(Ticks::After(5))),
        (PurrFrameStage::Frame(0), None),
    ]);
    let sub = main.get_sub_manager(0).unwrap();
    assert_eq!(sub.get_condition(PurrFrameStage::Frame(0)), Some(&Ticks::After(5)));
}

#[test]
fn rumble_runs_the_front_chain() {
    let mut main: StageManager<PurrFrameStage, Ticks> = StageManager::new();
    let chain = frames(&mut main);
    main.get_sub_manager_mut(0).unwrap().push(PurrFrameStage::Frame(2), DuplicatePolicy::KeepAll);
    assert_eq!(main.rumble_target(chain, RumblePolicy::StrictOrder), None);
    main.push(chain, DuplicatePolicy::KeepAll);
    assert_eq!(main.rumble_target(chain, RumblePolicy::StrictOrder), Some(0));

    assert_eq!(
        main.rumble_update(chain, 0),
        (PurrEvent::Transition { from: PurrFrameStage::Frame(0), to: Some(PurrFrameStage::Frame(1)) }, false)
    );
    assert_eq!(main.rumble_update(chain, 0), (PurrEvent::Running(PurrFrameStage::Frame(1)), false));
    assert_eq!(
        main.rumble_update(chain, 0),
        (PurrEvent::Transition { from: PurrFrameStage::Frame(1), to: Some(PurrFrameStage::Frame(2)) }, false)
    );
    assert_eq!(
        main.rumble_update(chain, 0),
        (PurrEvent::Transition { from: PurrFrameStage::Frame(2), to: None }, false)
    );
    // The nested queue is idle while the chain is still queued here.
    assert_eq!(main.rumble_update(chain, 0), (PurrEvent::Idle, true));
    assert_eq!(main.current_vec_query(), &[chain]);
}

#[test]
fn rumble_policy_decides_on_chains_behind_the_front() {
    let mut main: StageManager<PurrFrameStage, Ticks> = StageManager::new();
    let first = frames(&mut main);
    let second = main.new_purr_chain(vec![(PurrFrameStage::Frame(9), None)]);
    main.push(first, DuplicatePolicy::KeepAll);
    main.push(second, DuplicatePolicy::KeepAll);
    assert_eq!(main.rumble_target(second, RumblePolicy::StrictOrder), None);
    assert_eq!(main.rumble_target(second, RumblePolicy::Parallel), Some(1));
    assert_eq!(main.rumble_target(first, RumblePolicy::StrictOrder), Some(0));
    // A stage that is not a chain stage never runs a nested manager.
    main.add_to_graph(PurrFrameStage::Frame(4));
    main.insert(PurrFrameStage::Frame(4), DuplicatePolicy::KeepAll, purrgress::types::InsertPosition::Forward);
    assert_eq!(main.rumble_target(second, RumblePolicy::Parallel), None);
    assert_eq!(main.rumble_target(PurrFrameStage::Frame(4), RumblePolicy::Parallel), None);
    // A chain whose nested manager is gone runs nothing.
    main.remove_sub_manager(1);
    main.remove_sub_manager(0);
    main.clear_query();
    main.push(first, DuplicatePolicy::KeepAll);
    assert_eq!(main.rumble_target(first, RumblePolicy::StrictOrder), None);
    assert_eq!(PurrFrameStage::purr_chain(3), PurrFrameStage::PurrChain(3));
}
