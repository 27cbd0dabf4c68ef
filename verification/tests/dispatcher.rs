use purrgress::cat_malloc::train_route::RouteBox;
use purrgress::cat_malloc::train_siding::PurrSiding;
use purrgress::cat_malloc::train_types::{PurrTrainEvent, StandardRules};
use purrgress::cat_telegraph::dispatcher::PurrDispatcher;
use purrgress::cat_telegraph::dispatcher_types::{
    DispatchData, DispatchStep, DispatcherCommand, DispatcherError, RouteAction, TrainReply,
    FAST_ROUTES_CAPACITY,
};
use purrgress::cat_telegraph::station_link::KeySenderReply;
use purrgress::types::{InsertPosition, PurrStep};

#[derive(Debug, Clone, Copy, PartialEq, Eq, Hash)]
enum Step {
    Intro,
    Level,
}

impl PurrStep for Step {}

/// Routes are numbered handles in these tests.
type Dispatcher = PurrDispatcher<Step, StandardRules, u32, u64>;

const NO_CHECKS: RouteAction =
    RouteAction::AddConfigure { check_duplicates: false, check_duplicates_migrate: false, migrate_to_dynamic: false };

fn with_routes(n: u32) -> Dispatcher {
    let mut d = Dispatcher::new();
    for k in 0..n {
        d.add_route(k, RouteAction::Default, 100 + k as u64).unwrap();
    }
    d
}

#[test]
fn added_route_is_found() {
    let mut d = Dispatcher::new();
    assert_eq!(d.add_route(7, RouteAction::Default, 70), Ok(()));
    assert_eq!(d.line_count, 1);
    assert_eq!(d.get_route(7, RouteAction::Default), Some(&70));
    assert_eq!(d.get_route(8, RouteAction::Default), None);
    assert_eq!(d.fast_routes[0].key, 7);
    assert_eq!(d.fast_routes[0].sender, Some(70));
}

#[test]
fn duplicate_in_fast_routes_is_refused() {
    let mut d = with_routes(3);
    assert_eq!(d.add_route(1, RouteAction::Default, 9), Err(DispatcherError::DuplicateInFastRoutes));
    assert_eq!(d.line_count, 3);
    assert_eq!(d.get_route(1, RouteAction::Default), Some(&101));
    // Without the check the second route takes the next slot; lookups find the first.
    assert_eq!(d.add_route(1, NO_CHECKS, 9), Ok(()));
    assert_eq!(d.line_count, 4);
    assert_eq!(d.fast_routes[3].sender, Some(9));
    assert_eq!(d.get_route(1, RouteAction::Default), Some(&101));
}

#[test]
fn outgrowing_the_table_moves_routes_to_the_map() {
    let mut d = with_routes(FAST_ROUTES_CAPACITY as u32);
    assert_eq!(d.line_count, FAST_ROUTES_CAPACITY);
    assert!(d.dynamic_routes.is_empty());
    assert_eq!(d.add_route(16, RouteAction::Default, 116), Ok(()));
    assert_eq!(d.line_count, 17);
    assert!(d.fast_routes.iter().all(|s| s.sender.is_none() && s.key == d.free_key));
    assert_eq!(d.free_key, 0);
    assert_eq!(d.dynamic_routes.len(), 17);
    for k in 0..17u32 {
        assert_eq!(d.get_route(k, RouteAction::Default), Some(&(100 + k as u64)));
    }
    assert_eq!(d.add_route(3, RouteAction::Default, 1), Err(DispatcherError::DuplicateInDynamicRoutes));
    assert_eq!(d.line_count, 17);
}

#[test]
fn map_mode_without_migration_keeps_the_table() {
    let mut d = with_routes(FAST_ROUTES_CAPACITY as u32);
    assert_eq!(d.add_route(16, NO_CHECKS, 116), Ok(()));
    assert_eq!(d.dynamic_routes.len(), 1);
    assert_eq!(d.fast_routes[5].sender, Some(105));
    // Past the table size the lookup reads the map only, unless asked for all.
    assert_eq!(d.get_route(5, RouteAction::Default), None);
    assert_eq!(d.get_route(5, RouteAction::GetConfigure { find_all: true }), Some(&105));
    assert_eq!(d.get_route(16, RouteAction::Default), Some(&116));
    let cross = RouteAction::AddConfigure { check_duplicates: false, check_duplicates_migrate: true, migrate_to_dynamic: false };
    assert_eq!(d.add_route(5, cross, 1), Err(DispatcherError::DuplicateInFastRoutes));
}

#[test]
fn deleting_back_into_the_table_migrates() {
    let mut d = with_routes(17);
    d.delete_route(4, RouteAction::Default);
    assert_eq!(d.line_count, 16);
    assert!(d.dynamic_routes.is_empty());
    assert_eq!(d.fast_routes.iter().filter(|s| s.sender.is_some()).count(), 16);
    assert_eq!(d.get_route(4, RouteAction::Default), None);
    for k in (0..17u32).filter(|k| *k != 4) {
        assert_eq!(d.get_route(k, RouteAction::Default), Some(&(100 + k as u64)));
    }
    d.delete_route(0, RouteAction::Default);
    assert_eq!(d.line_count, 15);
    assert_eq!(d.fast_routes.iter().filter(|s| s.sender.is_none() && s.key == d.free_key).count(), 1);
    assert_eq!(d.get_route(0, RouteAction::Default), None);
    // A key that is nowhere changes nothing.
    d.delete_route(99, RouteAction::Default);
    assert_eq!(d.line_count, 15);
}

#[test]
fn delete_configure_controls_where_and_migration() {
    let mut d = with_routes(17);
    let stay = RouteAction::DeleteConfigure { delete_everywhere: false, migrate_to_fast: false };
    d.delete_route(0, stay);
    assert_eq!(d.line_count, 16);
    assert_eq!(d.dynamic_routes.len(), 16);
    // Within the table size the map is only looked at when asked everywhere.
    d.delete_route(1, stay);
    assert_eq!(d.line_count, 16);
    let everywhere = RouteAction::DeleteConfigure { delete_everywhere: true, migrate_to_fast: false };
    d.delete_route(1, everywhere);
    assert_eq!(d.line_count, 15);
    assert_eq!(d.dynamic_routes.len(), 15);
    assert_eq!(d.get_route(2, RouteAction::Default), None);
    assert_eq!(d.get_route(2, RouteAction::GetConfigure { find_all: true }), Some(&102));
    let cross = RouteAction::AddConfigure { check_duplicates: true, check_duplicates_migrate: true, migrate_to_dynamic: false };
    assert_eq!(d.add_route(2, cross, 1), Err(DispatcherError::DuplicateInDynamicRoutes));
    assert_eq!(d.add_route(40, cross, 140), Ok(()));
    assert_eq!(d.get_route(40, RouteAction::Default), Some(&140));
}

#[test]
fn key_sender_reply_slots() {
    let mut slot: KeySenderReply<u32, u64> = KeySenderReply::new();
    assert_eq!(slot.sender, None);
    assert_eq!(slot.key, 0);
    slot.set_sender(5);
    slot.set_key(3);
    assert_eq!((slot.key, slot.sender), (3, Some(5)));
    let free: KeySenderReply<u32, u64> = KeySenderReply::default();
    assert!(free.sender.is_none());
}

fn loaded() -> Dispatcher {
    let mut d = Dispatcher::new();
    let mut siding = PurrSiding::new(2);
    siding.main_line = vec![
        RouteBox::new(StandardRules::instant(), Step::Intro),
        RouteBox::new(StandardRules::flag(), Step::Level),
    ];
    d.purr_train.attach(&mut siding);
    d
}

#[test]
fn dispatch_route_commands() {
    let mut d = loaded();
    let (data, step) = d.dispatch_command(DispatcherCommand::AddRoute { key: 4, action: RouteAction::Default, channel_cap: 8 });
    assert_eq!(data.action, Some(RouteAction::Default));
    assert!(data.key.is_none() && data.command.is_none());
    assert!(matches!(step, DispatchStep::OpenRoute { key: 4, action: RouteAction::Default, channel_cap: 8 }));
    assert_eq!(d.line_count, 0);

    d.add_route(4, RouteAction::Default, 44).unwrap();
    let (data, step) = d.dispatch_command(DispatcherCommand::DeleteRoute { key: 4, action: RouteAction::Default });
    assert_eq!(data.action, Some(RouteAction::Default));
    assert!(matches!(step, DispatchStep::Done));
    assert_eq!(d.get_route(4, RouteAction::Default), None);
    assert_eq!(d.line_count, 0);
}

#[test]
fn dispatch_train_commands() {
    let mut d = loaded();
    let intro = RouteBox::new(StandardRules::instant(), Step::Intro);
    let level = RouteBox::new(StandardRules::flag(), Step::Level);

    let (data, step) = d.dispatch_command(DispatcherCommand::GetCursor { key: 1 });
    assert_eq!(data.key, Some(1));
    assert!(matches!(data.command, Some(DispatcherCommand::GetCursor { key: 1 })));
    assert!(matches!(step, DispatchStep::Reply { key: 1, reply: TrainReply::Cursor { cursor: 0 } }));

    let (_, step) = d.dispatch_command(DispatcherCommand::GetCurrent { key: 2 });
    assert!(matches!(step, DispatchStep::Reply { key: 2, reply: TrainReply::Current { route_box: Some(b) } } if b == intro));

    let (_, step) = d.dispatch_command(DispatcherCommand::AdvanceTrain { key: 3 });
    assert!(matches!(step, DispatchStep::Reply { key: 3, reply: TrainReply::Advance { event: PurrTrainEvent::Transition { from, to: Some(to) } } } if from == intro && to == intro));
    let (_, step) = d.dispatch_command(DispatcherCommand::AdvanceTrain { key: 3 });
    assert!(matches!(step, DispatchStep::Reply { reply: TrainReply::Advance { event: PurrTrainEvent::Transition { to: Some(to), .. } }, .. } if to == level));
    let (_, step) = d.dispatch_command(DispatcherCommand::AdvanceTrain { key: 3 });
    assert!(matches!(step, DispatchStep::Reply { reply: TrainReply::Advance { event: PurrTrainEvent::Running(b) }, .. } if b == level));

    let (data, step) = d.dispatch_command(DispatcherCommand::ShrinkLine { line_length: 0, key: 5 });
    assert_eq!(data.line_length, Some(0));
    assert!(matches!(step, DispatchStep::Reply { key: 5, reply: TrainReply::Empty }));
    assert_eq!(d.purr_train.get_line(), &[level]);
    assert_eq!(d.purr_train.get_cursor(), 0);

    let (data, step) = d.dispatch_command(DispatcherCommand::RerouteAt { carriage: Step::Intro, position: InsertPosition::Index(2), key: 6 });
    assert_eq!(data.carriage, Some(Step::Intro));
    assert_eq!(data.insert_position, Some(InsertPosition::Index(2)));
    assert!(matches!(step, DispatchStep::Reply { key: 6, reply: TrainReply::Empty }));
    assert_eq!(d.purr_train.get_line().len(), 1);

    let (data, _) = d.dispatch_command(DispatcherCommand::Attach { carriage: Step::Level, key: 7 });
    assert_eq!(data.carriage, Some(Step::Level));
    let (data, _) = d.dispatch_command(DispatcherCommand::Replace { carriage: Step::Intro, key: 8 });
    assert_eq!(data.carriage, Some(Step::Intro));
    assert_eq!(data.key, Some(8));
}

#[test]
fn dispatch_data_starts_empty() {
    let data: DispatchData<Step, u32> = DispatchData::new();
    assert!(data.command.is_none() && data.key.is_none() && data.carriage.is_none());
    assert!(data.insert_position.is_none() && data.line_length.is_none() && data.action.is_none());
}

#[test]
fn delete_undoes_add() {
    let mut d = Dispatcher::new();
    d.add_route(5, RouteAction::Default, 50).unwrap();
    d.delete_route(5, RouteAction::Default);
    assert_eq!(d.get_route(5, RouteAction::Default), None);
    assert_eq!(d.line_count, 0);

    // Past the table size: the route goes through the map, and back.
    let mut d = with_routes(16);
    d.add_route(40, RouteAction::Default, 140).unwrap();
    d.delete_route(40, RouteAction::Default);
    assert_eq!(d.get_route(40, RouteAction::Default), None);
    assert_eq!(d.line_count, 16);
    assert!(d.dynamic_routes.is_empty());
    assert_eq!(d.get_route(3, RouteAction::Default), Some(&103));
}
