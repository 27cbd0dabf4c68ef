use purrgress::cat_malloc::purr_train::PurrTrain;
use purrgress::cat_malloc::train_design::{DesignBox, PurrDesign};
use purrgress::cat_malloc::train_error::TrainError;
use purrgress::cat_malloc::train_route::{PurrRoute, RouteBox};
use purrgress::cat_malloc::train_siding::PurrSiding;
use purrgress::cat_malloc::train_types::{
    BufferMode, CursorLine, PurrRule, PurrTrack, PurrTrainEvent, StandardRules, TrackCapacity, UnpackRule,
};
use purrgress::condition::{InstantCondition, PurrFlag};
use purrgress::types::{InsertPosition, PurrStep};

#[derive(Debug, Clone, Copy, PartialEq, Eq, Hash)]
enum Stage {
    Boot,
    Load,
    Play,
    Pause,
    Quit,
}

impl PurrStep for Stage {}

fn flag_up() -> StandardRules {
    let mut flag = PurrFlag::new();
    flag.set_flag(true);
    StandardRules::Flag(flag)
}

fn rb(rule: StandardRules, carriage: Stage) -> RouteBox<Stage, StandardRules> {
    RouteBox::new(rule, carriage)
}

fn carriages(train: &PurrTrain<Stage, StandardRules>) -> Vec<Stage> {
    train.get_line().iter().map(|b| b.carriage).collect()
}

/// Boot couples Load and Play; Load couples Pause; Play and Pause stand alone.
fn sample_design() -> PurrDesign<Stage, StandardRules> {
    let mut design = PurrDesign::new();
    design.chain(Stage::Boot, StandardRules::instant(), vec![Stage::Load, Stage::Play]);
    design.chain(Stage::Load, StandardRules::flag(), vec![Stage::Pause]);
    design.single(Stage::Play, StandardRules::instant());
    design.single(Stage::Pause, StandardRules::instant());
    design
}

#[test]
fn design_single_chain_and_design_chain() {
    let mut design: PurrDesign<Stage, StandardRules> = PurrDesign::new();
    design.single(Stage::Boot, StandardRules::instant());
    assert_eq!(design.blueprints.get(&Stage::Boot), Some(&DesignBox::new(StandardRules::instant())));

    design.chain(Stage::Load, StandardRules::flag(), vec![Stage::Boot]);
    let load = design.blueprints.get(&Stage::Load).unwrap();
    assert_eq!(load.rule, StandardRules::flag());
    assert_eq!(load.coupling, Some(vec![Stage::Boot]));

    let mut boxed = DesignBox::new(StandardRules::instant());
    boxed.set_coupling(vec![Stage::Load, Stage::Boot]);
    design.design_chain(Stage::Play, boxed.clone());
    assert_eq!(design.blueprints.get(&Stage::Play), Some(&boxed));
    assert_eq!(design.blueprints.len(), 3);

    // A second blueprint for a stage replaces the first.
    design.single(Stage::Load, StandardRules::instant());
    assert_eq!(design.blueprints.get(&Stage::Load).unwrap().coupling, None);
}

#[test]
fn bake_stage_flattens_couplings_in_order() {
    let design = sample_design();
    let mut buffer = Vec::new();
    let mut visited = Vec::new();
    let r = PurrRoute::bake_stage(&Stage::Boot, &design, &mut buffer, &mut visited);
    assert_eq!(r, Ok(()));
    let order: Vec<Stage> = buffer.iter().map(|b| b.carriage).collect();
    assert_eq!(order, vec![Stage::Pause, Stage::Load, Stage::Play, Stage::Boot]);
    assert_eq!(buffer[1].rule, StandardRules::flag());
    assert!(visited.is_empty());
}

#[test]
fn bake_stage_appends_to_the_buffer() {
    let design = sample_design();
    let mut buffer = vec![rb(StandardRules::instant(), Stage::Quit)];
    let mut visited = Vec::new();
    assert_eq!(PurrRoute::bake_stage(&Stage::Load, &design, &mut buffer, &mut visited), Ok(()));
    let order: Vec<Stage> = buffer.iter().map(|b| b.carriage).collect();
    assert_eq!(order, vec![Stage::Quit, Stage::Pause, Stage::Load]);
}

#[test]
fn bake_stage_without_blueprint_bakes_nothing() {
    let design = sample_design();
    let mut buffer = Vec::new();
    let mut visited = Vec::new();
    assert_eq!(PurrRoute::bake_stage(&Stage::Quit, &design, &mut buffer, &mut visited), Ok(()));
    assert!(buffer.is_empty());
}

#[test]
fn bake_stage_refuses_a_stage_on_the_stack() {
    let design = sample_design();
    let mut buffer = Vec::new();
    let mut visited = vec![Stage::Play];
    let r = PurrRoute::bake_stage(&Stage::Play, &design, &mut buffer, &mut visited);
    assert_eq!(r, Err(TrainError::RecursiveStage { carriage: Stage::Play }));
    assert!(buffer.is_empty());
}

#[test]
fn self_coupling_is_refused() {
    let mut design = PurrDesign::new();
    design.chain(Stage::Boot, StandardRules::instant(), vec![Stage::Boot]);
    let mut route = PurrRoute::new();
    assert_eq!(
        route.construct_schedule(&design),
        Err(TrainError::RecursiveStage { carriage: Stage::Boot })
    );
    assert!(route.schedule.get(&Stage::Boot).is_none());
}

#[test]
fn mutual_coupling_is_refused() {
    let mut design = PurrDesign::new();
    design.chain(Stage::Boot, StandardRules::instant(), vec![Stage::Load]);
    design.chain(Stage::Load, StandardRules::instant(), vec![Stage::Boot]);
    let mut buffer = Vec::new();
    let mut visited = Vec::new();
    let r = PurrRoute::bake_stage(&Stage::Boot, &design, &mut buffer, &mut visited);
    assert_eq!(r, Err(TrainError::RecursiveStage { carriage: Stage::Boot }));
}

#[test]
fn construct_schedule_keeps_every_route() {
    let design = sample_design();
    let mut route = PurrRoute::new();
    assert_eq!(route.construct_schedule(&design), Ok(()));
    assert_eq!(route.schedule.len(), 4);
    let boot: Vec<Stage> = route.schedule[&Stage::Boot].iter().map(|b| b.carriage).collect();
    assert_eq!(boot, vec![Stage::Pause, Stage::Load, Stage::Play, Stage::Boot]);
    let load: Vec<Stage> = route.schedule[&Stage::Load].iter().map(|b| b.carriage).collect();
    assert_eq!(load, vec![Stage::Pause, Stage::Load]);
    assert_eq!(route.schedule[&Stage::Play], vec![rb(StandardRules::instant(), Stage::Play)]);
}

#[test]
fn construct_schedule_of_empty_design() {
    let design: PurrDesign<Stage, StandardRules> = PurrDesign::default();
    let mut route = PurrRoute::default();
    assert_eq!(route.construct_schedule(&design), Ok(()));
    assert!(route.schedule.is_empty());
}

#[test]
fn launch_adds_the_route_and_clears_on_request() {
    let mut route = PurrRoute::new();
    route.construct_schedule(&sample_design()).unwrap();
    let mut siding = PurrSiding::new(8);
    assert_eq!(siding.launch(Stage::Load, BufferMode::Keep, &route), Ok(()));
    assert_eq!(siding.train_len(), 2);
    assert_eq!(siding.launch(Stage::Play, BufferMode::Keep, &route), Ok(()));
    let order: Vec<Stage> = siding.main_line.iter().map(|b| b.carriage).collect();
    assert_eq!(order, vec![Stage::Pause, Stage::Load, Stage::Play]);
    assert_eq!(siding.launch(Stage::Play, BufferMode::Clear, &route), Ok(()));
    assert_eq!(siding.main_line, vec![rb(StandardRules::instant(), Stage::Play)]);
    siding.clear_main_train();
    assert_eq!(siding.train_len(), 0);
}

#[test]
fn launch_unscheduled_is_refused() {
    let mut route = PurrRoute::new();
    route.construct_schedule(&sample_design()).unwrap();
    let mut siding = PurrSiding::default();
    siding.launch(Stage::Play, BufferMode::Keep, &route).unwrap();
    let r = siding.launch(Stage::Quit, BufferMode::Clear, &route);
    assert_eq!(r, Err(TrainError::UnscheduledParam { carriage: Stage::Quit }));
    assert_eq!(siding.train_len(), 1);
}

#[test]
fn change_rule_touches_matching_boxes_only() {
    let mut siding = PurrSiding::new(4);
    siding.main_line = vec![
        rb(StandardRules::instant(), Stage::Play),
        rb(StandardRules::instant(), Stage::Pause),
        rb(StandardRules::instant(), Stage::Play),
    ];
    siding.change_rule(Stage::Play, flag_up());
    assert_eq!(siding.main_line[0].rule, flag_up());
    assert_eq!(siding.main_line[1].rule, StandardRules::instant());
    assert_eq!(siding.main_line[2].rule, flag_up());
}

#[test]
fn change_rule_few_takes_the_last_matching_box() {
    let mut siding = PurrSiding::new(4);
    siding.main_line = vec![
        rb(StandardRules::instant(), Stage::Play),
        rb(StandardRules::instant(), Stage::Pause),
        rb(StandardRules::instant(), Stage::Quit),
    ];
    let updates = [
        rb(StandardRules::flag(), Stage::Play),
        rb(flag_up(), Stage::Play),
        rb(StandardRules::flag(), Stage::Pause),
    ];
    siding.change_rule_few(&updates);
    assert_eq!(siding.main_line[0].rule, flag_up());
    assert_eq!(siding.main_line[1].rule, StandardRules::flag());
    assert_eq!(siding.main_line[2].rule, StandardRules::instant());
}

#[test]
fn standard_rules_finish_and_unpack() {
    assert!(StandardRules::instant().is_finished());
    assert!(!StandardRules::flag().is_finished());
    assert!(flag_up().is_finished());
    let rule = flag_up();
    let flag: Option<&PurrFlag> = rule.unpack_ref();
    assert!(flag.unwrap().get_flag());
    let instant: Option<&InstantCondition> = rule.unpack_ref();
    assert!(instant.is_none());
    let instant_rule = StandardRules::instant();
    let instant: Option<&InstantCondition> = instant_rule.unpack_ref();
    assert_eq!(instant, Some(&InstantCondition));

    let mut rule = StandardRules::flag();
    assert!(!rule.as_ref_rule::<PurrFlag>().unwrap().get_flag());
    rule.as_mut_rule::<PurrFlag>().unwrap().reverse_flag();
    assert!(rule.is_finished());
    assert!(rule.as_mut_rule::<InstantCondition>().is_none());
    let mut instant_rule = StandardRules::instant();
    let found: Option<&mut InstantCondition> = instant_rule.unpack_mut();
    assert!(found.is_some());
    let flag: Option<&mut PurrFlag> = instant_rule.unpack_mut();
    assert!(flag.is_none());
}

#[test]
fn train_runs_through_its_line() {
    let mut siding = PurrSiding::new(4);
    siding.main_line = vec![
        rb(StandardRules::instant(), Stage::Boot),
        rb(StandardRules::instant(), Stage::Load),
        rb(StandardRules::instant(), Stage::Play),
    ];
    let mut train = PurrTrain::new();
    train.attach(&mut siding);
    assert_eq!(siding.train_len(), 0);
    assert_eq!(carriages(&train), vec![Stage::Boot, Stage::Load, Stage::Play]);
    let boot = rb(StandardRules::instant(), Stage::Boot);
    let load = rb(StandardRules::instant(), Stage::Load);
    let play = rb(StandardRules::instant(), Stage::Play);
    // The cursor's bound is the line's length as of the last time the cursor
    // was set, so the first step on a fresh line only takes up that bound.
    assert_eq!(train.advance_train(), PurrTrainEvent::Transition { from: boot, to: Some(boot) });
    assert_eq!(train.advance_train(), PurrTrainEvent::Transition { from: boot, to: Some(load) });
    assert_eq!(train.get_cursor(), 1);
    assert_eq!(train.advance_train(), PurrTrainEvent::Transition { from: load, to: Some(play) });
    // Finished carriages stay on the line behind the cursor.
    assert_eq!(carriages(&train), vec![Stage::Boot, Stage::Load, Stage::Play]);
    assert_eq!(train.advance_train(), PurrTrainEvent::Transition { from: play, to: None });
    assert!(train.get_line().is_empty());
    assert_eq!(train.advance_train(), PurrTrainEvent::Idle);
    assert_eq!(train.get_current(), None);
}

#[test]
fn unfinished_carriage_keeps_running() {
    let mut siding = PurrSiding::new(2);
    siding.main_line = vec![rb(StandardRules::flag(), Stage::Load)];
    let mut train = PurrTrain::default();
    train.attach(&mut siding);
    let load = rb(StandardRules::flag(), Stage::Load);
    assert_eq!(train.advance_train(), PurrTrainEvent::Running(load));
    assert_eq!(train.advance_with(false), PurrTrainEvent::Running(load));
    assert_eq!(train.get_current_ref(), Some(&load));
    if let Some(current) = train.get_current_mut() {
        current.rule = flag_up();
    }
    let raised = rb(flag_up(), Stage::Load);
    assert_eq!(train.advance_train(), PurrTrainEvent::Transition { from: raised, to: None });
    train.attach(&mut PurrSiding { main_line: vec![load] });
    assert!(train.get_current_mut().is_some());
    assert_eq!(train.advance_with(true), PurrTrainEvent::Transition { from: load, to: None });
    assert_eq!(train.get_cursor(), 0);
}

#[test]
fn replace_reroute_and_shrink() {
    let mut siding = PurrSiding::new(4);
    siding.main_line = vec![
        rb(StandardRules::instant(), Stage::Boot),
        rb(StandardRules::instant(), Stage::Load),
        rb(StandardRules::instant(), Stage::Play),
    ];
    let mut train = PurrTrain::new();
    train.attach(&mut siding);

    siding.main_line = vec![rb(StandardRules::instant(), Stage::Pause), rb(StandardRules::instant(), Stage::Quit)];
    train.replace(&mut siding);
    assert_eq!(carriages(&train), vec![Stage::Pause, Stage::Quit]);
    assert_eq!(train.get_cursor(), 0);

    // Replacing set the cursor's bound to the old length, so steps move now.
    train.advance_train();
    assert_eq!(train.get_cursor(), 1);

    siding.main_line = vec![rb(StandardRules::instant(), Stage::Boot)];
    train.reroute_at(&mut siding, InsertPosition::Forward);
    assert_eq!(carriages(&train), vec![Stage::Pause, Stage::Boot, Stage::Quit]);

    siding.main_line = vec![rb(StandardRules::instant(), Stage::Load)];
    train.reroute_at(&mut siding, InsertPosition::Index(10));
    assert_eq!(carriages(&train), vec![Stage::Pause, Stage::Boot, Stage::Quit, Stage::Load]);

    siding.main_line = vec![rb(StandardRules::instant(), Stage::Play)];
    train.reroute_at(&mut siding, InsertPosition::Index(1));
    assert_eq!(carriages(&train), vec![Stage::Pause, Stage::Boot, Stage::Play, Stage::Quit, Stage::Load]);

    // The cursor (1) is not past 1: nothing is dropped.
    train.shrink_line(1);
    assert_eq!(train.get_line().len(), 5);
    // Past 0: the finished carriage behind it goes, the cursor is back at 0.
    train.shrink_line(0);
    assert_eq!(carriages(&train), vec![Stage::Boot, Stage::Play, Stage::Quit, Stage::Load]);
    assert_eq!(train.get_cursor(), 0);
    assert_eq!(train.get_current().map(|b| b.carriage), Some(Stage::Boot));
    for b in train.get_mut_line().iter_mut() {
        b.rule = flag_up();
    }
    assert!(train.get_line().iter().all(|b| b.rule == flag_up()));
    assert_eq!(train.get_line().len(), 4);
}

#[test]
fn cursor_line_follows_the_cursor_rules() {
    let mut line: CursorLine<u32> = CursorLine::tr_with_capacity(TrackCapacity::Cap8);
    assert!(line.tr_is_empty());
    assert_eq!(line.tr_get_cursor(), 0);
    assert_eq!(line.tr_get_current(), None);
    let mut values = vec![10, 20, 30];
    line.tr_extend(&mut values);
    assert!(values.is_empty());
    // Bound 0: setting 2 is refused, the bound becomes 3.
    line.tr_set_cursor(2);
    assert_eq!(line.tr_get_cursor(), 0);
    line.tr_set_cursor(2);
    assert_eq!(line.tr_get_cursor(), 2);
    assert_eq!(line.tr_get_current(), Some(30));
    // Past the end: kept on the last value.
    line.tr_step_cursor();
    assert_eq!(line.tr_get_cursor(), 2);
    let mut more = vec![5];
    line.tr_splice(1, &mut more);
    assert_eq!(line.tr_as_slice(), &[10, 5, 20, 30]);
    assert_eq!(line.tr_get(3), Some(30));
    assert_eq!(line.tr_get_ref(4), None);
    assert_eq!(line.tr_drain(2), vec![10, 5]);
    assert_eq!(line.tr_as_slice(), &[20, 30]);
    assert_eq!(line.tr_len(), 2);
    if let Some(v) = line.tr_get_mut(1) {
        *v = 31;
    }
    assert!(line.tr_get_mut(2).is_none());
    line.tr_set_cursor(0);
    if let Some(v) = line.tr_get_current_mut() {
        *v = 21;
    }
    assert_eq!(line.tr_as_slice(), &[21, 31]);
    line.tr_clear();
    assert!(line.tr_is_empty());
    assert_eq!(line.tr_get_current_ref(), None);
}
