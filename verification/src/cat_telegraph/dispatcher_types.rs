use vstd::prelude::*;

use crate::types::{InsertPosition, PurrStep};
use crate::cat_malloc::train_route::RouteBox;
use crate::cat_malloc::train_types::{PurrRule, PurrTrainEvent};

verus! {

/// How many routes the dispatcher keeps in its fixed table before it moves
/// them to the map.
pub const FAST_ROUTES_CAPACITY: usize = 16;

/// A key that names a route of the dispatcher.
pub trait PurrKey: core::fmt::Debug + Default + PartialEq + Eq + core::hash::Hash + Copy {}

impl<K: core::fmt::Debug + Default + PartialEq + Eq + core::hash::Hash + Copy> PurrKey for K {}

/// A command sent to the dispatcher.
#[derive(Debug, Clone, Copy)]
pub enum DispatcherCommand<T: PurrStep, C: PurrKey> {
    AddRoute { key: C, action: RouteAction, channel_cap: usize },
    DeleteRoute { key: C, action: RouteAction },
    Attach { carriage: T, key: C },
    Replace { carriage: T, key: C },
    RerouteAt { carriage: T, position: InsertPosition, key: C },
    ShrinkLine { line_length: usize, key: C },
    AdvanceTrain { key: C },
    GetCurrent { key: C },
    GetCursor { key: C },
}

/// What the dispatcher answers on a route about its train.
#[derive(Debug, Clone, Copy)]
pub enum TrainReply<T: PurrStep, U: PurrRule> {
    Advance { event: PurrTrainEvent<T, U> },
    Cursor { cursor: usize },
    Current { route_box: Option<RouteBox<T, U>> },
    /// An answer that carries nothing.
    Empty,
}

/// What is left to do for a command once the dispatcher has updated its
/// own state: the part that goes over channels.
#[derive(Debug, Clone, Copy)]
pub enum DispatchStep<T: PurrStep, U: PurrRule, C: PurrKey> {
    /// Open a route: make a channel with room for `channel_cap` replies,
    /// register its sending half under `key` with `action`, and hand the
    /// receiving half out on the line channel.
    OpenRoute { key: C, action: RouteAction, channel_cap: usize },
    /// Send `reply` on the route of `key`, if there is one.
    Reply { key: C, reply: TrainReply<T, U> },
    /// Nothing.
    Done,
}

/// Why the dispatcher refused or failed a command.
#[derive(Debug, Clone, PartialEq, Eq)]
pub enum DispatcherError {
    DuplicateInFastRoutes,
    DuplicateInDynamicRoutes,
    CursorNotFound,
    LineChannelClosed,
    RouteChannelClosed,
    Internal(String),
}

/// How a route command treats duplicates, migration and lookup.
#[derive(Debug, Clone, Copy, PartialEq, Eq, Hash)]
pub enum RouteAction {
    Default,
    AddConfigure { check_duplicates: bool, check_duplicates_migrate: bool, migrate_to_dynamic: bool },
    DeleteConfigure { delete_everywhere: bool, migrate_to_fast: bool },
    GetConfigure { find_all: bool },
}

/// What one dispatched command carried.
#[derive(Debug, Clone, Copy)]
pub struct DispatchData<T: PurrStep, C: PurrKey> {
    pub command: Option<DispatcherCommand<T, C>>,
    pub key: Option<C>,
    pub carriage: Option<T>,
    pub insert_position: Option<InsertPosition>,
    pub line_length: Option<usize>,
    pub action: Option<RouteAction>,
}

impl<T: PurrStep, C: PurrKey> DispatchData<T, C> {
    pub fn new() -> (r: Self)
        ensures
            r.command is None,
            r.key is None,
            r.carriage is None,
            r.insert_position is None,
            r.line_length is None,
            r.action is None,
    {
        DispatchData { command: None, key: None, carriage: None, insert_position: None, line_length: None, action: None }
    }
}

} // verus!
