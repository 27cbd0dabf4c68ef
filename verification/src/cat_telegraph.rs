pub mod dispatcher_types;
pub mod station_link;
pub mod dispatcher;
