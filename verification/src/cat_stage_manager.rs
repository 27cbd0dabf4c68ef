pub mod stage_graph;
pub mod manager;
pub mod manager_types;
