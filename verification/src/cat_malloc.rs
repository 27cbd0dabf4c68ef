pub mod train_error;
pub mod train_types;
pub mod train_design;
pub mod train_route;
pub mod train_siding;
pub mod purr_train;
