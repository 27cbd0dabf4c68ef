//! Stage queues and baked stage trains for real-time loops.
//!
//! `cat_malloc` holds the data-oriented train engine (designs, baked routes,
//! sidings and the cursor-driven train), `cat_stage_manager` the graph-driven
//! stage manager, `cat_telegraph` the route table of the dispatcher and
//! `cat_motion_blur` the stage type used by animators.

pub mod types;
pub mod condition;
pub mod cat_malloc;
pub mod cat_stage_manager;
pub mod cat_telegraph;
pub mod cat_motion_blur;
