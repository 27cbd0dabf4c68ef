pub use crate::types::{DuplicatePolicy, InsertPosition, PurrAction, PurrEvent, PurrStep, RumblePolicy};
