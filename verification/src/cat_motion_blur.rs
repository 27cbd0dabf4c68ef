pub mod pandemonium_types;
