pub mod copy;
pub mod glob;
pub mod options;
pub mod rules;
pub mod stats;
pub mod progress;
pub mod text;
pub mod type_counter;
pub mod walk;
