pub mod args;
pub mod prop;
