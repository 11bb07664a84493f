pub mod log;
pub mod string;
