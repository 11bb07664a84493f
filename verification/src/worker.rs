pub mod binary_worker;
pub mod script_worker;
