pub mod args_builder;
