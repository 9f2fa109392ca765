pub mod collections;
pub mod math;
pub mod searching;
