pub mod shared;
pub mod worker;
