pub mod crawler;
pub mod index;
pub mod parser;
pub mod storage;
pub mod utils;
