pub mod file_store;
pub mod mongo_db;
