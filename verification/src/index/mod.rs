pub mod graph;
pub mod redis_index;
pub mod tokenizer;
