pub mod format;
pub mod parser;
pub mod text;
pub mod security;
pub mod summarizer;
pub mod store;
pub mod tools;
pub mod indexing;
pub mod savings;
