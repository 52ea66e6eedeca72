pub mod symbols;
pub mod hierarchy;
pub mod syntax;
pub mod languages;
pub mod textops;
pub mod nodes;
pub mod extractor;
pub mod beam;
pub mod properties;
