pub mod environment;
pub mod errors;
pub mod laws;
pub mod paths;
pub mod resolver;
pub mod string_map;
