pub mod bytes;
pub mod cache;
pub mod edit;
pub mod error;
pub mod format;
pub mod index;
pub mod map;
pub mod mcp;
pub mod order;
pub mod paths;
pub mod read;
pub mod search;
pub mod session;
pub mod syntax;
pub mod text;
pub mod types;
