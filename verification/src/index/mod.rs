pub mod bloom;
pub mod symbol;
