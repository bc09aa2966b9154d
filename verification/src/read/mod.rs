pub mod detect;
pub mod file;
pub mod outline;
pub mod section;
pub mod suggest;
