pub mod config;
pub mod options;
pub mod overrides;
pub mod package;
pub mod paths;
pub mod probe;
pub mod value;
