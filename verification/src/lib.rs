pub mod builder;
pub mod config;
pub mod dates;
pub mod grub;
pub mod install;
pub mod state;
pub mod strings;
pub mod xml;
