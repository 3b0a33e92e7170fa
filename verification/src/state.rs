pub mod armor;
pub mod program_config;
