pub mod errors;
pub mod identity;
pub mod registry;
pub mod state;
pub mod transitions;

pub use errors::ArmorError;
pub use identity::Identity;
pub use state::armor::Armor;
pub use state::program_config::ProgramConfig;
