pub mod bundler;
pub mod config;
pub mod factory_bot;
pub mod gemspec;
pub mod layout;
pub mod lint;
pub mod node;
pub mod report;
pub mod text;
pub mod util;

pub use config::{ConfigValue, CopConfig};
