pub mod dependency_version;
pub mod ruby_version_globals_usage;
