pub mod duplicated_gem;
pub mod gem_filename;
pub mod gem_version;
pub mod ordered_gems;
