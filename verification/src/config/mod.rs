pub mod gem_path;
