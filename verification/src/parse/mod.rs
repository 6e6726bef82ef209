pub mod source;
pub mod codemap;
