pub mod factory_class_name;
pub mod language;
pub mod factory_name_style;
pub mod syntax_methods;
