pub mod argument_alignment;
pub mod array_alignment;
pub mod block_alignment;
pub mod else_alignment;
pub mod empty_lines_around_access_modifier;
pub mod first_hash_element_line_break;
pub mod multiline_array_line_breaks;
pub mod multiline_hash_brace_layout;
pub mod multiline_method_call_indentation;
pub mod space_after_comma;
pub mod space_around_keyword;
pub mod trailing_whitespace;
