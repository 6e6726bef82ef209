pub mod ambiguous_operator;
pub mod big_decimal_new;
pub mod constant_definition_in_block;
pub mod constant_resolution;
pub mod deprecated_open_ssl_constant;
pub mod disjunctive_assignment_in_constructor;
pub mod duplicate_case_condition;
pub mod duplicate_elsif_condition;
pub mod duplicate_match_pattern;
pub mod duplicate_methods;
pub mod duplicate_rescue_exception;
pub mod duplicates;
pub mod empty_block;
pub mod empty_expression;
pub mod empty_file;
pub mod empty_when;
pub mod ensure_return;
pub mod erb_new_arguments;
pub mod flip_flop;
pub mod float_comparison;
pub mod float_out_of_range;
pub mod format_parameter_mismatch;
pub mod ineffective_access_modifier;
pub mod literal_in_interpolation;
pub mod next_without_accumulator;
pub mod rand_one;
pub mod redundant_cop_disable_directive;
pub mod redundant_cop_enable_directive;
pub mod redundant_require_statement;
pub mod refinement_import_methods;
pub mod regexp_as_condition;
pub mod require_parentheses;
pub mod return_in_void_context;
pub mod script_permission;
pub mod shadowed_argument;
pub mod top_level_return_with_argument;
pub mod triple_quotes;
pub mod uri_regexp;
pub mod useless_else_without_rescue;
