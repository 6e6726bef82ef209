use nitrocop::cop::factory_bot::factory_class_name::FactoryClassName;
use nitrocop::cop::factory_bot::factory_name_style::FactoryNameStyle;
use nitrocop::cop::factory_bot::syntax_methods::SyntaxMethods;
use nitrocop::cop::lint::duplicate_case_condition::DuplicateCaseCondition;
use nitrocop::cop::lint::duplicate_elsif_condition::DuplicateElsifCondition;
use nitrocop::cop::lint::duplicate_match_pattern::DuplicateMatchPattern;
use nitrocop::cop::lint::duplicate_rescue_exception::DuplicateRescueException;
use nitrocop::cop::lint::empty_expression::EmptyExpression;
use nitrocop::cop::lint::empty_file::EmptyFile;
use nitrocop::cop::lint::float_out_of_range::FloatOutOfRange;
use nitrocop::cop::lint::rand_one::RandOne;
use nitrocop::cop::lint::require_parentheses::RequireParentheses;
use nitrocop::cop::lint::useless_else_without_rescue::UselessElseWithoutRescue;
use nitrocop::cop::lint::redundant_cop_disable_directive::RedundantCopDisableDirective;
use nitrocop::diagnostic::Severity;

#[test]
fn factory_class_name_supports_autocorrect() {
    assert!(FactoryClassName.supports_autocorrect());
}

#[test]
fn factory_name_style_supports_autocorrect() {
    assert!(FactoryNameStyle.supports_autocorrect());
}

#[test]
fn syntax_methods_supports_autocorrect() {
    assert!(SyntaxMethods.supports_autocorrect());
}

#[test]
fn duplicate_case_condition_supports_autocorrect() {
    assert!(DuplicateCaseCondition.supports_autocorrect());
}

#[test]
fn duplicate_elsif_condition_supports_autocorrect() {
    assert!(DuplicateElsifCondition.supports_autocorrect());
}

#[test]
fn duplicate_match_pattern_supports_autocorrect() {
    assert!(DuplicateMatchPattern.supports_autocorrect());
}

#[test]
fn duplicate_rescue_exception_supports_autocorrect() {
    assert!(DuplicateRescueException.supports_autocorrect());
}

#[test]
fn empty_expression_supports_autocorrect() {
    assert!(EmptyExpression.supports_autocorrect());
}

#[test]
fn empty_file_supports_autocorrect() {
    assert!(EmptyFile.supports_autocorrect());
}

#[test]
fn float_out_of_range_supports_autocorrect() {
    assert!(FloatOutOfRange.supports_autocorrect());
}

#[test]
fn rand_one_supports_autocorrect() {
    assert!(RandOne.supports_autocorrect());
}

#[test]
fn require_parentheses_supports_autocorrect() {
    assert!(RequireParentheses.supports_autocorrect());
}

#[test]
fn useless_else_without_rescue_supports_autocorrect() {
    assert!(UselessElseWithoutRescue.supports_autocorrect());
}

#[test]
fn cop_name() {
    assert_eq!(
        RedundantCopDisableDirective.name(),
        "Lint/RedundantCopDisableDirective"
    );
}

#[test]
fn default_severity_is_warning() {
    assert_eq!(
        RedundantCopDisableDirective.default_severity(),
        Severity::Warning
    );
}
