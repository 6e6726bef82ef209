use nitrocop::cop::bundler::ordered_gems::OrderedGems;
use nitrocop::cop::{ConfigValue, CopConfig};
use nitrocop::diagnostic::Diagnostic;
use nitrocop::parse::source::SourceFile;

fn run(src: &str, config: CopConfig) -> Vec<Diagnostic> {
    let source = SourceFile::from_bytes("Gemfile", src.as_bytes().to_vec());
    let mut d = Vec::new();
    OrderedGems.check_lines(&source, &config, &mut d);
    d
}

fn msg(name: &str, prev: &str) -> String {
    format!(
        "Gems should be sorted in an alphabetical order within their section of the Gemfile. Gem `{}` should appear before `{}`.",
        name, prev
    )
}

#[test]
fn ordered_gems_flags_out_of_order_gem() {
    let d = run("gem 'rubocop'\ngem 'rspec'\n", CopConfig::default());
    assert_eq!(d.len(), 1);
    assert_eq!(d[0].location.line, 2);
    assert_eq!(d[0].location.column, 0);
    assert_eq!(d[0].message, msg("rspec", "rubocop"));
    assert_eq!(d[0].cop_name, "Bundler/OrderedGems");
}

#[test]
fn ordered_gems_accepts_sorted_gems() {
    assert!(run("gem 'a'\ngem 'b'\ngem 'c'\n", CopConfig::default()).is_empty());
}

#[test]
fn ordered_gems_blank_line_starts_new_section() {
    assert!(run("gem 'b'\n\ngem 'a'\n", CopConfig::default()).is_empty());
}

#[test]
fn ordered_gems_comment_separates_by_default() {
    assert!(run("gem 'b'\n# group\ngem 'a'\n", CopConfig::default()).is_empty());
}

#[test]
fn ordered_gems_comment_does_not_separate_when_disabled() {
    let config = CopConfig::default().with_option("TreatCommentsAsGroupSeparators", ConfigValue::Bool(false));
    let d = run("gem 'b'\n# note\ngem 'a'\n", config);
    assert_eq!(d.len(), 1);
    assert_eq!(d[0].location.line, 3);
}

#[test]
fn ordered_gems_case_insensitive() {
    assert!(run("gem 'Alpha'\ngem 'beta'\n", CopConfig::default()).is_empty());
    assert_eq!(run("gem 'beta'\ngem 'Alpha'\n", CopConfig::default()).len(), 1);
}

#[test]
fn ordered_gems_ignores_punctuation_by_default() {
    assert_eq!(run("gem 'a-b'\ngem 'a_c'\ngem 'ab'\n", CopConfig::default()).len(), 1);
    assert!(run("gem 'ab'\ngem 'a_c'\n", CopConfig::default()).is_empty());
    let config = CopConfig::default().with_option("ConsiderPunctuation", ConfigValue::Bool(true));
    assert_eq!(run("gem 'ab'\ngem 'a_c'\n", config).len(), 1);
}

#[test]
fn ordered_gems_indented_column_and_parens() {
    let d = run("group :test do\n  gem('zeta')\n  gem \"alpha\", '~> 1.0'\nend\n", CopConfig::default());
    assert_eq!(d.len(), 1);
    assert_eq!(d[0].location.line, 3);
    assert_eq!(d[0].location.column, 2);
    assert_eq!(d[0].message, msg("alpha", "zeta"));
}

#[test]
fn ordered_gems_continuation_lines_keep_section() {
    let d = run("gem 'rails',\n  git: 'x'\ngem 'puma'\n", CopConfig::default());
    assert_eq!(d.len(), 1);
    assert_eq!(d[0].location.line, 3);
}

#[test]
fn ordered_gems_other_statement_resets_section() {
    assert!(run("gem 'b'\nsource 'https://rubygems.org'\ngem 'a'\n", CopConfig::default()).is_empty());
}

#[test]
fn ordered_gems_block_comment_resets() {
    assert!(run("gem 'b'\n=begin\ngem 'z'\n=end\ngem 'a'\n", CopConfig::default()).is_empty());
}

#[test]
fn ordered_gems_gem_in_comment_is_ignored() {
    assert!(run("gem 'b' # gem 'a'\n", CopConfig::default()).is_empty());
    assert!(run("regem 'b'\n", CopConfig::default()).is_empty());
}

#[test]
fn ordered_gems_name_and_includes() {
    assert_eq!(OrderedGems.name(), "Bundler/OrderedGems");
    assert_eq!(OrderedGems.default_include(), vec!["**/*.gemfile", "**/Gemfile", "**/gems.rb"]);
}
