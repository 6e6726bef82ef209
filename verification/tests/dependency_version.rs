use nitrocop::cop::gemspec::dependency_version::{is_version_string, DependencyVersion};
use nitrocop::cop::{ConfigValue, CopConfig};
use nitrocop::diagnostic::Diagnostic;
use nitrocop::parse::source::SourceFile;

fn run(src: &[u8], config: &CopConfig) -> Vec<Diagnostic> {
    let source = SourceFile::from_bytes("example.gemspec", src.to_vec());
    let mut diags = vec![];
    DependencyVersion.check_lines(&source, config, &mut diags);
    diags
}

#[test]
fn positional_args_string_literal_skipped() {
    let diags = run(
        b"Gem::Specification.new 'example', '1.0' do |s|\n  s.add_dependency 'foo'\nend\n",
        &CopConfig::default(),
    );
    assert!(diags.is_empty(), "should skip file with positional args: {diags:?}");
}

#[test]
fn positional_args_variable_skipped() {
    let diags = run(
        b"Gem::Specification.new name, VERSION do |s|\n  s.add_dependency 'foo'\nend\n",
        &CopConfig::default(),
    );
    assert!(diags.is_empty(), "should skip file with variable positional args: {diags:?}");
}

#[test]
fn interpolated_version_not_counted() {
    assert!(!is_version_string("\"~> #{VERSION}\""));
    assert!(!is_version_string("\"~> #{Foo::VERSION}\""));
    assert!(is_version_string("'~> 1.0'"));
    assert!(is_version_string("'>= 2.0'"));
}

#[test]
fn missing_version_is_reported() {
    let d = run(
        b"Gem::Specification.new do |s|\n  s.add_dependency 'foo'\n  s.add_dependency 'bar', '~> 1.0'\nend\n",
        &CopConfig::default(),
    );
    assert_eq!(d.len(), 1);
    assert_eq!(d[0].message, "Dependency version is required.");
    assert_eq!((d[0].location.line, d[0].location.column), (2, 4));
}

#[test]
fn forbidden_style_reports_versions() {
    let config =
        CopConfig::default().with_option("EnforcedStyle", ConfigValue::Str("forbidden".to_string()));
    let d = run(
        b"Gem::Specification.new do |s|\n  s.add_runtime_dependency('foo', '>= 1')\n  s.add_dependency %q<bar>\nend\n",
        &config,
    );
    assert_eq!(d.len(), 1);
    assert_eq!(d[0].message, "Dependency version should not be specified.");
    assert_eq!(d[0].location.line, 2);
}

#[test]
fn allowed_gems_and_comments_are_skipped() {
    let config = CopConfig::default()
        .with_option("AllowedGems", ConfigValue::List(vec!["foo".to_string()]));
    let d = run(
        b"Gem::Specification.new do |s|\n  s.add_dependency 'foo'\n  # s.add_dependency 'bar'\nend\n",
        &config,
    );
    assert!(d.is_empty(), "{d:?}");
}
