use nitrocop::cop::bundler::gem_version::GemVersion;
use nitrocop::cop::{ConfigValue, CopConfig};
use nitrocop::diagnostic::Diagnostic;
use nitrocop::parse::source::SourceFile;

fn run(src: &str, config: CopConfig) -> Vec<Diagnostic> {
    let source = SourceFile::from_bytes("Gemfile", src.as_bytes().to_vec());
    let mut d = Vec::new();
    GemVersion.check_lines(&source, &config, &mut d);
    d
}

fn forbidden() -> CopConfig {
    CopConfig::default().with_option("EnforcedStyle", ConfigValue::Str("forbidden".to_string()))
}

#[test]
fn gem_version_required_by_default() {
    let d = run("source 'https://rubygems.org'\ngem 'rubocop'\ngem 'rails', '~> 7.0'\n", CopConfig::default());
    assert_eq!(d.len(), 1);
    assert_eq!(d[0].message, "Gem version specification is required.");
    assert_eq!((d[0].location.line, d[0].location.column), (2, 0));
}

#[test]
fn gem_version_source_keywords_count() {
    assert!(run("gem 'rubocop', git: 'https://x'\n", CopConfig::default()).is_empty());
    assert!(run("gem 'rubocop', github: 'x/y'\n", CopConfig::default()).is_empty());
    assert!(run("gem 'rubocop', require: false, tag: 'v1'\n", CopConfig::default()).is_empty());
    assert_eq!(run("gem 'rubocop', require: false\n", CopConfig::default()).len(), 1);
    assert_eq!(run("gem 'rubocop', 'latest'\n", CopConfig::default()).len(), 1);
}

#[test]
fn gem_version_operators() {
    for v in ["'>= 1.0'", "'<= 2'", "'!= 3'", "'> 1'", "'< 1'", "'= 1'", "\"1.2\"", "' ~> 1'"] {
        assert!(run(&format!("gem 'x', {}\n", v), CopConfig::default()).is_empty(), "{}", v);
    }
}

#[test]
fn gem_version_forbidden_style() {
    let d = run("gem 'rubocop', '~> 1.0'\ngem 'rails'\n", forbidden());
    assert_eq!(d.len(), 1);
    assert_eq!(d[0].message, "Gem version specification is forbidden.");
    assert_eq!(d[0].location.line, 1);
}

#[test]
fn gem_version_allowed_gems_and_other_lines() {
    let config = CopConfig::default().with_option("AllowedGems", ConfigValue::List(vec!["rubocop".to_string()]));
    assert!(run("gem 'rubocop'\n", config).is_empty());
    assert!(run("# gem 'rubocop'\ngroup :test do\nend\ngemspec\n", CopConfig::default()).is_empty());
    assert_eq!(run("  gem(\"rake\")\n", CopConfig::default()).len(), 1);
    let other = CopConfig::default().with_option("EnforcedStyle", ConfigValue::Str("other".to_string()));
    assert!(run("gem 'rubocop'\n", other).is_empty());
}
