use nitrocop::cop::gemspec::ruby_version_globals_usage::RubyVersionGlobalsUsage;
use nitrocop::correction::{Correction, CorrectionSet};
use nitrocop::diagnostic::Diagnostic;
use nitrocop::parse::source::SourceFile;

fn run(src: &[u8]) -> (Vec<Diagnostic>, Vec<Correction>) {
    let source = SourceFile::from_bytes("x.gemspec", src.to_vec());
    let mut d = Vec::new();
    let mut c = Vec::new();
    RubyVersionGlobalsUsage.check_lines(&source, &mut d, &mut c, true);
    (d, c)
}

#[test]
fn autocorrect_replaces_ruby_version_constant() {
    let input = b"Gem::Specification.new do |spec|\n  if RUBY_VERSION >= '3.0'\n    spec.add_dependency 'modern_gem'\n  end\nend\n";
    let (_d, c) = run(input);
    assert_eq!(
        CorrectionSet::from_vec(c).apply(input),
        b"Gem::Specification.new do |spec|\n  if '0.0.0' >= '3.0'\n    spec.add_dependency 'modern_gem'\n  end\nend\n".to_vec()
    );
}

#[test]
fn reports_line_and_byte_column() {
    let (d, _) = run(b"x = 1\ny = RUBY_VERSION\n");
    assert_eq!(d.len(), 1);
    assert_eq!((d[0].location.line, d[0].location.column), (2, 4));
    assert_eq!(d[0].message, "Do not use `RUBY_VERSION` in gemspec.");
}

#[test]
fn strings_comments_and_longer_names_are_skipped() {
    let (d, _) = run(b"# RUBY_VERSION\ns = 'RUBY_VERSION'\nMY_RUBY_VERSION = 1\nt = \"#{RUBY_VERSION}\"\n");
    assert_eq!(d.len(), 1, "{:?}", d);
    assert_eq!(d[0].location.line, 4);
}

#[test]
fn two_uses_on_one_line() {
    let (d, _) = run(b"a = [RUBY_VERSION, RUBY_VERSION]\n");
    assert_eq!(d.len(), 2);
    assert_eq!(d[1].location.column, 19);
}
