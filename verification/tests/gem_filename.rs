use nitrocop::cop::bundler::gem_filename::GemFilename;
use nitrocop::cop::{ConfigValue, CopConfig};
use nitrocop::correction::CorrectionSet;
use nitrocop::parse::source::SourceFile;

fn gemfile_style() -> CopConfig {
    CopConfig::default().with_option("EnforcedStyle", ConfigValue::Str("Gemfile".to_string()))
}

#[test]
fn autocorrect_inserts_skip_hint_for_wrong_filename() {
    let input = b"source 'https://rubygems.org'\n";
    let source = SourceFile::from_bytes("gems.rb", input.to_vec());
    let mut diags = Vec::new();
    let mut corrs = Vec::new();
    GemFilename.check_lines(&source, &gemfile_style(), &mut diags, &mut corrs, true);
    let out = CorrectionSet::from_vec(corrs).apply(input);
    assert_eq!(
        out,
        b"skip('TODO: rename file to Gemfile')\nsource 'https://rubygems.org'\n".to_vec()
    );
}

#[test]
fn gems_rb_reported_under_gemfile_style() {
    let source = SourceFile::from_bytes("app/gems.rb", b"".to_vec());
    let mut diags = Vec::new();
    let mut corrs = Vec::new();
    GemFilename.check_lines(&source, &CopConfig::default(), &mut diags, &mut corrs, false);
    assert_eq!(diags.len(), 1);
    assert_eq!(
        diags[0].message,
        "`gems.rb` file was found but `Gemfile` is required (file path: app/gems.rb)."
    );
    assert_eq!((diags[0].location.line, diags[0].location.column), (1, 0));
    assert!(!diags[0].corrected);
    assert!(corrs.is_empty());
}

#[test]
fn gems_locked_reported_under_gemfile_style() {
    let source = SourceFile::from_bytes("gems.locked", b"".to_vec());
    let mut diags = Vec::new();
    let mut corrs = Vec::new();
    GemFilename.check_lines(&source, &CopConfig::default(), &mut diags, &mut corrs, false);
    assert_eq!(diags.len(), 1);
    assert_eq!(
        diags[0].message,
        "Expected a `Gemfile.lock` with `Gemfile` but found `gems.locked` file (file path: gems.locked)."
    );
}

#[test]
fn gemfile_reported_under_gems_rb_style() {
    let config =
        CopConfig::default().with_option("EnforcedStyle", ConfigValue::Str("gems.rb".to_string()));
    let source = SourceFile::from_bytes("x/Gemfile", b"".to_vec());
    let mut diags = Vec::new();
    let mut corrs = Vec::new();
    GemFilename.check_lines(&source, &config, &mut diags, &mut corrs, true);
    assert_eq!(diags.len(), 1);
    assert_eq!(
        diags[0].message,
        "`Gemfile` was found but `gems.rb` is required (file path: x/Gemfile)."
    );
    assert_eq!(corrs[0].replacement, "skip('TODO: rename file to gems.rb')\n");
}

#[test]
fn gemfile_is_fine_under_gemfile_style() {
    let source = SourceFile::from_bytes("Gemfile", b"".to_vec());
    let mut diags = Vec::new();
    let mut corrs = Vec::new();
    GemFilename.check_lines(&source, &CopConfig::default(), &mut diags, &mut corrs, true);
    assert!(diags.is_empty());
}
