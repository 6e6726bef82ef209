use nitrocop::cop::lint::empty_file::EmptyFile;
use nitrocop::cop::{ConfigValue, CopConfig};
use nitrocop::correction::{Correction, CorrectionSet};
use nitrocop::diagnostic::Diagnostic;
use nitrocop::parse::source::SourceFile;

fn run(src: &[u8], config: &CopConfig) -> (Vec<Diagnostic>, Vec<Correction>) {
    let source = SourceFile::from_bytes("empty.rb", src.to_vec());
    let mut d = Vec::new();
    let mut c = Vec::new();
    EmptyFile.check_lines(&source, config, &mut d, &mut c, true);
    (d, c)
}

fn no_comments() -> CopConfig {
    CopConfig::default().with_option("AllowComments", ConfigValue::Bool(false))
}

#[test]
fn autocorrect_empty_file_inserts_nil() {
    let (_d, c) = run(b"", &CopConfig::default());
    assert_eq!(CorrectionSet::from_vec(c).apply(b""), b"nil\n".to_vec());
}

#[test]
fn empty_file_is_reported() {
    let (d, _) = run(b"", &CopConfig::default());
    assert_eq!(d.len(), 1);
    assert_eq!(d[0].message, "Empty file detected.");
    assert_eq!((d[0].location.line, d[0].location.column), (1, 0));
}

#[test]
fn comment_only_file_is_fine_by_default() {
    assert!(run(b"# just a comment\n", &CopConfig::default()).0.is_empty());
}

#[test]
fn comment_only_file_without_allow_comments() {
    let (d, c) = run(b"# just a comment", &no_comments());
    assert_eq!(d.len(), 1);
    assert_eq!(
        CorrectionSet::from_vec(c).apply(b"# just a comment"),
        b"# just a comment\nnil\n".to_vec()
    );
    let (d2, _) = run(b"  \r\n# x\n", &no_comments());
    assert_eq!(d2.len(), 1);
    assert!(run(b"# x\nputs 1\n", &no_comments()).0.is_empty());
}
