use nitrocop::cop::layout::trailing_whitespace::TrailingWhitespace;
use nitrocop::cop::{ConfigValue, CopConfig};
use nitrocop::correction::{Correction, CorrectionSet};
use nitrocop::diagnostic::Diagnostic;
use nitrocop::parse::source::SourceFile;

fn run_autocorrect(input: &[u8]) -> (Vec<Diagnostic>, Vec<Correction>) {
    let source = SourceFile::from_bytes("test.rb", input.to_vec());
    let mut diags = Vec::new();
    let mut corrections = Vec::new();
    TrailingWhitespace.check_lines(&source, &CopConfig::default(), &mut diags, &mut corrections, true);
    (diags, corrections)
}

#[test]
fn no_offense_after_end_marker() {
    let source = SourceFile::from_bytes(
        "test.rb",
        b"x = 1\n__END__\ndata with trailing spaces   \nmore data   \n".to_vec(),
    );
    let mut diags = Vec::new();
    TrailingWhitespace.check_lines(&source, &CopConfig::default(), &mut diags, &mut Vec::new(), false);
    assert!(
        diags.is_empty(),
        "Should not flag trailing whitespace after __END__"
    );
}

#[test]
fn all_whitespace_line() {
    let source = SourceFile::from_bytes("test.rb", b"x = 1\n   \ny = 2\n".to_vec());
    let mut diags = Vec::new();
    TrailingWhitespace.check_lines(&source, &CopConfig::default(), &mut diags, &mut Vec::new(), false);
    assert_eq!(diags.len(), 1);
    assert_eq!(diags[0].location.line, 2);
    assert_eq!(diags[0].location.column, 0);
}

#[test]
fn trailing_tab() {
    let source = SourceFile::from_bytes("test.rb", b"x = 1\t\n".to_vec());
    let mut diags = Vec::new();
    TrailingWhitespace.check_lines(&source, &CopConfig::default(), &mut diags, &mut Vec::new(), false);
    assert_eq!(diags.len(), 1);
    assert_eq!(diags[0].location.line, 1);
    assert_eq!(diags[0].location.column, 5);
}

#[test]
fn no_trailing_newline() {
    let source = SourceFile::from_bytes("test.rb", b"x = 1  ".to_vec());
    let mut diags = Vec::new();
    TrailingWhitespace.check_lines(&source, &CopConfig::default(), &mut diags, &mut Vec::new(), false);
    assert_eq!(diags.len(), 1);
    assert_eq!(diags[0].location.line, 1);
    assert_eq!(diags[0].location.column, 5);
}

#[test]
fn allow_in_heredoc_skips_heredoc_whitespace() {
    let config = CopConfig::default().with_option("AllowInHeredoc", ConfigValue::Bool(true));
    let source = SourceFile::from_bytes(
        "test.rb",
        b"x = <<~TEXT\n  hello  \n  world  \nTEXT\n".to_vec(),
    );
    let mut diags = Vec::new();
    TrailingWhitespace.check_lines(&source, &config, &mut diags, &mut Vec::new(), false);
    assert!(
        diags.is_empty(),
        "AllowInHeredoc should skip trailing whitespace inside heredocs"
    );
}

#[test]
fn default_flags_heredoc_whitespace() {
    let source = SourceFile::from_bytes("test.rb", b"x = <<~TEXT\n  hello  \nTEXT\n".to_vec());
    let mut diags = Vec::new();
    TrailingWhitespace.check_lines(&source, &CopConfig::default(), &mut diags, &mut Vec::new(), false);
    assert_eq!(
        diags.len(),
        1,
        "Default should flag trailing whitespace inside heredocs"
    );
}

#[test]
fn autocorrect_trailing_spaces() {
    let input = b"x = 1   \ny = 2\n";
    let (diags, corrections) = run_autocorrect(input);
    assert_eq!(diags.len(), 1);
    assert!(diags[0].corrected);
    let cs = CorrectionSet::from_vec(corrections);
    let corrected = cs.apply(input);
    assert_eq!(corrected, b"x = 1\ny = 2\n");
}

#[test]
fn autocorrect_all_whitespace_line() {
    let input = b"x = 1\n   \ny = 2\n";
    let (diags, corrections) = run_autocorrect(input);
    assert_eq!(diags.len(), 1);
    assert!(diags[0].corrected);
    let cs = CorrectionSet::from_vec(corrections);
    let corrected = cs.apply(input);
    assert_eq!(corrected, b"x = 1\n\ny = 2\n");
}

#[test]
fn autocorrect_multiple_lines() {
    let input = b"x = 1  \ny = 2  \nz = 3\n";
    let (diags, corrections) = run_autocorrect(input);
    assert_eq!(diags.len(), 2);
    assert!(diags.iter().all(|d| d.corrected));
    let cs = CorrectionSet::from_vec(corrections);
    let corrected = cs.apply(input);
    assert_eq!(corrected, b"x = 1\ny = 2\nz = 3\n");
}

#[test]
fn autocorrect_no_trailing_newline() {
    let input = b"x = 1  ";
    let (diags, corrections) = run_autocorrect(input);
    assert_eq!(diags.len(), 1);
    assert!(diags[0].corrected);
    let cs = CorrectionSet::from_vec(corrections);
    let corrected = cs.apply(input);
    assert_eq!(corrected, b"x = 1");
}

#[test]
fn no_offense_after_end_marker_crlf() {
    // CRLF line endings: __END__\r\n should still be recognized as end marker
    let source = SourceFile::from_bytes(
        "test.rb",
        b"x = 1\r\n__END__\r\ndata with trailing spaces   \r\nmore data   \r\n".to_vec(),
    );
    let mut diags = Vec::new();
    TrailingWhitespace.check_lines(&source, &CopConfig::default(), &mut diags, &mut Vec::new(), false);
    assert!(
        diags.is_empty(),
        "Should not flag trailing whitespace after __END__ in CRLF files, got {:?}",
        diags.iter().map(|d| d.location.line).collect::<Vec<_>>()
    );
}

#[test]
fn shift_operator_not_heredoc() {
    // << as shift/append operator should not trigger heredoc detection
    let config = CopConfig::default().with_option("AllowInHeredoc", ConfigValue::Bool(true));
    let source =
        SourceFile::from_bytes("test.rb", b"array << \"item\"\nnext_line   \n".to_vec());
    let mut diags = Vec::new();
    TrailingWhitespace.check_lines(&source, &config, &mut diags, &mut Vec::new(), false);
    assert_eq!(
        diags.len(),
        1,
        "Should flag trailing whitespace on next_line even after << operator"
    );
    assert_eq!(diags[0].location.line, 2);
}

#[test]
fn heredoc_containing_end_marker() {
    // __END__ inside a heredoc should not stop processing
    let source = SourceFile::from_bytes(
        "test.rb",
        b"x = <<~HEREDOC\n__END__\nHEREDOC\ny = 1   \n".to_vec(),
    );
    let mut diags = Vec::new();
    TrailingWhitespace.check_lines(&source, &CopConfig::default(), &mut diags, &mut Vec::new(), false);
    assert_eq!(
        diags.len(),
        1,
        "Should flag trailing whitespace after heredoc containing __END__"
    );
    assert_eq!(diags[0].location.line, 4);
}
