use nitrocop::cop::lint::script_permission::ScriptPermission;
use nitrocop::diagnostic::Diagnostic;
use nitrocop::parse::source::SourceFile;

fn run(path: &str, src: &[u8], mode: Option<u32>) -> Vec<Diagnostic> {
    let source = SourceFile::from_bytes(path, src.to_vec());
    let mut diags = Vec::new();
    ScriptPermission.check_lines(&source, mode, &mut diags, false);
    diags
}

#[test]
fn no_offense_no_shebang() {
    let diags = run("test.rb", b"puts 'hello'\nx = 1\ny = 2\nz = 3\na = 4\nb = 5\n", Some(0o644));
    assert!(diags.is_empty());
}

#[test]
fn non_executable_script_is_reported() {
    let d = run("/tmp/bin/tool.rb", b"#!/usr/bin/env ruby\nputs 'hello'\n", Some(0o644));
    assert_eq!(d.len(), 1);
    assert_eq!(d[0].message, "Script file tool.rb doesn't have execute permission.");
    assert_eq!((d[0].location.line, d[0].location.column), (1, 0));
}

#[test]
fn executable_or_unreadable_script_is_fine() {
    assert!(run("/tmp/bin/tool.rb", b"#!/usr/bin/ruby\n", Some(0o755)).is_empty());
    assert!(run("/tmp/bin/tool.rb", b"#!/usr/bin/ruby\n", Some(0o610)).is_empty());
    assert!(run("/tmp/bin/tool.rb", b"#!/usr/bin/ruby\n", None).is_empty());
    assert!(run("test.rb", b"#!/usr/bin/ruby\n", Some(0o644)).is_empty());
}
