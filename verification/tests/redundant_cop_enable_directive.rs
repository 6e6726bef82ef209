use nitrocop::cop::lint::redundant_cop_enable_directive::{
    parse_all_directives, RedundantCopEnableDirective,
};
use nitrocop::diagnostic::Diagnostic;
use nitrocop::parse::codemap::CodeMap;
use nitrocop::parse::source::SourceFile;
use ruby_prism::Visit;

struct Strings {
    ranges: Vec<(usize, usize)>,
}

impl<'pr> Visit<'pr> for Strings {
    fn visit_string_node(&mut self, node: &ruby_prism::StringNode<'pr>) {
        let c = node.content_loc();
        self.ranges.push((c.start() as usize, c.end() as usize));
    }
}

fn run(src: &[u8]) -> Vec<Diagnostic> {
    let result = ruby_prism::parse(src);
    let mut st = Strings { ranges: Vec::new() };
    st.visit(&result.node());
    let comments = result
        .comments()
        .map(|c| (c.location().start() as usize, c.location().end() as usize))
        .collect();
    let code = CodeMap {
        comments,
        strings: st.ranges,
        heredoc_interpolations: Vec::new(),
        heredoc_interpolation_literals: Vec::new(),
    };
    let source = SourceFile::from_bytes("test.rb", src.to_vec());
    let mut d = Vec::new();
    RedundantCopEnableDirective.check_source(&source, &code, &mut d);
    d
}

#[test]
fn enable_without_disable_is_reported() {
    let d = run(b"foo # rubocop:enable Lint/Foo\n");
    assert_eq!(d.len(), 1);
    assert_eq!(d[0].message, "Unnecessary enabling of Lint/Foo.");
    assert_eq!((d[0].location.line, d[0].location.column), (1, 21));
    assert_eq!(d[0].cop_name, "Lint/RedundantCopEnableDirective");
}

#[test]
fn enable_after_disable_is_fine() {
    assert!(run(b"# rubocop:disable Lint/Foo\nx = 1\n# rubocop:enable Lint/Foo\n").is_empty());
    assert!(run(b"# rubocop:todo Lint/Foo\nx = 1\n# rubocop:enable Lint/Foo\n").is_empty());
}

#[test]
fn department_disable_covers_cop() {
    assert!(run(b"# rubocop:disable Lint\nx = 1\n# rubocop:enable Lint/Foo\n").is_empty());
}

#[test]
fn enable_all_without_disable() {
    let d = run(b"x = 1\n# rubocop:enable all\n");
    assert_eq!(d.len(), 1);
    assert_eq!(d[0].message, "Unnecessary enabling of all cops.");
    assert_eq!(d[0].location.line, 2);
    assert!(run(b"# rubocop:disable Foo/Bar\n# rubocop:enable all\n").is_empty());
}

#[test]
fn only_the_cops_not_disabled_are_reported() {
    let d = run(b"# rubocop:disable A/B, C/D\nx = 1\n# rubocop:enable A/B, C/D, E/F\n");
    assert_eq!(d.len(), 1);
    assert_eq!(d[0].message, "Unnecessary enabling of E/F.");
}

#[test]
fn enable_twice_is_reported_the_second_time() {
    let d = run(b"# rubocop:disable A/B\nx = 1\n# rubocop:enable A/B\n# rubocop:enable A/B\n");
    assert_eq!(d.len(), 1);
    assert_eq!(d[0].location.line, 4);
}

#[test]
fn directive_in_string_is_ignored() {
    assert!(run(b"s = '# rubocop:enable Lint/Foo'\n").is_empty());
}

#[test]
fn documentation_example_in_backticks_is_ignored() {
    assert!(run(b"# Use `# rubocop:enable Lint/Foo` to enable.\n").is_empty());
}

#[test]
fn parse_all_directives_reads_actions_and_cops() {
    let line = b"x # rubocop:disable Foo/Bar, Baz -- reason";
    let ds = parse_all_directives(line, 0, line.len());
    assert_eq!(ds.len(), 1);
    assert_eq!(ds[0].action, 0);
    assert_eq!(ds[0].hash, 2);
    let names: Vec<&[u8]> = ds[0].cops.iter().map(|&(a, b)| &line[a..b]).collect();
    assert_eq!(names, vec![&b"Foo/Bar"[..], &b"Baz"[..]]);
}
