use nitrocop::cop::layout::space_after_comma::{ArrayDelimiters, SpaceAfterComma};
use nitrocop::cop::{ConfigValue, CopConfig};
use nitrocop::correction::{Correction, CorrectionSet};
use nitrocop::diagnostic::Diagnostic;
use nitrocop::parse::codemap::CodeMap;
use nitrocop::parse::source::SourceFile;
use ruby_prism::Visit;

#[derive(Default)]
struct Facts {
    strings: Vec<(usize, usize)>,
    arrays: Vec<ArrayDelimiters>,
}

impl<'pr> Visit<'pr> for Facts {
    fn visit_string_node(&mut self, node: &ruby_prism::StringNode<'pr>) {
        let c = node.content_loc();
        self.strings.push((c.start() as usize, c.end() as usize));
    }
    fn visit_array_node(&mut self, node: &ruby_prism::ArrayNode<'pr>) {
        if let Some(o) = node.opening_loc() {
            self.arrays.push((
                (o.start() as usize, o.end() as usize),
                node.closing_loc().map(|c| (c.start() as usize, c.end() as usize)),
            ));
        }
        ruby_prism::visit_array_node(self, node);
    }
}

fn run_with(src: &[u8], config: &CopConfig) -> (Vec<Diagnostic>, Vec<Correction>) {
    let result = ruby_prism::parse(src);
    let mut f = Facts::default();
    f.visit(&result.node());
    let comments = result
        .comments()
        .map(|c| (c.location().start() as usize, c.location().end() as usize))
        .collect();
    let code = CodeMap {
        comments,
        strings: f.strings,
        heredoc_interpolations: Vec::new(),
        heredoc_interpolation_literals: Vec::new(),
    };
    let source = SourceFile::from_bytes("test.rb", src.to_vec());
    let mut d = Vec::new();
    let mut c = Vec::new();
    SpaceAfterComma.check_source(&source, &code, &f.arrays, config, &mut d, &mut c, true);
    (d, c)
}

fn run(src: &[u8]) -> (Vec<Diagnostic>, Vec<Correction>) {
    run_with(src, &CopConfig::default())
}

#[test]
fn autocorrect_insert_space() {
    let input = b"foo(1,2)\n";
    let (_diags, corrections) = run(input);
    assert!(!corrections.is_empty());
    let corrected = CorrectionSet::from_vec(corrections).apply(input);
    assert_eq!(corrected, b"foo(1, 2)\n");
}

#[test]
fn autocorrect_multiple() {
    let input = b"foo(1,2,3)\n";
    let (_diags, corrections) = run(input);
    assert_eq!(corrections.len(), 2);
    let corrected = CorrectionSet::from_vec(corrections).apply(input);
    assert_eq!(corrected, b"foo(1, 2, 3)\n");
}

#[test]
fn comma_before_rcurly_no_space_style() {
    let config = CopConfig::default()
        .with_option("__SpaceInsideHashBracesStyle", ConfigValue::Str("no_space".to_string()));
    assert!(run_with(b"{foo: bar,}\n", &config).0.is_empty());
}

#[test]
fn comma_before_rcurly_space_style() {
    let config = CopConfig::default()
        .with_option("__SpaceInsideHashBracesStyle", ConfigValue::Str("space".to_string()));
    let (d, _) = run_with(b"{foo: bar,}\n", &config);
    assert_eq!(d.len(), 1);
    assert_eq!(d[0].message, "Space missing after comma.");
    assert_eq!((d[0].location.line, d[0].location.column), (1, 9));
}

#[test]
fn space_after_comma_skips_allowed_places() {
    assert!(run(b"foo(1, 2)\n").0.is_empty());
    assert!(run(b"x = \"a,b\"\n").0.is_empty());
    assert!(run(b"# a,b\n").0.is_empty());
    assert!(run(b"[1,]\n").0.is_empty());
    assert!(run(b"x = $,\n").0.is_empty());
    assert!(run(b"%w,a b,\n").0.is_empty());
    assert!(run(b"foo(1,\t2)\n").0.is_empty());
    assert!(run(b"foo 1,\\\n  2\n").0.is_empty());
}
