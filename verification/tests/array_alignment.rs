use nitrocop::cop::layout::array_alignment::ArrayAlignment;
use nitrocop::cop::{ConfigValue, CopConfig};
use nitrocop::diagnostic::Diagnostic;
use nitrocop::parse::source::SourceFile;
use ruby_prism::Visit;

#[derive(Default)]
struct Lists {
    arrays: Vec<(Option<usize>, Vec<usize>)>,
    rescues: Vec<Vec<usize>>,
}

impl<'pr> Visit<'pr> for Lists {
    fn visit_array_node(&mut self, node: &ruby_prism::ArrayNode<'pr>) {
        self.arrays.push((
            node.opening_loc().map(|l| l.start() as usize),
            node.elements().iter().map(|e| e.location().start() as usize).collect(),
        ));
        ruby_prism::visit_array_node(self, node);
    }
    fn visit_rescue_node(&mut self, node: &ruby_prism::RescueNode<'pr>) {
        self.rescues
            .push(node.exceptions().iter().map(|e| e.location().start() as usize).collect());
        ruby_prism::visit_rescue_node(self, node);
    }
}

fn run_cop_full_with_config(src: &[u8], config: CopConfig) -> Vec<Diagnostic> {
    let result = ruby_prism::parse(src);
    let mut v = Lists::default();
    v.visit(&result.node());
    let source = SourceFile::from_bytes("test.rb", src.to_vec());
    let mut d = Vec::new();
    for (o, e) in &v.arrays {
        ArrayAlignment.check_array(&source, *o, e, &config, &mut d);
    }
    for e in &v.rescues {
        ArrayAlignment.check_rescue_exceptions(&source, e, &config, &mut d);
    }
    d
}

fn run_cop_full(src: &[u8]) -> Vec<Diagnostic> {
    run_cop_full_with_config(src, CopConfig::default())
}

#[test]
fn rescue_exception_list_misaligned() {
    let source =
        b"begin\n  foo\nrescue ArgumentError,\n  RuntimeError,\n  TypeError => e\n  bar\nend\n";
    let diags = run_cop_full(source);
    assert_eq!(diags.len(), 2, "should flag both misaligned rescue exceptions");
    assert_eq!(
        diags[0].message,
        "Align the elements of an array literal if they span more than one line."
    );
}

#[test]
fn rescue_exception_list_aligned() {
    let source = b"begin\n  foo\nrescue ArgumentError,\n       RuntimeError,\n       TypeError => e\n  bar\nend\n";
    assert!(run_cop_full(source).is_empty(), "aligned rescue exceptions should not be flagged");
}

#[test]
fn rescue_single_exception_no_offense() {
    assert!(run_cop_full(b"begin\n  foo\nrescue ArgumentError => e\n  bar\nend\n").is_empty());
}

#[test]
fn single_line_array_no_offense() {
    assert!(run_cop_full(b"x = [1, 2, 3]\n").is_empty());
}

#[test]
fn with_fixed_indentation_style() {
    let config = || {
        CopConfig::default()
            .with_option("EnforcedStyle", ConfigValue::Str("with_fixed_indentation".into()))
    };
    assert!(run_cop_full_with_config(b"x = [\n  1,\n  2\n]\n", config()).is_empty());
    assert_eq!(run_cop_full_with_config(b"x = [1,\n     2]\n", config()).len(), 1);
}

#[test]
fn misaligned_array_element_and_implicit_array() {
    let d = run_cop_full(b"x = [1,\n  2]\n");
    assert_eq!(d.len(), 1);
    assert_eq!((d[0].location.line, d[0].location.column), (2, 2));
    assert!(run_cop_full(b"a, b = 1,\n  2\n").is_empty());
    assert!(run_cop_full(b"x = [{\n  a: 1\n}, {\n  b: 2\n}]\n").is_empty());
}
