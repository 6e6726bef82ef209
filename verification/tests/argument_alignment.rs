use nitrocop::cop::layout::argument_alignment::{ArgCallSite, ArgShape, ArgumentAlignment};
use nitrocop::cop::{ConfigValue, CopConfig};
use nitrocop::diagnostic::Diagnostic;
use nitrocop::parse::source::SourceFile;
use ruby_prism::Visit;

struct Calls {
    sites: Vec<ArgCallSite>,
}

impl<'pr> Visit<'pr> for Calls {
    fn visit_call_node(&mut self, node: &ruby_prism::CallNode<'pr>) {
        if let Some(arguments) = node.arguments() {
            let args = arguments
                .arguments()
                .iter()
                .map(|a| match a.as_keyword_hash_node() {
                    Some(h) => ArgShape::KeywordHash {
                        start: a.location().start() as usize,
                        elements: h
                            .elements()
                            .iter()
                            .map(|e| (e.location().start() as usize, e.as_assoc_splat_node().is_some()))
                            .collect(),
                    },
                    None => ArgShape::Plain(a.location().start() as usize),
                })
                .collect();
            let base = node
                .opening_loc()
                .or(node.message_loc())
                .unwrap_or(node.location())
                .start() as usize;
            self.sites.push(ArgCallSite {
                name: String::from_utf8_lossy(node.name().as_slice()).into_owned(),
                args,
                block_arg_start: node
                    .block()
                    .filter(|b| b.as_block_argument_node().is_some())
                    .map(|b| b.location().start() as usize),
                base_offset: base,
            });
        }
        ruby_prism::visit_call_node(self, node);
    }
}

fn run_cop_full_with_config(src: &[u8], config: CopConfig) -> Vec<Diagnostic> {
    let result = ruby_prism::parse(src);
    let mut c = Calls { sites: Vec::new() };
    c.visit(&result.node());
    let source = SourceFile::from_bytes("test.rb", src.to_vec());
    let mut diags = Vec::new();
    for s in &c.sites {
        ArgumentAlignment.check_call(&source, &config, s, &mut diags);
    }
    diags
}

fn run_cop_full(src: &[u8]) -> Vec<Diagnostic> {
    run_cop_full_with_config(src, CopConfig::default())
}

#[test]
fn single_line_call_no_offense() {
    let source = b"foo(1, 2, 3)\n";
    let diags = run_cop_full(source);
    assert!(diags.is_empty());
}

#[test]
fn argument_alignment_with_fixed_indentation_style() {
    let config = CopConfig::default().with_option(
        "EnforcedStyle",
        ConfigValue::Str("with_fixed_indentation".to_string()),
    );
    let src = b"foo(1,\n    2)\n";
    let diags = run_cop_full_with_config(src, config);
    assert_eq!(diags.len(), 1, "with_fixed_indentation should flag args aligned with first arg");

    let config = CopConfig::default().with_option(
        "EnforcedStyle",
        ConfigValue::Str("with_fixed_indentation".to_string()),
    );
    let src2 = b"foo(1,\n  2)\n";
    let diags2 = run_cop_full_with_config(src2, config);
    assert!(diags2.is_empty(), "with_fixed_indentation should accept fixed-indent args");
}

#[test]
fn misaligned_argument_is_reported() {
    let d = run_cop_full(b"foo(1,\n  2)\n");
    assert_eq!(d.len(), 1);
    assert_eq!((d[0].location.line, d[0].location.column), (2, 2));
    assert_eq!(
        d[0].message,
        "Align the arguments of a method call if they span more than one line."
    );
    assert!(run_cop_full(b"foo(1,\n    2)\n").is_empty());
}

#[test]
fn keyword_arguments_are_aligned_as_elements() {
    assert!(run_cop_full(b"foo(a: 1,\n    b: 2)\n").is_empty());
    assert_eq!(run_cop_full(b"foo(a: 1,\n  b: 2)\n").len(), 1);
}

#[test]
fn only_first_argument_of_a_line_is_checked() {
    let d = run_cop_full(b"foo(1,\n  2, 3,\n  4)\n");
    assert_eq!(d.len(), 2);
}
