use nitrocop::cop::layout::multiline_method_call_indentation::{
    ChainCall, Link, LinkKind, MultilineMethodCallIndentation,
};
use nitrocop::cop::{ConfigValue, CopConfig};
use nitrocop::diagnostic::Diagnostic;
use nitrocop::parse::source::SourceFile;
use ruby_prism::Visit;

fn links(first: ruby_prism::Node<'_>) -> Vec<Link> {
    let mut out = Vec::new();
    let mut cur = Some(first);
    while let Some(n) = cur {
        let (start, end) = (n.location().start() as usize, n.location().end() as usize);
        if let Some(c) = n.as_call_node() {
            out.push(Link {
                start,
                end,
                kind: LinkKind::Call {
                    dot: c.call_operator_loc().map(|l| l.start() as usize),
                    has_block: c.block().is_some(),
                    name: std::str::from_utf8(c.name().as_slice()).unwrap_or("?").to_string(),
                    first_arg: c.arguments().and_then(|a| {
                        a.arguments()
                            .iter()
                            .next()
                            .map(|x| (x.location().start() as usize, x.location().end() as usize))
                    }),
                },
            });
            cur = c.receiver();
        } else {
            out.push(Link { start, end, kind: LinkKind::Other });
            cur = None;
        }
    }
    out
}

#[derive(Default)]
struct Chains {
    out: Vec<ChainCall>,
    in_paren_args: bool,
    in_hash_value: bool,
}

impl<'pr> Visit<'pr> for Chains {
    fn visit_call_node(&mut self, node: &ruby_prism::CallNode<'pr>) {
        if let Some(recv) = node.receiver() {
            self.out.push(ChainCall {
                name: std::str::from_utf8(node.name().as_slice()).unwrap_or("?").to_string(),
                dot: node.call_operator_loc().map(|l| l.start() as usize),
                receivers: links(recv),
                in_paren_args: self.in_paren_args,
                in_hash_value: self.in_hash_value,
            });
        }
        if let Some(recv) = node.receiver() {
            self.visit(&recv);
        }
        if let Some(args) = node.arguments() {
            if node.opening_loc().is_some() {
                let saved = self.in_paren_args;
                self.in_paren_args = true;
                self.visit(&args.as_node());
                self.in_paren_args = saved;
            } else {
                self.visit(&args.as_node());
            }
        }
        if let Some(block) = node.block() {
            self.visit(&block);
        }
    }
    fn visit_parentheses_node(&mut self, node: &ruby_prism::ParenthesesNode<'pr>) {
        let saved = self.in_paren_args;
        self.in_paren_args = true;
        if let Some(body) = node.body() {
            self.visit(&body);
        }
        self.in_paren_args = saved;
    }
    fn visit_assoc_node(&mut self, node: &ruby_prism::AssocNode<'pr>) {
        self.visit(&node.key());
        let saved = self.in_hash_value;
        self.in_hash_value = true;
        self.visit(&node.value());
        self.in_hash_value = saved;
    }
}

fn run_with(src: &[u8], config: CopConfig) -> Vec<Diagnostic> {
    let result = ruby_prism::parse(src);
    let mut v = Chains::default();
    v.visit(&result.node());
    let source = SourceFile::from_bytes("test.rb", src.to_vec());
    let mut d = Vec::new();
    for c in &v.out {
        MultilineMethodCallIndentation.check_call(&source, c, &config, &mut d);
    }
    d
}

fn run_cop_full(src: &[u8]) -> Vec<Diagnostic> {
    run_with(src, CopConfig::default())
}

#[test]
fn same_line_chain_ignored() {
    assert!(run_cop_full(b"foo.bar.baz\n").is_empty());
}

#[test]
fn aligned_dots_accepted_and_misaligned_reported() {
    assert!(run_cop_full(b"foo\n  .bar\n  .baz\n").is_empty());
    let d = run_cop_full(b"foo\n  .bar\n    .baz\n");
    assert_eq!(d.len(), 1);
    assert_eq!(d[0].message, "Align `.baz` with `foo` on line 1.");
    assert_eq!((d[0].location.line, d[0].location.column), (3, 4));
}

#[test]
fn assignment_chain_aligns_with_root() {
    let d = run_cop_full(b"bar = Foo\n  .a\n");
    assert_eq!(d.len(), 1);
    assert_eq!(d[0].message, "Align `.a` with `Foo` on line 1.");
    assert!(run_cop_full(b"bar = Foo\n      .a\n").is_empty());
}

#[test]
fn indented_style_message() {
    let config = CopConfig::default().with_option("EnforcedStyle", ConfigValue::Str("indented".into()));
    assert!(run_with(b"foo\n  .bar\n", config).is_empty());
    let config = CopConfig::default().with_option("EnforcedStyle", ConfigValue::Str("indented".into()));
    let d = run_with(b"foo\n    .bar\n", config);
    assert_eq!(d.len(), 1);
    assert_eq!(d[0].message, "Use 2 (not 4) spaces for indentation of a chained method call.");
}

#[test]
fn chain_inside_parenthesized_arguments_is_skipped() {
    assert!(run_cop_full(b"puts(foo\n  .bar\n      .baz)\n").is_empty());
}
