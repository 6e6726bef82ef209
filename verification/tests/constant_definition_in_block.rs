use nitrocop::cop::lint::constant_definition_in_block::{ConstKind, ConstNode, ConstantDefinitionInBlock};
use nitrocop::cop::{ConfigValue, CopConfig};
use nitrocop::diagnostic::Diagnostic;
use nitrocop::parse::source::SourceFile;
use ruby_prism::Visit;

struct Tree {
    nodes: Vec<ConstNode>,
    statements: Vec<bool>,
    has_body: Vec<bool>,
    stack: Vec<usize>,
}

impl<'pr> Visit<'pr> for Tree {
    fn visit_branch_node_enter(&mut self, node: ruby_prism::Node<'pr>) {
        let i = self.nodes.len();
        let kind = if let Some(c) = node.as_call_node() {
            ConstKind::Call { name: String::from_utf8_lossy(c.name().as_slice()).into_owned(), has_block: c.block().is_some() }
        } else if node.as_block_node().is_some() {
            ConstKind::Block { body: vec![] }
        } else if node.as_lambda_node().is_some() {
            ConstKind::Lambda { body: vec![] }
        } else if node.as_constant_write_node().is_some() || node.as_class_node().is_some() || node.as_module_node().is_some() {
            ConstKind::Definition
        } else {
            ConstKind::Other
        };
        let has_body = node.as_block_node().map(|b| b.body().is_some()).or(node.as_lambda_node().map(|l| l.body().is_some())).unwrap_or(false);
        self.nodes.push(ConstNode { start: node.location().start() as usize, kind, children: vec![] });
        self.statements.push(node.as_statements_node().is_some());
        self.has_body.push(has_body);
        if let Some(&p) = self.stack.last() {
            self.nodes[p].children.push(i);
        }
        self.stack.push(i);
    }
    fn visit_branch_node_leave(&mut self) {
        self.stack.pop();
    }
    fn visit_leaf_node_enter(&mut self, node: ruby_prism::Node<'pr>) {
        let i = self.nodes.len();
        self.nodes.push(ConstNode { start: node.location().start() as usize, kind: ConstKind::Other, children: vec![] });
        self.statements.push(false);
        self.has_body.push(false);
        if let Some(&p) = self.stack.last() {
            self.nodes[p].children.push(i);
        }
    }
}

fn build(src: &str) -> Vec<ConstNode> {
    let result = ruby_prism::parse(src.as_bytes());
    let mut t = Tree { nodes: vec![], statements: vec![], has_body: vec![], stack: vec![] };
    t.visit(&result.node());
    for i in 0..t.nodes.len() {
        if !t.has_body[i] {
            continue;
        }
        let last = *t.nodes[i].children.last().unwrap();
        let body = if t.statements[last] { t.nodes[last].children.clone() } else { vec![last] };
        match &mut t.nodes[i].kind {
            ConstKind::Block { body: b } | ConstKind::Lambda { body: b } => *b = body,
            _ => {}
        }
    }
    t.nodes
}

fn run(src: &str, config: CopConfig) -> Vec<Diagnostic> {
    let source = SourceFile::from_bytes("test.rb", src.as_bytes().to_vec());
    let nodes = build(src);
    let mut d = Vec::new();
    ConstantDefinitionInBlock.check_source(&source, &nodes, &config, &mut d);
    d
}

#[test]
fn constant_in_block_is_flagged() {
    let d = run("describe do\n  FOO = 1\n  class Bar; end\n  module Baz; end\nend\n", CopConfig::default());
    assert_eq!(d.len(), 3);
    assert_eq!(d[0].message, "Do not define constants this way within a block.");
    assert_eq!((d[0].location.line, d[0].location.column), (2, 2));
    assert_eq!(d[1].location.line, 3);
    assert_eq!(d[2].location.line, 4);
}

#[test]
fn constant_outside_block_or_nested_is_fine() {
    assert!(run("FOO = 1\nclass A; end\n", CopConfig::default()).is_empty());
    assert!(run("foo do\n  if x\n    FOO = 1\n  end\nend\n", CopConfig::default()).is_empty());
    assert!(run("foo do\n  Mod::FOO = 1\nend\n", CopConfig::default()).is_empty());
}

#[test]
fn constant_single_expression_block_and_lambda() {
    assert_eq!(run("foo { FOO = 1 }\n", CopConfig::default()).len(), 1);
    assert_eq!(run("x = -> { FOO = 1 }\n", CopConfig::default()).len(), 1);
}

#[test]
fn constant_in_allowed_method_block() {
    assert!(run("enums do\n  FOO = 1\nend\n", CopConfig::default()).is_empty());
    let config = CopConfig::default().with_option("AllowedMethods", ConfigValue::List(vec!["describe".to_string()]));
    assert!(run("describe do\n  FOO = 1\nend\n", config).is_empty());
    let config = CopConfig::default().with_option("AllowedMethods", ConfigValue::List(vec![]));
    assert_eq!(run("enums do\n  FOO = 1\nend\n", config).len(), 1);
}

#[test]
fn constant_nested_blocks_report_outer_first() {
    let d = run("a do\n  b do\n    X = 1\n  end\n  Y = 2\nend\n", CopConfig::default());
    assert_eq!(d.len(), 2);
    assert_eq!(d[0].location.line, 5);
    assert_eq!(d[1].location.line, 3);
}
