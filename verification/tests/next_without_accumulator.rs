use nitrocop::cop::lint::next_without_accumulator::{CallBlock, NextKind, NextNode, NextWithoutAccumulator};
use nitrocop::correction::Correction;
use nitrocop::diagnostic::Diagnostic;
use nitrocop::parse::source::SourceFile;
use ruby_prism::Visit;

struct Tree {
    nodes: Vec<NextNode>,
    stack: Vec<usize>,
    block_of: Vec<Option<bool>>,
}

fn accumulator(b: &ruby_prism::BlockNode<'_>) -> Option<String> {
    b.parameters()
        .and_then(|p| p.as_block_parameters_node())
        .and_then(|bp| bp.parameters())
        .and_then(|p| p.requireds().iter().next())
        .and_then(|f| f.as_required_parameter_node())
        .and_then(|rp| std::str::from_utf8(rp.name().as_slice()).ok().map(|s| s.to_string()))
}

impl<'pr> Visit<'pr> for Tree {
    fn visit_branch_node_enter(&mut self, node: ruby_prism::Node<'pr>) {
        let i = self.nodes.len();
        let mut has_body = None;
        let kind = if let Some(c) = node.as_call_node() {
            let block = c.block().and_then(|b| b.as_block_node()).map(|b| CallBlock { accumulator: accumulator(&b), body: None });
            NextKind::Call { name: String::from_utf8_lossy(c.name().as_slice()).into_owned(), has_receiver: c.receiver().is_some(), block }
        } else if let Some(n) = node.as_next_node() {
            NextKind::Next { has_args: n.arguments().is_some() }
        } else if node.as_def_node().is_some() || node.as_class_node().is_some() || node.as_module_node().is_some() {
            NextKind::Definition
        } else {
            if let Some(b) = node.as_block_node() {
                has_body = Some(b.body().is_some());
            }
            NextKind::Other
        };
        self.nodes.push(NextNode { start: node.location().start() as usize, kind, children: vec![] });
        self.block_of.push(has_body);
        if let Some(&p) = self.stack.last() {
            self.nodes[p].children.push(i);
        }
        self.stack.push(i);
    }
    fn visit_branch_node_leave(&mut self) {
        self.stack.pop();
    }
}

fn build(src: &str) -> Vec<NextNode> {
    let result = ruby_prism::parse(src.as_bytes());
    let mut t = Tree { nodes: vec![], stack: vec![], block_of: vec![] };
    t.visit(&result.node());
    for i in 0..t.nodes.len() {
        let kids = t.nodes[i].children.clone();
        if let NextKind::Call { block: Some(_), .. } = &t.nodes[i].kind {
            let blk = kids.iter().copied().find(|&k| t.block_of[k].is_some());
            let body = blk.and_then(|b| if t.block_of[b] == Some(true) { t.nodes[b].children.last().copied() } else { None });
            if let NextKind::Call { block: Some(cb), .. } = &mut t.nodes[i].kind {
                cb.body = body;
            }
        }
    }
    t.nodes
}

fn run(src: &str, autocorrect: bool) -> (Vec<Diagnostic>, Vec<Correction>) {
    let source = SourceFile::from_bytes("test.rb", src.as_bytes().to_vec());
    let nodes = build(src);
    let mut d = Vec::new();
    let mut c = Vec::new();
    NextWithoutAccumulator.check_source(&source, &nodes, &mut d, &mut c, autocorrect);
    (d, c)
}

#[test]
fn next_without_accumulator_in_reduce() {
    let src = "result = (1..4).reduce(0) do |acc, i|\n  next if i.odd?\n  acc + i\nend\n";
    let (d, c) = run(src, true);
    assert_eq!(d.len(), 1);
    assert_eq!(d[0].message, "Use `next` with an accumulator argument in a `reduce`.");
    assert_eq!((d[0].location.line, d[0].location.column), (2, 2));
    assert!(d[0].corrected);
    let mut fixed = src.to_string();
    fixed.replace_range(c[0].start..c[0].end, &c[0].replacement);
    assert_eq!(fixed, "result = (1..4).reduce(0) do |acc, i|\n  next acc if i.odd?\n  acc + i\nend\n");
}

#[test]
fn next_without_accumulator_inject_and_unless() {
    assert_eq!(run("x.inject { |m, v| next unless v; m }\n", false).0.len(), 1);
}

#[test]
fn next_with_argument_or_outside_reduce_is_fine() {
    assert!(run("x.reduce(0) { |acc, i| next acc if i.odd?; acc + i }\n", true).0.is_empty());
    assert!(run("x.each { |i| next if i.odd? }\n", true).0.is_empty());
    assert!(run("reduce(0) { |acc, i| next }\n", true).0.is_empty());
}

#[test]
fn next_in_definitions_is_not_searched() {
    assert!(run("def f\n  x.reduce(0) { |acc, i| next }\nend\n", true).0.is_empty());
}

#[test]
fn next_without_named_accumulator_has_no_edit() {
    let (d, c) = run("x.reduce(0) { next }\n", true);
    assert_eq!(d.len(), 1);
    assert!(!d[0].corrected);
    assert!(c.is_empty());
}
