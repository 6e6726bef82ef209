use nitrocop::cop::lint::float_comparison::{ComparisonCall, FloatComparison, Operand};
use nitrocop::diagnostic::Diagnostic;
use nitrocop::parse::source::SourceFile;
use ruby_prism::Visit;

fn operand(n: &ruby_prism::Node<'_>) -> Operand {
    let (s, e) = (n.location().start() as usize, n.location().end() as usize);
    if n.as_float_node().is_some() {
        return Operand::Float { start: s, end: e };
    }
    if n.as_integer_node().is_some() {
        return Operand::Integer { start: s, end: e };
    }
    if n.as_nil_node().is_some() {
        return Operand::Nil;
    }
    if let Some(c) = n.as_call_node() {
        return Operand::Call { name: String::from_utf8_lossy(c.name().as_slice()).into_owned() };
    }
    Operand::Other
}

struct Walk<'a> {
    source: &'a SourceFile,
    d: Vec<Diagnostic>,
}

impl<'pr> Visit<'pr> for Walk<'_> {
    fn visit_call_node(&mut self, node: &ruby_prism::CallNode<'pr>) {
        let call = ComparisonCall {
            start: node.location().start() as usize,
            name: String::from_utf8_lossy(node.name().as_slice()).into_owned(),
            receiver: node.receiver().map(|r| operand(&r)),
            args: node.arguments().map(|a| a.arguments().iter().map(|x| operand(&x)).collect()),
        };
        FloatComparison.check_call(self.source, &call, &mut self.d);
        ruby_prism::visit_call_node(self, node);
    }
    fn visit_when_node(&mut self, node: &ruby_prism::WhenNode<'pr>) {
        let conds: Vec<(usize, Operand)> =
            node.conditions().iter().map(|c| (c.location().start() as usize, operand(&c))).collect();
        FloatComparison.check_when(self.source, &conds, &mut self.d);
        ruby_prism::visit_when_node(self, node);
    }
}

fn run(src: &str) -> Vec<Diagnostic> {
    let result = ruby_prism::parse(src.as_bytes());
    let source = SourceFile::from_bytes("test.rb", src.as_bytes().to_vec());
    let mut w = Walk { source: &source, d: vec![] };
    w.visit(&result.node());
    w.d
}

#[test]
fn float_equality_is_flagged() {
    let d = run("x == 0.1\n");
    assert_eq!(d.len(), 1);
    assert_eq!(d[0].message, "Avoid equality comparisons of floats as they are unreliable.");
    assert_eq!((d[0].location.line, d[0].location.column), (1, 0));
    assert_eq!(run("x != 0.1\n")[0].message, "Avoid inequality comparisons of floats as they are unreliable.");
    assert_eq!(run("x.to_f.eql?(y)\n").len(), 1);
    assert_eq!(run("a.equal?(b.fdiv(2))\n").len(), 1);
    assert_eq!(run("Float(x) == y\n").len(), 1);
}

#[test]
fn float_safe_comparisons() {
    assert!(run("x == 0.0\n").is_empty());
    assert!(run("x.to_f == 0\n").is_empty());
    assert!(run("x.to_f == nil\n").is_empty());
    assert!(run("x == -0.0\n").is_empty());
    assert!(run("x == 1\n").is_empty());
    assert!(run("x < 0.1\n").is_empty());
}

#[test]
fn float_in_when_clause() {
    let d = run("case x\nwhen 1.5, 2\n  foo\nwhen 0.0\n  bar\nend\n");
    assert_eq!(d.len(), 1);
    assert_eq!(d[0].message, "Avoid float literal comparisons in case statements as they are unreliable.");
    assert_eq!((d[0].location.line, d[0].location.column), (2, 5));
}
