use nitrocop::cop::lint::empty_expression::{EmptyExpression, ExpressionSite};
use nitrocop::cop::lint::flip_flop::FlipFlop;
use nitrocop::cop::lint::rand_one::{RandArg, RandCall, RandOne};
use nitrocop::cop::lint::useless_else_without_rescue::UselessElseWithoutRescue;
use nitrocop::cop::node::ConstantReceiver;
use nitrocop::correction::{Correction, CorrectionSet};
use nitrocop::diagnostic::Diagnostic;
use nitrocop::parse::source::SourceFile;
use ruby_prism::Visit;

struct Facts<'a> {
    src: &'a [u8],
    exprs: Vec<ExpressionSite>,
    flip_flops: Vec<(usize, usize)>,
    rand_calls: Vec<RandCall>,
}

fn text(src: &[u8], l: ruby_prism::Location<'_>) -> Vec<u8> {
    src[l.start() as usize..l.end() as usize].to_vec()
}

fn rand_arg(src: &[u8], n: &ruby_prism::Node<'_>) -> RandArg {
    if let Some(i) = n.as_integer_node() {
        return RandArg::Integer(text(src, i.location()));
    }
    if let Some(f) = n.as_float_node() {
        return RandArg::Float(text(src, f.location()));
    }
    if let Some(c) = n.as_call_node() {
        if c.name().as_slice() == b"-@" {
            if let Some(r) = c.receiver() {
                if let Some(i) = r.as_integer_node() {
                    return RandArg::NegatedInteger(text(src, i.location()));
                }
                if let Some(f) = r.as_float_node() {
                    return RandArg::NegatedFloat(text(src, f.location()));
                }
            }
        }
    }
    RandArg::Other
}

fn receiver(n: &ruby_prism::Node<'_>) -> ConstantReceiver {
    if let Some(c) = n.as_constant_read_node() {
        return ConstantReceiver::Read(String::from_utf8_lossy(c.name().as_slice()).into_owned());
    }
    if let Some(c) = n.as_constant_path_node() {
        return ConstantReceiver::Path {
            has_parent: c.parent().is_some(),
            name: c.name().map(|x| String::from_utf8_lossy(x.as_slice()).into_owned()),
        };
    }
    ConstantReceiver::Other
}

impl<'pr, 'a> Visit<'pr> for Facts<'a> {
    fn visit_parentheses_node(&mut self, node: &ruby_prism::ParenthesesNode<'pr>) {
        self.exprs.push(ExpressionSite::Parentheses {
            start: node.location().start() as usize,
            end: node.location().end() as usize,
            empty: node.body().is_none(),
        });
        ruby_prism::visit_parentheses_node(self, node);
    }
    fn visit_embedded_statements_node(&mut self, node: &ruby_prism::EmbeddedStatementsNode<'pr>) {
        self.exprs.push(ExpressionSite::Interpolation {
            start: node.location().start() as usize,
            empty: node.statements().is_none(),
        });
        ruby_prism::visit_embedded_statements_node(self, node);
    }
    fn visit_flip_flop_node(&mut self, node: &ruby_prism::FlipFlopNode<'pr>) {
        self.flip_flops.push((node.location().start() as usize, node.location().end() as usize));
        ruby_prism::visit_flip_flop_node(self, node);
    }
    fn visit_call_node(&mut self, node: &ruby_prism::CallNode<'pr>) {
        let args = node
            .arguments()
            .map(|a| a.arguments().iter().map(|x| rand_arg(self.src, &x)).collect())
            .unwrap_or_default();
        self.rand_calls.push(RandCall {
            name: String::from_utf8_lossy(node.name().as_slice()).into_owned(),
            receiver: node.receiver().map(|r| receiver(&r)),
            args,
            start: node.location().start() as usize,
            end: node.location().end() as usize,
        });
        ruby_prism::visit_call_node(self, node);
    }
}

fn run(src: &[u8]) -> (Vec<Diagnostic>, Vec<Correction>) {
    let result = ruby_prism::parse(src);
    let mut f = Facts { src, exprs: Vec::new(), flip_flops: Vec::new(), rand_calls: Vec::new() };
    f.visit(&result.node());
    let source = SourceFile::from_bytes("test.rb", src.to_vec());
    let mut d = Vec::new();
    let mut c = Vec::new();
    for e in &f.exprs {
        EmptyExpression.check_node(&source, e, &mut d, &mut c, true);
    }
    for &(a, b) in &f.flip_flops {
        FlipFlop.check_node(&source, a, b, &mut d, &mut c, true);
    }
    for r in &f.rand_calls {
        RandOne.check_node(&source, r, &mut d, &mut c, true);
    }
    (d, c)
}

fn assert_cop_autocorrect(input: &[u8], expected: &[u8]) {
    let (_d, c) = run(input);
    assert_eq!(CorrectionSet::from_vec(c).apply(input), expected.to_vec());
}

#[test]
fn autocorrect_empty_parentheses_to_nil() {
    assert_cop_autocorrect(b"x = ()\n", b"x = nil\n");
}

#[test]
fn empty_interpolation_is_reported_without_correction() {
    let (d, c) = run(b"x = \"a#{}b\"\n");
    assert_eq!(d.len(), 1);
    assert_eq!(d[0].message, "Avoid empty expressions.");
    assert!(!d[0].corrected);
    assert!(c.is_empty());
}

#[test]
fn autocorrect_rewrites_flip_flop_expression_to_false() {
    assert_cop_autocorrect(b"puts x if (x == 5) .. (x == 10)\n", b"puts x if false\n");
}

#[test]
fn flip_flop_message() {
    let (d, _) = run(b"puts x if (x == 5) .. (x == 10)\n");
    assert_eq!(d.len(), 1);
    assert_eq!(d[0].message, "Avoid the use of flip-flop operators.");
    assert_eq!(d[0].location.column, 10);
}

#[test]
fn autocorrect_replaces_rand_one_with_zero() {
    assert_cop_autocorrect(b"x = rand(1)\n", b"x = 0\n");
}

#[test]
fn rand_one_message_and_variants() {
    let (d, _) = run(b"Kernel.rand(-1.0)\n");
    assert_eq!(d.len(), 1);
    assert_eq!(
        d[0].message,
        "`Kernel.rand(-1.0)` always returns `0`. Perhaps you meant `rand(2)` or `rand`?"
    );
    assert!(run(b"rand(2)\n").0.is_empty());
    assert!(run(b"foo.rand(1)\n").0.is_empty());
    assert_eq!(run(b"rand(-1)\n").0.len(), 1);
}

#[test]
fn never_fires() {
    let mut diags: Vec<Diagnostic> = Vec::new();
    UselessElseWithoutRescue.check_node(&mut diags);
    assert!(diags.is_empty(), "No-op cop should never produce diagnostics");
}
