use nitrocop::cop::lint::require_parentheses::{ReqArgKind, ReqCall, RequireParentheses};
use nitrocop::correction::{Correction, CorrectionSet};
use nitrocop::diagnostic::Diagnostic;
use nitrocop::parse::source::SourceFile;
use ruby_prism::Visit;

fn is_and_or(n: &ruby_prism::Node<'_>) -> bool {
    n.as_and_node().is_some() || n.as_or_node().is_some()
}

fn kind(n: &ruby_prism::Node<'_>) -> ReqArgKind {
    if is_and_or(n) {
        return ReqArgKind::AndOr;
    }
    if let Some(i) = n.as_if_node() {
        return ReqArgKind::If {
            ternary: i.if_keyword_loc().is_none(),
            and_or_condition: is_and_or(&i.predicate()),
        };
    }
    ReqArgKind::Other
}

#[derive(Default)]
struct Calls {
    out: Vec<ReqCall>,
}

impl<'pr> Visit<'pr> for Calls {
    fn visit_call_node(&mut self, node: &ruby_prism::CallNode<'pr>) {
        let args = node.arguments().map(|a| {
            (
                a.arguments()
                    .iter()
                    .map(|x| (x.location().start() as usize, kind(&x)))
                    .collect::<Vec<_>>(),
                a.location().end() as usize,
            )
        });
        self.out.push(ReqCall {
            name: String::from_utf8_lossy(node.name().as_slice()).into_owned(),
            has_block: node.block().is_some(),
            has_opening: node.opening_loc().is_some(),
            args,
            start: node.location().start() as usize,
            end: node.location().end() as usize,
        });
        ruby_prism::visit_call_node(self, node);
    }
}

fn run(src: &[u8]) -> (Vec<Diagnostic>, Vec<Correction>) {
    let result = ruby_prism::parse(src);
    let mut calls = Calls::default();
    calls.visit(&result.node());
    let source = SourceFile::from_bytes("test.rb", src.to_vec());
    let mut d = Vec::new();
    let mut c = Vec::new();
    for call in &calls.out {
        RequireParentheses.check_node(&source, call, &mut d, &mut c, true);
    }
    (d, c)
}

#[test]
fn autocorrect_wraps_predicate_call_args() {
    let input: &[u8] = b"day_is? 'tuesday' || true\n";
    let (_d, c) = run(input);
    assert_eq!(
        CorrectionSet::from_vec(c).apply(input),
        b"day_is?('tuesday' || true)\n".to_vec()
    );
}

#[test]
fn require_parentheses_ternary_first_argument() {
    let (d, _) = run(b"puts ready && synced ? \"ok\" : \"missing\"\n");
    assert_eq!(d.len(), 1);
    assert_eq!(d[0].message, "Use parentheses in the method call to avoid confusion about precedence.");
    assert!(run(b"day_is?('tuesday' || true)\n").0.is_empty());
    assert!(run(b"day_is? 'tuesday'\n").0.is_empty());
}
