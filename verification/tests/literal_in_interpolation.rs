use nitrocop::cop::lint::literal_in_interpolation::{
    Interpolation, LitKind, LitNode, LiteralInInterpolation,
};
use nitrocop::correction::{Correction, CorrectionSet};
use nitrocop::diagnostic::Diagnostic;
use nitrocop::parse::source::SourceFile;
use ruby_prism::Visit;

fn span(l: &ruby_prism::Location<'_>) -> (usize, usize) {
    (l.start() as usize, l.end() as usize)
}

fn build(n: &ruby_prism::Node<'_>, out: &mut Vec<LitNode>) -> usize {
    let idx = out.len();
    let (start, end) = span(&n.location());
    out.push(LitNode { start, end, kind: LitKind::Other });
    let kind = if n.as_integer_node().is_some()
        || n.as_float_node().is_some()
        || n.as_rational_node().is_some()
        || n.as_imaginary_node().is_some()
    {
        LitKind::Numeric
    } else if let Some(s) = n.as_string_node() {
        LitKind::Str {
            opening: s.opening_loc().map(|l| span(&l)),
            content: span(&s.content_loc()),
            unescaped: s.unescaped().to_vec(),
        }
    } else if let Some(s) = n.as_symbol_node() {
        LitKind::Sym { unescaped: s.unescaped().to_vec() }
    } else if n.as_nil_node().is_some() {
        LitKind::Nil
    } else if n.as_true_node().is_some() {
        LitKind::True
    } else if n.as_false_node().is_some() {
        LitKind::False
    } else if let Some(a) = n.as_array_node() {
        let elements = a.elements().iter().map(|e| build(&e, out)).collect();
        LitKind::Array { elements }
    } else if let Some(h) = n.as_hash_node() {
        let pairs = h
            .elements()
            .iter()
            .map(|e| e.as_assoc_node().map(|p| (build(&p.key(), out), build(&p.value(), out))))
            .collect();
        LitKind::Hash { pairs }
    } else if let Some(r) = n.as_range_node() {
        let left = r.left().map(|l| build(&l, out));
        let right = r.right().map(|x| build(&x, out));
        LitKind::Range { left, right }
    } else if let Some(s) = n.as_interpolated_string_node() {
        LitKind::InterpolatedStr { opening: s.opening_loc().map(|l| span(&l)) }
    } else {
        LitKind::Other
    };
    out[idx].kind = kind;
    idx
}

struct Walk<'a> {
    source: &'a SourceFile,
    sites: Vec<Interpolation>,
    in_heredoc: bool,
    in_word_array: bool,
    in_regexp: bool,
}

impl<'pr> Visit<'pr> for Walk<'_> {
    fn visit_embedded_statements_node(&mut self, node: &ruby_prism::EmbeddedStatementsNode<'pr>) {
        let mut nodes = Vec::new();
        if let Some(st) = node.statements() {
            if let Some(last) = st.body().iter().last() {
                build(&last, &mut nodes);
            }
        }
        let (start, end) = span(&node.location());
        self.sites.push(Interpolation {
            start,
            end,
            nodes,
            in_heredoc: self.in_heredoc,
            in_word_array: self.in_word_array,
            in_regexp: self.in_regexp,
        });
    }
    fn visit_interpolated_string_node(&mut self, node: &ruby_prism::InterpolatedStringNode<'pr>) {
        let was = self.in_heredoc;
        if LiteralInInterpolation::opens_heredoc(self.source, node.opening_loc().map(|l| span(&l))) {
            self.in_heredoc = true;
        }
        ruby_prism::visit_interpolated_string_node(self, node);
        self.in_heredoc = was;
    }
    fn visit_interpolated_regular_expression_node(
        &mut self,
        node: &ruby_prism::InterpolatedRegularExpressionNode<'pr>,
    ) {
        let was = self.in_regexp;
        self.in_regexp = true;
        ruby_prism::visit_interpolated_regular_expression_node(self, node);
        self.in_regexp = was;
    }
    fn visit_array_node(&mut self, node: &ruby_prism::ArrayNode<'pr>) {
        let was = self.in_word_array;
        if LiteralInInterpolation::opens_word_array(self.source, node.opening_loc().map(|l| span(&l))) {
            self.in_word_array = true;
        }
        ruby_prism::visit_array_node(self, node);
        self.in_word_array = was;
    }
}

fn run(src: &[u8]) -> (Vec<Diagnostic>, Vec<Correction>) {
    let result = ruby_prism::parse(src);
    let source = SourceFile::from_bytes("test.rb", src.to_vec());
    let mut w = Walk { source: &source, sites: Vec::new(), in_heredoc: false, in_word_array: false, in_regexp: false };
    w.visit(&result.node());
    let mut d = Vec::new();
    let mut c = Vec::new();
    for site in &w.sites {
        LiteralInInterpolation.check_interpolation(&source, site, &mut d, &mut c, true);
    }
    (d, c)
}

fn corrected(src: &[u8]) -> String {
    let (_d, c) = run(src);
    String::from_utf8(CorrectionSet::from_vec(c).apply(src)).unwrap()
}

#[test]
fn literal_interpolations_are_inlined() {
    let (d, _) = run(b"\"result is #{42}\"\n");
    assert_eq!(d.len(), 1);
    assert_eq!(d[0].message, "Literal interpolation detected.");
    assert_eq!((d[0].location.line, d[0].location.column), (1, 13));
    assert_eq!(corrected(b"\"result is #{42}\"\n"), "\"result is 42\"\n");
    assert_eq!(corrected(b"\"a#{'b\"c'}d\"\n"), "\"ab\\\"cd\"\n");
    assert_eq!(corrected(b"\"x#{nil}y\"\n"), "\"xy\"\n");
    assert_eq!(corrected(b"\"#{:sym} #{true}\"\n"), "\"sym true\"\n");
    assert_eq!(corrected(b"\"#{1..2}\"\n"), "\"1..2\"\n");
}

#[test]
fn composite_literals_are_reported_without_correction() {
    let (d, c) = run(b"\"#{[1, 2]}\"\n");
    assert_eq!(d.len(), 1);
    assert!(c.is_empty());
    assert!(!d[0].corrected);
    assert_eq!(run(b"\"#{{a: 1}}\"\n").0.len(), 1);
}

#[test]
fn non_literals_and_exclusions() {
    assert!(run(b"\"#{foo}\"\n").0.is_empty());
    assert!(run(b"\"#{[1, foo]}\"\n").0.is_empty());
    assert!(run(b"/#{[1, 2]}/\n").0.is_empty());
    assert!(run(b"%W[#{' '} a]\n").0.is_empty());
    assert_eq!(run(b"%W[#{'b'} a]\n").0.len(), 1);
    assert!(run(b"x = <<~T\n  a#{'  '}\nT\n").0.is_empty());
}
