use nitrocop::cop::lint::float_out_of_range::{float_text, FloatOutOfRange};
use nitrocop::cop::lint::triple_quotes::{InterpolatedSite, TripleQuotes};
use nitrocop::correction::{Correction, CorrectionSet};
use nitrocop::diagnostic::Diagnostic;
use nitrocop::parse::source::SourceFile;
use ruby_prism::Visit;

struct Facts<'a> {
    src: &'a [u8],
    strings: Vec<InterpolatedSite>,
    floats: Vec<(usize, usize, Option<bool>)>,
}

impl<'pr, 'a> Visit<'pr> for Facts<'a> {
    fn visit_interpolated_string_node(&mut self, node: &ruby_prism::InterpolatedStringNode<'pr>) {
        let parts = node
            .parts()
            .iter()
            .map(|p| {
                let empty = p.as_string_node().map(|s| s.unescaped().is_empty()).unwrap_or(false);
                (p.location().start() as usize, p.location().end() as usize, empty)
            })
            .collect();
        self.strings.push(InterpolatedSite {
            start: node.location().start() as usize,
            end: node.location().end() as usize,
            parts,
        });
        ruby_prism::visit_interpolated_string_node(self, node);
    }

    fn visit_float_node(&mut self, node: &ruby_prism::FloatNode<'pr>) {
        let (a, b) = (node.location().start() as usize, node.location().end() as usize);
        let text = float_text(&self.src[a..b]);
        let infinite = std::str::from_utf8(&text)
            .ok()
            .and_then(|t| t.parse::<f64>().ok())
            .filter(|v| v.is_infinite())
            .map(|v| v.is_sign_negative());
        self.floats.push((a, b, infinite));
    }
}

fn run_cop_full(src: &[u8]) -> (Vec<Diagnostic>, Vec<Correction>) {
    let result = ruby_prism::parse(src);
    let mut f = Facts { src, strings: Vec::new(), floats: Vec::new() };
    f.visit(&result.node());
    let source = SourceFile::from_bytes("test.rb", src.to_vec());
    let mut d = Vec::new();
    let mut c = Vec::new();
    for s in &f.strings {
        TripleQuotes.check_node(&source, s, &mut d, &mut c, true);
    }
    for &(a, b, inf) in &f.floats {
        FloatOutOfRange.check_node(&source, a, b, inf, &mut d, &mut c, true);
    }
    (d, c)
}

#[test]
fn skip_in_heredoc() {
    let source = b"x = <<~RUBY\n  \"\"\"\n  foo\n  \"\"\"\nRUBY\n";
    let (diags, _) = run_cop_full(source);
    assert!(diags.is_empty(), "Should not fire on triple quotes inside heredoc");
}

#[test]
fn triple_quotes_are_reported_and_collapsed() {
    let src = b"x = \"\"\"\n  foo\n\"\"\"\n";
    let (d, c) = run_cop_full(src);
    assert_eq!(d.len(), 1);
    assert_eq!(d[0].message, "Triple quotes found. Did you mean to use a heredoc?");
    assert_eq!((d[0].location.line, d[0].location.column), (1, 4));
    assert_eq!(CorrectionSet::from_vec(c).apply(src), b"x = \"\n  foo\n\"\n".to_vec());
}

#[test]
fn autocorrect_positive_overflow() {
    let input = b"x = 1.0e309\n";
    let (_d, c) = run_cop_full(input);
    assert_eq!(CorrectionSet::from_vec(c).apply(input), b"x = Float::INFINITY\n".to_vec());
}

#[test]
fn float_in_range_is_fine() {
    let (d, _) = run_cop_full(b"x = 1_000.5e10\ny = 1.7e308\n");
    assert!(d.is_empty());
    assert_eq!(float_text(b"1_000.5"), b"1000.5".to_vec());
}
