use nitrocop::cop::layout::multiline_hash_brace_layout::{HashSite, MultilineHashBraceLayout};
use nitrocop::cop::{ConfigValue, CopConfig};
use nitrocop::correction::{Correction, CorrectionSet};
use nitrocop::diagnostic::Diagnostic;
use nitrocop::parse::source::SourceFile;
use ruby_prism::Visit;

fn contains_heredoc(node: &ruby_prism::Node<'_>) -> bool {
    if let Some(s) = node.as_interpolated_string_node() {
        if let Some(open) = s.opening_loc() {
            return open.as_slice().starts_with(b"<<");
        }
    }
    if let Some(s) = node.as_string_node() {
        if let Some(open) = s.opening_loc() {
            return open.as_slice().starts_with(b"<<");
        }
    }
    if let Some(call) = node.as_call_node() {
        if let Some(recv) = call.receiver() {
            if contains_heredoc(&recv) {
                return true;
            }
        }
        if let Some(args) = call.arguments() {
            for arg in args.arguments().iter() {
                if contains_heredoc(&arg) {
                    return true;
                }
            }
        }
    }
    if let Some(assoc) = node.as_assoc_node() {
        return contains_heredoc(&assoc.value());
    }
    false
}

struct Hashes {
    sites: Vec<HashSite>,
}

impl<'pr> Visit<'pr> for Hashes {
    fn visit_hash_node(&mut self, node: &ruby_prism::HashNode<'pr>) {
        let elements: Vec<ruby_prism::Node<'pr>> = node.elements().iter().collect();
        let first_start = elements.first().map(|e| e.location().start() as usize).unwrap_or(0);
        let last_end = elements.last().map(|e| e.location().end() as usize).unwrap_or(0);
        self.sites.push(HashSite {
            braces: node.opening_loc().as_slice() == b"{" && node.closing_loc().as_slice() == b"}",
            opening_start: node.opening_loc().start() as usize,
            closing_start: node.closing_loc().start() as usize,
            closing_end: node.closing_loc().end() as usize,
            element_count: elements.len(),
            first_start,
            last_end,
            last_has_heredoc: elements.last().map(contains_heredoc).unwrap_or(false),
        });
        ruby_prism::visit_hash_node(self, node);
    }
}

fn run_with(src: &[u8], config: &CopConfig) -> (Vec<Diagnostic>, Vec<Correction>) {
    let result = ruby_prism::parse(src);
    let mut h = Hashes { sites: Vec::new() };
    h.visit(&result.node());
    let source = SourceFile::from_bytes("test.rb", src.to_vec());
    let mut diags = Vec::new();
    let mut corrs = Vec::new();
    for s in &h.sites {
        MultilineHashBraceLayout.check_node(&source, config, s, &mut diags, &mut corrs, true);
    }
    (diags, corrs)
}

fn run_cop_full(src: &[u8]) -> Vec<Diagnostic> {
    run_with(src, &CopConfig::default()).0
}

#[test]
fn earlier_heredoc_still_checks_closing_brace() {
    let source = br#"config = { subject: <<~BODY,
             body line
           BODY
           attachment: "report.yml"
}
"#;
    let diagnostics = run_cop_full(source);
    assert_eq!(diagnostics.len(), 1, "Expected one offense: {diagnostics:?}");
}

#[test]
fn symmetrical_closing_brace_moved_to_last_element_line() {
    let src = b"x = { a: 1,\n  b: 2\n}\n";
    let (d, c) = run_with(src, &CopConfig::default());
    assert_eq!(d.len(), 1);
    assert_eq!((d[0].location.line, d[0].location.column), (3, 0));
    assert_eq!(
        d[0].message,
        "Closing hash brace must be on the same line as the last hash element when opening brace is on the same line as the first hash element."
    );
    assert_eq!(CorrectionSet::from_vec(c).apply(src), b"x = { a: 1,\n  b: 2}\n".to_vec());
}

#[test]
fn symmetrical_brace_on_own_line_is_fine() {
    assert!(run_cop_full(b"x = {\n  a: 1,\n  b: 2\n}\n").is_empty());
    assert!(run_cop_full(b"x = { a: 1, b: 2 }\n").is_empty());
}

#[test]
fn new_line_style_moves_brace_down_with_indent() {
    let config = CopConfig::default().with_option("EnforcedStyle", ConfigValue::Str("new_line".to_string()));
    let src = b"  x = {\n    a: 1,\n    b: 2 }\n";
    let (d, c) = run_with(src, &config);
    assert_eq!(d.len(), 1);
    assert_eq!(d[0].message, "Closing hash brace must be on the line after the last hash element.");
    assert_eq!(CorrectionSet::from_vec(c).apply(src), b"  x = {\n    a: 1,\n    b: 2\n  }\n".to_vec());
}
