use nitrocop::cop::layout::first_hash_element_line_break::{FirstHashElementLineBreak, HashLiteral};
use nitrocop::cop::layout::multiline_array_line_breaks::{ArrayLiteral, MultilineArrayLineBreaks};
use nitrocop::cop::{ConfigValue, CopConfig};
use nitrocop::diagnostic::Diagnostic;
use nitrocop::parse::source::SourceFile;
use ruby_prism::Visit;

fn span(l: &ruby_prism::Location<'_>) -> (usize, usize) {
    (l.start() as usize, l.end() as usize)
}

#[derive(Default)]
struct Literals {
    arrays: Vec<ArrayLiteral>,
    hashes: Vec<HashLiteral>,
}

impl<'pr> Visit<'pr> for Literals {
    fn visit_array_node(&mut self, node: &ruby_prism::ArrayNode<'pr>) {
        self.arrays.push(ArrayLiteral {
            has_brackets: node.opening_loc().is_some() && node.closing_loc().is_some(),
            elements: node.elements().iter().map(|e| span(&e.location())).collect(),
        });
        ruby_prism::visit_array_node(self, node);
    }
    fn visit_hash_node(&mut self, node: &ruby_prism::HashNode<'pr>) {
        self.hashes.push(HashLiteral {
            opening: Some(span(&node.opening_loc())),
            closing: Some(span(&node.closing_loc())),
            elements: node.elements().iter().map(|e| span(&e.location())).collect(),
        });
        ruby_prism::visit_hash_node(self, node);
    }
    fn visit_keyword_hash_node(&mut self, node: &ruby_prism::KeywordHashNode<'pr>) {
        self.hashes.push(HashLiteral {
            opening: None,
            closing: None,
            elements: node.elements().iter().map(|e| span(&e.location())).collect(),
        });
        ruby_prism::visit_keyword_hash_node(self, node);
    }
}

fn collect(src: &[u8]) -> (SourceFile, Literals) {
    let result = ruby_prism::parse(src);
    let mut l = Literals::default();
    l.visit(&result.node());
    (SourceFile::from_bytes("test.rb", src.to_vec()), l)
}

fn run_arrays(src: &[u8], config: CopConfig) -> Vec<Diagnostic> {
    let (source, l) = collect(src);
    let mut d = Vec::new();
    for a in &l.arrays {
        MultilineArrayLineBreaks.check_array(&source, a, &config, &mut d);
    }
    d
}

fn run_hashes(src: &[u8], config: CopConfig) -> Vec<Diagnostic> {
    let (source, l) = collect(src);
    let mut d = Vec::new();
    for h in &l.hashes {
        FirstHashElementLineBreak.check_hash(&source, h, &config, &mut d);
    }
    d
}

fn allow_final() -> CopConfig {
    CopConfig::default().with_option("AllowMultilineFinalElement", ConfigValue::Bool(true))
}

#[test]
fn allow_multiline_final_element_ignores_multiline_last_hash() {
    assert!(run_arrays(b"[1, 2, 3, {\n  a: 1\n}]\n", allow_final()).is_empty());
}

#[test]
fn allow_multiline_final_element_still_flags_non_last() {
    let diags = run_arrays(b"[1, 2, 3, {\n  a: 1\n}, 4]\n", allow_final());
    assert_eq!(diags.len(), 3);
}

#[test]
fn allow_multiline_final_element_no_offense_when_each_on_own_line() {
    assert!(run_arrays(b"[\n  1,\n  2,\n  foo(\n    bar\n  )\n]\n", allow_final()).is_empty());
}

#[test]
fn multiline_array_flags_items_sharing_a_line() {
    let d = run_arrays(b"[\n  a, b,\n  c\n]\n", CopConfig::default());
    assert_eq!(d.len(), 1);
    assert_eq!(d[0].message, "Each item in a multi-line array must start on a separate line.");
    assert_eq!((d[0].location.line, d[0].location.column), (2, 5));
}

#[test]
fn multiline_array_single_line_elements_are_fine() {
    assert!(run_arrays(b"[\n  1, 2, 3,\n]\n", CopConfig::default()).is_empty());
    assert!(run_arrays(b"[1, 2, 3]\n", CopConfig::default()).is_empty());
    assert!(run_arrays(b"a = 1, 2\n", CopConfig::default()).is_empty());
    assert!(run_arrays(b"[{\n a: 1\n}]\n", CopConfig::default()).is_empty());
}

#[test]
fn multiline_array_multiline_last_without_option() {
    assert_eq!(run_arrays(b"[1, 2, 3, {\n  a: 1\n}]\n", CopConfig::default()).len(), 3);
}

#[test]
fn allow_multiline_final_element_true_skips_single_pair_hash() {
    let source = b"{\"nodes\" => [\n  { \"id\" => 1 },\n  { \"id\" => 2 }\n]}\n";
    let diags = run_hashes(source, allow_final());
    assert!(diags.is_empty());
}

#[test]
fn first_hash_element_flagged_on_brace_line() {
    let d = run_hashes(b"x = { a: 1,\n  b: 2 }\n", CopConfig::default());
    assert_eq!(d.len(), 1);
    assert_eq!(d[0].message, "Add a line break before the first element of a multi-line hash.");
    assert_eq!((d[0].location.line, d[0].location.column), (1, 6));
}

#[test]
fn first_hash_element_accepted_forms() {
    assert!(run_hashes(b"x = {\n  a: 1,\n  b: 2\n}\n", CopConfig::default()).is_empty());
    assert!(run_hashes(b"x = { a: 1, b: 2 }\n", CopConfig::default()).is_empty());
    assert!(run_hashes(b"x = { a: 1, b: 2\n}\n", CopConfig::default()).is_empty());
    assert!(run_hashes(b"foo(a: 1,\n  b: 2)\n", CopConfig::default()).is_empty());
    assert_eq!(run_hashes(b"{\"nodes\" => [\n  1\n]}\n", CopConfig::default()).len(), 1);
}
