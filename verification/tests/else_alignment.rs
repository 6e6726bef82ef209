use nitrocop::cop::layout::else_alignment::{ElseAlignment, IfBranches, Subsequent};
use nitrocop::cop::{ConfigValue, CopConfig};
use nitrocop::diagnostic::Diagnostic;
use nitrocop::parse::source::SourceFile;
use ruby_prism::Visit;

#[derive(Default)]
struct Ifs {
    out: Vec<IfBranches>,
}

impl<'pr> Visit<'pr> for Ifs {
    fn visit_if_node(&mut self, node: &ruby_prism::IfNode<'pr>) {
        let mut subsequents = Vec::new();
        let mut cur = node.subsequent();
        while let Some(s) = cur {
            if let Some(e) = s.as_else_node() {
                subsequents.push(Subsequent::Else(e.else_keyword_loc().start() as usize));
                cur = None;
            } else if let Some(i) = s.as_if_node() {
                subsequents.push(Subsequent::Elsif(i.if_keyword_loc().map(|l| l.start() as usize)));
                cur = i.subsequent();
            } else {
                cur = None;
            }
        }
        self.out.push(IfBranches {
            keyword: node.if_keyword_loc().map(|l| (l.start() as usize, l.end() as usize)),
            subsequents,
        });
        ruby_prism::visit_if_node(self, node);
    }
}

fn run_cop_full_with_config(src: &[u8], config: CopConfig) -> Vec<Diagnostic> {
    let result = ruby_prism::parse(src);
    let mut v = Ifs::default();
    v.visit(&result.node());
    let source = SourceFile::from_bytes("test.rb", src.to_vec());
    let mut d = Vec::new();
    for c in &v.out {
        ElseAlignment.check_node(&source, c, &config, &mut d);
    }
    d
}

fn run_cop_full(src: &[u8]) -> Vec<Diagnostic> {
    run_cop_full_with_config(src, CopConfig::default())
}

fn variable() -> CopConfig {
    CopConfig::default().with_option("EndAlignmentStyle", ConfigValue::Str("variable".into()))
}

#[test]
fn ternary_no_offense() {
    assert!(run_cop_full(b"x = true ? 1 : 2\n").is_empty());
}

#[test]
fn assignment_context_else_misaligned() {
    let diags = run_cop_full(b"x = if foo\n  bar\nelse\n  baz\nend\n");
    assert_eq!(diags.len(), 1, "else at col 0 should be flagged when if is at col 4");
    assert_eq!(diags[0].message, "Align `else` with `if`.");
    assert_eq!((diags[0].location.line, diags[0].location.column), (3, 0));
}

#[test]
fn assignment_context_keyword_style_no_offense() {
    let diags = run_cop_full(b"x = if foo\n      bar\n    else\n      baz\n    end\n");
    assert!(diags.is_empty(), "keyword style should not flag else aligned with if: {:?}", diags);
}

#[test]
fn assignment_variable_style_else_aligned_with_variable() {
    let src = b"    server = if cond\n      body\n    else\n      other\n    end\n";
    assert!(run_cop_full_with_config(src, variable()).is_empty());
}

#[test]
fn assignment_variable_style_elsif_aligned_with_variable() {
    let src = b"x = if foo\n  bar\nelsif baz\n  qux\nelse\n  quux\nend\n";
    assert!(run_cop_full_with_config(src, variable()).is_empty());
}

#[test]
fn assignment_variable_style_flags_wrong_column() {
    let src = b"x = if foo\n  bar\n  else\n  baz\nend\n";
    assert_eq!(run_cop_full_with_config(src, variable()).len(), 1);
}

#[test]
fn shovel_operator_variable_style_no_offense() {
    let src = b"html << if error\n  error\nelse\n  default\nend\n";
    assert!(run_cop_full_with_config(src, variable()).is_empty());
}

#[test]
fn shovel_operator_indented_variable_style_no_offense() {
    let src = b"        @buffer << if value.safe?\n          value\n        else\n          escape(value)\n        end\n";
    assert!(run_cop_full_with_config(src, variable()).is_empty());
}

#[test]
fn misaligned_elsif_and_single_line_if() {
    let d = run_cop_full(b"if a\n  1\n elsif b\n  2\nend\n");
    assert_eq!(d.len(), 1);
    assert_eq!(d[0].message, "Align `elsif` with `if`.");
    assert!(run_cop_full(b"if val then 'a' else 'b' end\n").is_empty());
}
