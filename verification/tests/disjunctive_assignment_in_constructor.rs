use nitrocop::cop::lint::disjunctive_assignment_in_constructor::{DisjunctiveAssignmentInConstructor, InitStatement};
use nitrocop::correction::Correction;
use nitrocop::diagnostic::Diagnostic;
use nitrocop::parse::source::SourceFile;
use ruby_prism::Visit;

fn statement(n: &ruby_prism::Node<'_>) -> InitStatement {
    if let Some(w) = n.as_instance_variable_or_write_node() {
        let op = w.operator_loc();
        return InitStatement::IvarOrWrite { op_start: op.start() as usize, op_end: op.end() as usize };
    }
    if n.as_local_variable_or_write_node().is_some()
        || n.as_class_variable_or_write_node().is_some()
        || n.as_global_variable_or_write_node().is_some()
        || n.as_constant_or_write_node().is_some()
        || n.as_constant_path_or_write_node().is_some()
    {
        return InitStatement::OtherOrWrite;
    }
    InitStatement::Other
}

struct Defs<'a> {
    source: &'a SourceFile,
    d: Vec<Diagnostic>,
    c: Vec<Correction>,
    autocorrect: bool,
}

impl<'pr> Visit<'pr> for Defs<'_> {
    fn visit_def_node(&mut self, node: &ruby_prism::DefNode<'pr>) {
        let name = String::from_utf8_lossy(node.name().as_slice()).into_owned();
        if name != "initialize" {
            ruby_prism::visit_def_node(self, node);
            return;
        }
        let body: Vec<InitStatement> = match node.body() {
            None => vec![],
            Some(b) => match b.as_statements_node() {
                Some(s) => s.body().iter().map(|x| statement(&x)).collect(),
                None => vec![statement(&b)],
            },
        };
        DisjunctiveAssignmentInConstructor.check_def(self.source, &name, &body, &mut self.d, &mut self.c, self.autocorrect);
    }
}

fn run(src: &str, autocorrect: bool) -> (Vec<Diagnostic>, Vec<Correction>) {
    let result = ruby_prism::parse(src.as_bytes());
    let source = SourceFile::from_bytes("test.rb", src.as_bytes().to_vec());
    let mut v = Defs { source: &source, d: vec![], c: vec![], autocorrect };
    v.visit(&result.node());
    (v.d, v.c)
}

#[test]
fn disjunctive_leading_ivar_assignments_flagged() {
    let src = "class A\n  def initialize\n    @x ||= 1\n    y ||= 2\n    @z ||= 3\n    foo\n    @w ||= 4\n  end\nend\n";
    let (d, c) = run(src, true);
    assert_eq!(d.len(), 2);
    assert_eq!(d[0].message, "Unnecessary disjunctive assignment. Use plain assignment.");
    assert_eq!((d[0].location.line, d[0].location.column), (3, 7));
    assert_eq!(d[1].location.line, 5);
    assert!(d[0].corrected);
    assert_eq!(c.len(), 2);
    assert_eq!(c[0].replacement, "=");
    assert_eq!(&src[c[0].start..c[0].end], "||=");
}

#[test]
fn disjunctive_only_in_initialize() {
    assert!(run("def setup\n  @x ||= 1\nend\n", true).0.is_empty());
    assert!(run("def initialize\n  foo\n  @x ||= 1\nend\n", true).0.is_empty());
    assert_eq!(run("def initialize\n  @x ||= 1\nend\n", true).0.len(), 1);
}

#[test]
fn disjunctive_reports_marked_corrected_without_edits() {
    let (d, c) = run("def initialize\n  @x ||= 1\nend\n", false);
    assert_eq!(d.len(), 1);
    assert!(d[0].corrected);
    assert!(c.is_empty());
}
