use nitrocop::cop::lint::return_in_void_context::{is_void_method_exec, ReturnInVoidContext, VoidKind, VoidNode};
use nitrocop::correction::Correction;
use nitrocop::diagnostic::Diagnostic;
use nitrocop::parse::source::SourceFile;
use ruby_prism::Visit;

fn text(b: &[u8]) -> String {
    String::from_utf8_lossy(b).into_owned()
}

fn kind_of(node: &ruby_prism::Node<'_>) -> VoidKind {
    if let Some(d) = node.as_def_node() {
        return VoidKind::Def { name: text(d.name().as_slice()), has_receiver: d.receiver().is_some() };
    }
    if node.as_class_node().is_some() || node.as_module_node().is_some() || node.as_lambda_node().is_some() {
        return VoidKind::Scope;
    }
    if let Some(c) = node.as_call_node() {
        return VoidKind::Call { name: text(c.name().as_slice()), has_block: c.block().is_some() };
    }
    if let Some(r) = node.as_return_node() {
        return VoidKind::Return { args_end: r.arguments().map(|a| a.location().end() as usize) };
    }
    VoidKind::Other
}

struct Tree {
    nodes: Vec<VoidNode>,
    stack: Vec<usize>,
}

impl<'pr> Visit<'pr> for Tree {
    fn visit_branch_node_enter(&mut self, node: ruby_prism::Node<'pr>) {
        let i = self.nodes.len();
        self.nodes.push(VoidNode { start: node.location().start() as usize, kind: kind_of(&node), children: vec![] });
        if let Some(&p) = self.stack.last() {
            self.nodes[p].children.push(i);
        }
        self.stack.push(i);
    }
    fn visit_branch_node_leave(&mut self) {
        self.stack.pop();
    }
}

fn run(src: &str, autocorrect: bool) -> (Vec<Diagnostic>, Vec<Correction>) {
    let result = ruby_prism::parse(src.as_bytes());
    let source = SourceFile::from_bytes("test.rb", src.as_bytes().to_vec());
    let mut t = Tree { nodes: vec![], stack: vec![] };
    t.visit(&result.node());
    let mut d = Vec::new();
    let mut c = Vec::new();
    ReturnInVoidContext.check_source(&source, &t.nodes, &mut d, &mut c, autocorrect);
    (d, c)
}

#[test]
fn return_in_initialize_is_flagged_and_corrected() {
    let src = "class A\n  def initialize\n    return :qux if x?\n  end\nend\n";
    let (d, c) = run(src, true);
    assert_eq!(d.len(), 1);
    assert_eq!(d[0].message, "Do not return a value in `initialize`.");
    assert_eq!((d[0].location.line, d[0].location.column), (3, 4));
    assert!(d[0].corrected);
    let mut fixed = src.to_string();
    fixed.replace_range(c[0].start..c[0].end, &c[0].replacement);
    assert_eq!(fixed, "class A\n  def initialize\n    return if x?\n  end\nend\n");
}

#[test]
fn return_in_setters_is_flagged() {
    assert_eq!(run("def foo=(x)\n  return 1\nend\n", false).0[0].message, "Do not return a value in `foo=`.");
    assert_eq!(run("def []=(k, v)\n  return 1\nend\n", false).0.len(), 1);
    assert_eq!(run("def self.foo=(x)\n  return 1\nend\n", false).0.len(), 1);
}

#[test]
fn return_without_value_or_in_other_methods_is_fine() {
    assert!(run("def initialize\n  return\nend\n", false).0.is_empty());
    assert!(run("def foo\n  return 1\nend\n", false).0.is_empty());
    assert!(run("def ==(o)\n  return true\nend\n", false).0.is_empty());
    assert!(run("def self.initialize\n  return 1\nend\n", false).0.is_empty());
}

#[test]
fn return_inside_scopes_is_fine() {
    assert!(run("def initialize\n  f = lambda { return 1 }\nend\n", false).0.is_empty());
    assert!(run("def initialize\n  f = -> { return 1 }\nend\n", false).0.is_empty());
    assert!(run("def initialize\n  define_method(:x) { return 1 }\nend\n", false).0.is_empty());
    assert!(run("def initialize\n  def helper\n    return 1\n  end\nend\n", false).0.is_empty());
    assert_eq!(run("def initialize\n  each { return 1 }\nend\n", false).0.len(), 1);
}

#[test]
fn return_without_autocorrect_leaves_no_edit() {
    let (d, c) = run("def initialize\n  return 1\nend\n", false);
    assert!(!d[0].corrected);
    assert!(c.is_empty());
}

#[test]
fn void_method_names() {
    for n in ["initialize", "[]=", "foo=", "a="] {
        assert!(is_void_method_exec(&n.to_string()), "{}", n);
    }
    for n in ["==", "===", "!=", "<=", ">=", "<=>", "=~", "foo", ""] {
        assert!(!is_void_method_exec(&n.to_string()), "{}", n);
    }
}
