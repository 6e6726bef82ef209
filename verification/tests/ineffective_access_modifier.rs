use nitrocop::cop::lint::ineffective_access_modifier::{BodyStmt, IneffectiveAccessModifier};
use nitrocop::correction::{Correction, CorrectionSet};
use nitrocop::diagnostic::Diagnostic;
use nitrocop::parse::source::SourceFile;
use ruby_prism::Visit;

fn stmt(node: &ruby_prism::Node<'_>) -> BodyStmt {
    if let Some(call) = node.as_call_node() {
        let symbol_args = call
            .arguments()
            .map(|a| {
                a.arguments()
                    .iter()
                    .filter_map(|x| x.as_symbol_node().map(|s| s.unescaped().to_vec()))
                    .collect()
            })
            .unwrap_or_default();
        return BodyStmt::Call {
            has_receiver: call.receiver().is_some(),
            has_arguments: call.arguments().is_some(),
            name: String::from_utf8_lossy(call.name().as_slice()).into_owned(),
            start: call.location().start() as usize,
            end: call.location().end() as usize,
            symbol_args,
        };
    }
    if let Some(def) = node.as_def_node() {
        return BodyStmt::Def {
            singleton: def.receiver().is_some(),
            method: def.name().as_slice().to_vec(),
            keyword_start: def.def_keyword_loc().start() as usize,
        };
    }
    BodyStmt::Other
}

struct Bodies {
    bodies: Vec<Vec<BodyStmt>>,
}

impl Bodies {
    fn add(&mut self, body: Option<ruby_prism::Node<'_>>) {
        if let Some(stmts) = body.and_then(|b| b.as_statements_node()) {
            self.bodies.push(stmts.body().iter().map(|n| stmt(&n)).collect());
        }
    }
}

impl<'pr> Visit<'pr> for Bodies {
    fn visit_class_node(&mut self, node: &ruby_prism::ClassNode<'pr>) {
        self.add(node.body());
        ruby_prism::visit_class_node(self, node);
    }
    fn visit_module_node(&mut self, node: &ruby_prism::ModuleNode<'pr>) {
        self.add(node.body());
        ruby_prism::visit_module_node(self, node);
    }
}

fn run(src: &[u8]) -> (Vec<Diagnostic>, Vec<Correction>) {
    let result = ruby_prism::parse(src);
    let mut b = Bodies { bodies: Vec::new() };
    b.visit(&result.node());
    let source = SourceFile::from_bytes("test.rb", src.to_vec());
    let mut diags = Vec::new();
    let mut corrs = Vec::new();
    for body in &b.bodies {
        IneffectiveAccessModifier.check_class_body(&source, body, &mut diags, &mut corrs, true);
    }
    (diags, corrs)
}

#[test]
fn autocorrect_rewrites_ineffective_private_to_public() {
    let input = b"class C\n  private\n\n  def self.method1\n    puts 'hi'\n  end\nend\n";
    let (_d, c) = run(input);
    assert_eq!(
        CorrectionSet::from_vec(c).apply(input),
        b"class C\n  public\n\n  def self.method1\n    puts 'hi'\n  end\nend\n".to_vec()
    );
}

#[test]
fn private_singleton_method_message() {
    let (d, _) = run(b"class C\n  private\n\n  def self.method1\n  end\nend\n");
    assert_eq!(d.len(), 1);
    assert_eq!(
        d[0].message,
        "`private` (on line 2) does not make singleton methods private. Use `private_class_method` or `private` inside a `class << self` block instead."
    );
    assert_eq!((d[0].location.line, d[0].location.column), (4, 2));
}

#[test]
fn protected_message_and_single_correction_per_modifier() {
    let (d, c) = run(b"module M\n  protected\n  def self.a; end\n  def self.b; end\nend\n");
    assert_eq!(d.len(), 2);
    assert!(d[0].message.starts_with("`protected` (on line 2)"));
    assert!(d[0].corrected);
    assert!(!d[1].corrected);
    assert_eq!(c.len(), 1);
}

#[test]
fn private_class_method_silences_offense() {
    let (d, _) = run(b"class C\n  private\n  def self.a; end\n  private_class_method :a\nend\n");
    assert!(d.is_empty());
}

#[test]
fn public_and_instance_methods_are_fine() {
    let (d, _) = run(b"class C\n  private\n  def a; end\n  public\n  def self.b; end\nend\n");
    assert!(d.is_empty());
}
