use nitrocop::cop::layout::empty_lines_around_access_modifier::{
    is_class_constructor_call, AccessModifierCollector, EmptyLinesAroundAccessModifier,
};
use nitrocop::cop::node::ConstantReceiver;
use nitrocop::cop::{ConfigValue, CopConfig};
use nitrocop::correction::{Correction, CorrectionSet};
use nitrocop::diagnostic::Diagnostic;
use nitrocop::parse::source::SourceFile;
use ruby_prism::Visit;

struct Walker {
    c: AccessModifierCollector,
}

fn name_of(id: ruby_prism::ConstantId<'_>) -> String {
    String::from_utf8_lossy(id.as_slice()).into_owned()
}

fn constant_receiver(node: &ruby_prism::Node<'_>) -> ConstantReceiver {
    if let Some(c) = node.as_constant_read_node() {
        return ConstantReceiver::Read(name_of(c.name()));
    }
    if let Some(c) = node.as_constant_path_node() {
        return ConstantReceiver::Path { has_parent: c.parent().is_some(), name: c.name().map(name_of) };
    }
    ConstantReceiver::Other
}

impl<'pr> Visit<'pr> for Walker {
    fn visit_class_node(&mut self, node: &ruby_prism::ClassNode<'pr>) {
        let opening = match node.superclass() {
            Some(s) => s.location().start() as usize,
            None => node.location().start() as usize,
        };
        self.c.push_class_scope(opening, node.location().end() as usize);
        ruby_prism::visit_class_node(self, node);
        self.c.pop_scope();
    }

    fn visit_module_node(&mut self, node: &ruby_prism::ModuleNode<'pr>) {
        self.c.push_class_scope(node.location().start() as usize, node.location().end() as usize);
        ruby_prism::visit_module_node(self, node);
        self.c.pop_scope();
    }

    fn visit_singleton_class_node(&mut self, node: &ruby_prism::SingletonClassNode<'pr>) {
        self.c.push_class_scope(
            node.expression().location().start() as usize,
            node.location().end() as usize,
        );
        ruby_prism::visit_singleton_class_node(self, node);
        self.c.pop_scope();
    }

    fn visit_def_node(&mut self, node: &ruby_prism::DefNode<'pr>) {
        self.c.push_non_class_scope();
        ruby_prism::visit_def_node(self, node);
        self.c.pop_scope();
    }

    fn visit_lambda_node(&mut self, node: &ruby_prism::LambdaNode<'pr>) {
        self.c.push_non_class_scope();
        ruby_prism::visit_lambda_node(self, node);
        self.c.pop_scope();
    }

    fn visit_call_node(&mut self, node: &ruby_prism::CallNode<'pr>) {
        let name = name_of(node.name());
        self.c.check_call(
            node.receiver().is_some(),
            &name,
            node.arguments().is_some(),
            node.block().is_some(),
            node.location().start() as usize,
        );
        if let Some(receiver) = node.receiver() {
            self.visit(&receiver);
        }
        if let Some(arguments) = node.arguments() {
            self.visit_arguments_node(&arguments);
        }
        if let Some(block) = node.block().and_then(|b| b.as_block_node()) {
            let opening = block.location().start() as usize;
            let closing = block.location().end() as usize;
            let receiver = node.receiver().map(|r| constant_receiver(&r));
            if is_class_constructor_call(&name, &receiver) {
                self.c.push_class_scope(opening, closing);
            } else if node.receiver().is_none() && self.c.in_access_modifier_scope() {
                self.c.push_dsl_block_scope(opening, closing);
            } else {
                self.c.push_non_class_scope();
            }
            ruby_prism::visit_block_node(self, &block);
            self.c.pop_scope();
            return;
        }
        if let Some(arg) = node.block().and_then(|b| b.as_block_argument_node()) {
            self.visit_block_argument_node(&arg);
        }
    }
}

fn run_full(src: &[u8], config: &CopConfig) -> (Vec<Diagnostic>, Vec<Correction>) {
    let result = ruby_prism::parse(src);
    let mut w = Walker { c: AccessModifierCollector::new() };
    w.visit(&result.node());
    let source = SourceFile::from_bytes("test.rb", src.to_vec());
    let mut diags = Vec::new();
    let mut corrs = Vec::new();
    EmptyLinesAroundAccessModifier.check_source(
        &source,
        config,
        &w.c.modifiers,
        &mut diags,
        &mut corrs,
        true,
    );
    (diags, corrs)
}

fn run(src: &[u8]) -> Vec<Diagnostic> {
    run_full(src, &CopConfig::default()).0
}

#[test]
fn modifier_at_body_start_and_followed_by_blank_is_fine() {
    assert!(run(b"class Foo\n  private\n\n  def bar; end\nend\n").is_empty());
}

#[test]
fn missing_blank_after_modifier() {
    let d = run(b"class Foo\n  def a; end\n\n  private\n  def bar; end\nend\n");
    assert_eq!(d.len(), 1);
    assert_eq!(d[0].message, "Keep a blank line after `private`.");
    assert_eq!((d[0].location.line, d[0].location.column), (4, 2));
}

#[test]
fn missing_blank_before_and_after_modifier() {
    let d = run(b"class Foo\n  def a; end\n  protected\n  def bar; end\nend\n");
    assert_eq!(d.len(), 1);
    assert_eq!(d[0].message, "Keep a blank line before and after `protected`.");
}

#[test]
fn autocorrect_inserts_blank_lines() {
    let src = b"class Foo\n  def a; end\n  private\n  def bar; end\nend\n";
    let (d, corrs) = run_full(src, &CopConfig::default());
    assert_eq!(d.len(), 1);
    assert!(d[0].corrected);
    let fixed = CorrectionSet::from_vec(corrs).apply(src);
    assert_eq!(fixed, b"class Foo\n  def a; end\n\n  private\n\n  def bar; end\nend\n".to_vec());
}

#[test]
fn modifier_inside_method_is_ignored() {
    assert!(run(b"class Foo\n  def a\n    x\n    private\n    y\n  end\nend\n").is_empty());
}

#[test]
fn comment_lines_are_skipped_before_modifier() {
    assert!(run(b"class Foo\n  def a; end\n\n  # helpers\n  private\n\n  def b; end\nend\n").is_empty());
}

#[test]
fn modifier_with_trailing_comment_is_checked() {
    let d = run(b"class Foo\n  def a; end\n  private # internals\n  def b; end\nend\n");
    assert_eq!(d.len(), 1);
}

#[test]
fn modifier_with_arguments_is_not_checked() {
    assert!(run(b"class Foo\n  def a; end\n  private :a\n  def b; end\nend\n").is_empty());
}

#[test]
fn only_before_style() {
    let config = CopConfig::default()
        .with_option("EnforcedStyle", ConfigValue::Str("only_before".to_string()));
    let (d, _) = run_full(b"class Foo\n  def a; end\n  private\n  def bar; end\nend\n", &config);
    assert_eq!(d.len(), 1);
    assert_eq!(d[0].message, "Keep a blank line before `private`.");
    let (d2, _) = run_full(b"class Foo\n  def a; end\n\n  private\n  def bar; end\nend\n", &config);
    assert!(d2.is_empty());
}

#[test]
fn modifier_in_class_new_block() {
    let d = run(b"Foo = Class.new do\n  def a; end\n  private\n  def b; end\nend\n");
    assert_eq!(d.len(), 1);
}

#[test]
fn top_level_modifier_is_checked() {
    let d = run(b"def a; end\nprivate\ndef b; end\n");
    assert_eq!(d.len(), 1);
    assert_eq!(d[0].message, "Keep a blank line before and after `private`.");
}
