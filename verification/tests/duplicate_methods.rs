use nitrocop::cop::lint::duplicate_methods::{
    DefReceiver, DupArg, MethodTracker, ScopeKind, ScopeReceiver,
};
use nitrocop::diagnostic::Diagnostic;
use nitrocop::parse::source::SourceFile;
use ruby_prism::Visit;

fn utf8(b: &[u8]) -> String {
    std::str::from_utf8(b).unwrap_or("").to_string()
}

fn path_name(p: &ruby_prism::ConstantPathNode<'_>) -> String {
    let child = p.name().map(|n| utf8(n.as_slice())).unwrap_or_default();
    if let Some(parent) = p.parent() {
        if let Some(r) = parent.as_constant_read_node() {
            return format!("{}::{child}", utf8(r.name().as_slice()));
        }
        if let Some(pp) = parent.as_constant_path_node() {
            return format!("{}::{child}", path_name(&pp));
        }
    }
    child
}

fn const_name(n: ruby_prism::Node<'_>) -> String {
    if let Some(r) = n.as_constant_read_node() {
        return utf8(r.name().as_slice());
    }
    if let Some(p) = n.as_constant_path_node() {
        return path_name(&p);
    }
    String::new()
}

fn dup_arg(n: &ruby_prism::Node<'_>) -> DupArg {
    if let Some(s) = n.as_symbol_node() {
        return DupArg::Name(s.unescaped().to_vec());
    }
    if let Some(s) = n.as_string_node() {
        return DupArg::Name(s.unescaped().to_vec());
    }
    if n.as_true_node().is_some() {
        return DupArg::True;
    }
    DupArg::Other
}

struct Walk<'a> {
    source: &'a SourceFile,
    t: MethodTracker,
    d: Vec<Diagnostic>,
}

impl Walk<'_> {
    fn def(&mut self, node: &ruby_prism::DefNode<'_>) {
        let name = utf8(node.name().as_slice());
        let receiver = match node.receiver() {
            None => DefReceiver::Bare,
            Some(r) if r.as_self_node().is_some() => DefReceiver::SelfNode,
            Some(r) => match r.as_constant_read_node() {
                Some(c) => DefReceiver::Const(utf8(c.name().as_slice())),
                None => DefReceiver::Other,
            },
        };
        self.t.check_def(
            self.source,
            &name,
            &receiver,
            node.location().start() as usize,
            node.def_keyword_loc().start() as usize,
            &mut self.d,
        );
        self.t.enter_def(name);
        if let Some(body) = node.body() {
            self.visit(&body);
        }
        self.t.leave_def();
    }
}

impl<'pr> Visit<'pr> for Walk<'_> {
    fn visit_class_node(&mut self, node: &ruby_prism::ClassNode<'pr>) {
        self.t.enter_scope(const_name(node.constant_path()));
        if let Some(body) = node.body() {
            self.visit(&body);
        }
        self.t.leave_scope();
    }
    fn visit_module_node(&mut self, node: &ruby_prism::ModuleNode<'pr>) {
        self.t.enter_scope(const_name(node.constant_path()));
        if let Some(body) = node.body() {
            self.visit(&body);
        }
        self.t.leave_scope();
    }
    fn visit_singleton_class_node(&mut self, node: &ruby_prism::SingletonClassNode<'pr>) {
        let expr = node.expression();
        if expr.as_self_node().is_some() {
            let token = self.t.enter_singleton_self();
            if let Some(body) = node.body() {
                self.visit(&body);
            }
            self.t.leave_singleton_self(token);
        } else {
            let name = if let Some(c) = expr.as_constant_read_node() {
                utf8(c.name().as_slice())
            } else if let Some(c) = expr.as_call_node() {
                utf8(c.name().as_slice())
            } else {
                return;
            };
            let saved = self.t.enter_foreign_singleton(name);
            if let Some(body) = node.body() {
                self.visit(&body);
            }
            self.t.restore_scopes(saved);
        }
    }
    fn visit_def_node(&mut self, node: &ruby_prism::DefNode<'pr>) {
        self.def(node);
    }
    fn visit_alias_method_node(&mut self, node: &ruby_prism::AliasMethodNode<'pr>) {
        let new = node.new_name().as_symbol_node().map(|s| s.unescaped().to_vec());
        let old = node.old_name().as_symbol_node().map(|s| s.unescaped().to_vec());
        self.t.check_alias(self.source, &new, &old, node.location().start() as usize, &mut self.d);
    }
    fn visit_call_node(&mut self, node: &ruby_prism::CallNode<'pr>) {
        let method = utf8(node.name().as_slice());
        if matches!(method.as_str(), "private" | "protected" | "public") {
            if let Some(arguments) = node.arguments() {
                let args: Vec<_> = arguments.arguments().iter().collect();
                if args.len() == 1 {
                    if let Some(d) = args[0].as_def_node() {
                        self.def(&d);
                        return;
                    }
                }
            }
        }
        let receiver = match node.receiver() {
            None => ScopeReceiver::Implicit,
            Some(r) => {
                if let Some(c) = r.as_constant_read_node() {
                    ScopeReceiver::ConstRead(utf8(c.name().as_slice()))
                } else if let Some(p) = r.as_constant_path_node() {
                    ScopeReceiver::Const(path_name(&p))
                } else {
                    ScopeReceiver::Other
                }
            }
        };
        if let Some(kind) = MethodTracker::scope_kind(&method, &receiver, node.block().is_some()) {
            match kind {
                ScopeKind::DynamicClassNew => {
                    if let Some(block) = node.block() {
                        let saved = self.t.enter_anonymous();
                        self.visit(&block);
                        self.t.leave_anonymous(saved);
                    }
                    return;
                }
                ScopeKind::ImplicitClassEval => {
                    let name = self.t.current_scope_name();
                    self.t.enter_scope(name);
                }
                ScopeKind::Named(name) => self.t.enter_scope(name),
            }
            if let Some(block) = node.block() {
                self.visit(&block);
            }
            self.t.leave_scope();
            return;
        }
        if let Some(arguments) = node.arguments() {
            let args: Vec<DupArg> = arguments.arguments().iter().map(|a| dup_arg(&a)).collect();
            self.t.check_call(self.source, &method, &args, node.location().start() as usize, &mut self.d);
        }
        if let Some(recv) = node.receiver() {
            self.visit(&recv);
        }
        if let Some(arguments) = node.arguments() {
            for arg in arguments.arguments().iter() {
                self.visit(&arg);
            }
        }
        if let Some(block) = node.block() {
            self.t.enter_plain_block();
            self.visit(&block);
            self.t.leave_plain_block();
        }
    }
    fn visit_constant_write_node(&mut self, node: &ruby_prism::ConstantWriteNode<'pr>) {
        let value = node.value();
        if let Some(call) = value.as_call_node() {
            if call.name().as_slice() == b"new" && call.block().is_some() {
                if let Some(r) = call.receiver().and_then(|r| r.as_constant_read_node()) {
                    let n = r.name().as_slice();
                    if n == b"Class" || n == b"Module" {
                        self.t.enter_scope(utf8(node.name().as_slice()));
                        if let Some(block) = call.block() {
                            self.visit(&block);
                        }
                        self.t.leave_scope();
                        return;
                    }
                }
            }
        }
        self.visit(&value);
    }
    fn visit_if_node(&mut self, node: &ruby_prism::IfNode<'pr>) {
        self.t.enter_conditional();
        ruby_prism::visit_if_node(self, node);
        self.t.leave_conditional();
    }
    fn visit_unless_node(&mut self, node: &ruby_prism::UnlessNode<'pr>) {
        self.t.enter_conditional();
        ruby_prism::visit_unless_node(self, node);
        self.t.leave_conditional();
    }
    fn visit_case_node(&mut self, node: &ruby_prism::CaseNode<'pr>) {
        self.t.enter_conditional();
        ruby_prism::visit_case_node(self, node);
        self.t.leave_conditional();
    }
    fn visit_rescue_node(&mut self, node: &ruby_prism::RescueNode<'pr>) {
        self.t.enter_rescue();
        ruby_prism::visit_rescue_node(self, node);
        self.t.leave_rescue();
    }
    fn visit_ensure_node(&mut self, node: &ruby_prism::EnsureNode<'pr>) {
        self.t.enter_rescue();
        ruby_prism::visit_ensure_node(self, node);
        self.t.leave_rescue();
    }
}

fn run(src: &[u8]) -> Vec<Diagnostic> {
    let result = ruby_prism::parse(src);
    let source = SourceFile::from_bytes("test.rb", src.to_vec());
    let mut w = Walk { source: &source, t: MethodTracker::new(), d: Vec::new() };
    w.visit(&result.node());
    w.d
}

#[test]
fn duplicate_instance_method() {
    let d = run(b"class A\n  def foo; end\n  def foo; end\nend\n");
    assert_eq!(d.len(), 1);
    assert_eq!(d[0].message, "Method `A#foo` is defined at both test.rb:2 and test.rb:3.");
    assert_eq!((d[0].location.line, d[0].location.column), (3, 2));
}

#[test]
fn singleton_and_reopened_classes() {
    let d = run(b"class A\n  def self.foo; end\nend\nclass A\n  class << self\n    def foo; end\n  end\nend\n");
    assert_eq!(d.len(), 1);
    assert_eq!(d[0].message, "Method `A.foo` is defined at both test.rb:2 and test.rb:6.");
}

#[test]
fn attr_and_alias_method() {
    let d = run(b"class A\n  attr_reader :foo\n  def foo; end\n  alias_method :bar, :foo\n  def bar; end\nend\n");
    assert_eq!(d.len(), 2);
    assert_eq!(d[0].message, "Method `A#foo` is defined at both test.rb:2 and test.rb:3.");
    assert_eq!(d[1].message, "Method `A#bar` is defined at both test.rb:4 and test.rb:5.");
}

#[test]
fn no_offense_in_conditionals_blocks_and_distinct_methods() {
    assert!(run(b"class A\n  def foo; end\n  if x\n    def foo; end\n  end\nend\n").is_empty());
    assert!(run(b"class A\n  def foo; end\n  def bar; end\nend\n").is_empty());
    assert!(run(b"describe A do\n  def foo; end\n  def foo; end\nend\n").is_empty());
    assert!(run(b"class A\n  def foo; end\nend\nclass B\n  def foo; end\nend\n").is_empty());
}

#[test]
fn top_level_and_private_def() {
    let d = run(b"def foo; end\nprivate def foo; end\n");
    assert_eq!(d.len(), 1);
    assert_eq!(d[0].message, "Method `Object#foo` is defined at both test.rb:1 and test.rb:2.");
}
