use nitrocop::cop::lint::shadowed_argument::{ParamAssignment, ParamUse, ShadowedArgument};
use nitrocop::cop::{ConfigValue, CopConfig};
use nitrocop::correction::{Correction, CorrectionSet};
use nitrocop::diagnostic::Diagnostic;
use nitrocop::parse::source::SourceFile;
use ruby_prism::Visit;

struct Refs {
    name: Vec<u8>,
    out: Vec<(usize, bool)>,
}

impl<'pr> Visit<'pr> for Refs {
    fn visit_local_variable_read_node(&mut self, node: &ruby_prism::LocalVariableReadNode<'pr>) {
        if node.name().as_slice() == self.name.as_slice() {
            self.out.push((node.location().start() as usize, false));
        }
    }
    fn visit_forwarding_super_node(&mut self, node: &ruby_prism::ForwardingSuperNode<'pr>) {
        self.out.push((node.location().start() as usize, true));
    }
    fn visit_def_node(&mut self, _node: &ruby_prism::DefNode<'pr>) {}
    fn visit_class_node(&mut self, _node: &ruby_prism::ClassNode<'pr>) {}
    fn visit_module_node(&mut self, _node: &ruby_prism::ModuleNode<'pr>) {}
}

struct Reads {
    name: Vec<u8>,
    found: bool,
}

impl<'pr> Visit<'pr> for Reads {
    fn visit_local_variable_read_node(&mut self, node: &ruby_prism::LocalVariableReadNode<'pr>) {
        if node.name().as_slice() == self.name.as_slice() {
            self.found = true;
        }
    }
    fn visit_def_node(&mut self, _node: &ruby_prism::DefNode<'pr>) {}
    fn visit_class_node(&mut self, _node: &ruby_prism::ClassNode<'pr>) {}
    fn visit_module_node(&mut self, _node: &ruby_prism::ModuleNode<'pr>) {}
}

fn reads(n: &ruby_prism::Node<'_>, name: &[u8]) -> bool {
    let mut r = Reads { name: name.to_vec(), found: false };
    r.visit(n);
    r.found
}

struct Writes {
    name: Vec<u8>,
    depth: usize,
    out: Vec<ParamAssignment>,
}

impl Writes {
    fn push(&mut self, offset: u32, rhs: bool, shorthand: bool) {
        self.out.push(ParamAssignment {
            offset: offset as usize,
            rhs_uses_param: rhs,
            is_shorthand: shorthand,
            is_conditional: self.depth > 0,
        });
    }
}

impl<'pr> Visit<'pr> for Writes {
    fn visit_local_variable_write_node(&mut self, node: &ruby_prism::LocalVariableWriteNode<'pr>) {
        if node.name().as_slice() == self.name.as_slice() {
            let rhs = reads(&node.value(), &self.name);
            self.push(node.location().start(), rhs, false);
        }
        self.visit(&node.value());
    }
    fn visit_local_variable_or_write_node(&mut self, node: &ruby_prism::LocalVariableOrWriteNode<'pr>) {
        if node.name().as_slice() == self.name.as_slice() {
            self.push(node.location().start(), true, true);
        }
        self.visit(&node.value());
    }
    fn visit_local_variable_operator_write_node(
        &mut self,
        node: &ruby_prism::LocalVariableOperatorWriteNode<'pr>,
    ) {
        if node.name().as_slice() == self.name.as_slice() {
            self.push(node.location().start(), true, true);
        }
        self.visit(&node.value());
    }
    fn visit_if_node(&mut self, node: &ruby_prism::IfNode<'pr>) {
        self.depth += 1;
        ruby_prism::visit_if_node(self, node);
        self.depth -= 1;
    }
    fn visit_block_node(&mut self, node: &ruby_prism::BlockNode<'pr>) {
        self.depth += 1;
        ruby_prism::visit_block_node(self, node);
        self.depth -= 1;
    }
    fn visit_def_node(&mut self, _node: &ruby_prism::DefNode<'pr>) {}
    fn visit_class_node(&mut self, _node: &ruby_prism::ClassNode<'pr>) {}
    fn visit_module_node(&mut self, _node: &ruby_prism::ModuleNode<'pr>) {}
}

#[derive(Default)]
struct Params {
    out: Vec<ParamUse>,
}

impl<'pr> Visit<'pr> for Params {
    fn visit_def_node(&mut self, node: &ruby_prism::DefNode<'pr>) {
        if let (Some(params), Some(body)) = (node.parameters(), node.body()) {
            for req in params.requireds().iter() {
                if let Some(rp) = req.as_required_parameter_node() {
                    let name = rp.name().as_slice().to_vec();
                    let mut refs = Refs { name: name.clone(), out: Vec::new() };
                    refs.visit(&body);
                    let mut writes = Writes { name: name.clone(), depth: 0, out: Vec::new() };
                    writes.visit(&body);
                    self.out.push(ParamUse {
                        name,
                        decl: rp.location().start() as usize,
                        refs: refs.out,
                        assignments: writes.out,
                    });
                }
            }
        }
        if let Some(body) = node.body() {
            self.visit(&body);
        }
    }
}

fn run(src: &[u8]) -> (Vec<Diagnostic>, Vec<Correction>) {
    let result = ruby_prism::parse(src);
    let mut p = Params::default();
    p.visit(&result.node());
    let source = SourceFile::from_bytes("test.rb", src.to_vec());
    let mut d = Vec::new();
    let mut c = Vec::new();
    for u in &p.out {
        ShadowedArgument.check_param(&source, u, &CopConfig::default(), &mut d, &mut c, true);
    }
    (d, c)
}

#[test]
fn autocorrect_renames_shadowed_parameter_declaration() {
    let input: &[u8] = b"def foo(bar)\n  bar = 'something'\n  bar\nend\n";
    let (_d, c) = run(input);
    assert_eq!(
        CorrectionSet::from_vec(c).apply(input),
        b"def foo(bar_arg)\n  bar = 'something'\n  bar\nend\n".to_vec()
    );
}

#[test]
fn shadowed_argument_reported_at_assignment() {
    let (d, _) = run(b"def foo(bar)\n  bar = 'something'\n  bar\nend\n");
    assert_eq!(d.len(), 1);
    assert_eq!(d[0].message, "Argument `bar` was shadowed by a local variable before it was used.");
    assert_eq!((d[0].location.line, d[0].location.column), (2, 2));
}

#[test]
fn shadowed_argument_not_reported_when_read_first_or_unused() {
    assert!(run(b"def foo(bar)\n  puts bar\n  bar = 1\n  bar\nend\n").0.is_empty());
    assert!(run(b"def foo(bar)\n  bar = 42\nend\n").0.is_empty());
    assert!(run(b"def foo(bar)\n  bar = bar + 1\n  bar\nend\n").0.is_empty());
}

#[test]
fn shadowed_argument_after_conditional_reported_at_declaration() {
    let (d, _) = run(b"def foo(bar)\n  bar = 1 if x\n  bar = 2\n  bar\nend\n");
    assert_eq!(d.len(), 1);
    assert_eq!((d[0].location.line, d[0].location.column), (1, 8));
}

#[test]
fn shadowed_argument_implicit_reference_setting() {
    let u = ParamUse {
        name: b"bar".to_vec(),
        decl: 8,
        refs: vec![(0, true)],
        assignments: vec![ParamAssignment {
            offset: 15,
            rhs_uses_param: false,
            is_shorthand: false,
            is_conditional: false,
        }],
    };
    let source = SourceFile::from_bytes("t.rb", b"def foo(bar)\n  bar = 1\n  super\nend\n".to_vec());
    let mut d = Vec::new();
    let mut c = Vec::new();
    let ignore = CopConfig::default().with_option("IgnoreImplicitReferences", ConfigValue::Bool(true));
    ShadowedArgument.check_param(&source, &u, &CopConfig::default(), &mut d, &mut c, false);
    assert!(d.is_empty());
    ShadowedArgument.check_param(&source, &u, &ignore, &mut d, &mut c, false);
    assert!(d.is_empty());
    let u2 = ParamUse { refs: vec![(28, true)], ..u };
    ShadowedArgument.check_param(&source, &u2, &CopConfig::default(), &mut d, &mut c, false);
    assert_eq!(d.len(), 1);
    assert!(!d[0].corrected);
    assert!(c.is_empty());
}
