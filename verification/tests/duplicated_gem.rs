use nitrocop::cop::bundler::duplicated_gem::{AncestorKind, DuplicatedGem, GemDeclaration};
use nitrocop::diagnostic::Diagnostic;
use nitrocop::parse::source::SourceFile;
use ruby_prism::Visit;

fn transparent(node: &ruby_prism::Node<'_>) -> bool {
    if node.as_statements_node().is_some()
        || node.as_begin_node().is_some()
        || node.as_else_node().is_some()
        || node.as_program_node().is_some()
        || node.as_call_node().is_some()
        || node.as_arguments_node().is_some()
    {
        return true;
    }
    if let Some(b) = node.as_block_node() {
        return b.body().and_then(|x| x.as_statements_node()).is_some_and(|s| s.body().len() == 1);
    }
    false
}

struct Walk {
    decls: Vec<GemDeclaration>,
    ancestors: Vec<AncestorKind>,
    next_root: usize,
    pending_elsif_root: Option<usize>,
}

impl Walk {
    fn set_top(&mut self, k: AncestorKind) {
        if let Some(last) = self.ancestors.last_mut() {
            *last = k;
        }
    }
    fn next_id(&mut self) -> usize {
        let id = self.next_root;
        self.next_root += 1;
        id
    }
}

impl<'pr> Visit<'pr> for Walk {
    fn visit_branch_node_enter(&mut self, node: ruby_prism::Node<'pr>) {
        let k = if transparent(&node) { AncestorKind::BeginLike } else { AncestorKind::Block };
        self.ancestors.push(k);
    }
    fn visit_branch_node_leave(&mut self) {
        self.ancestors.pop();
    }
    fn visit_if_node(&mut self, node: &ruby_prism::IfNode<'pr>) {
        if node.end_keyword_loc().is_none() {
            self.set_top(AncestorKind::BeginLike);
            self.visit(&node.predicate());
            if let Some(st) = node.statements() {
                for s in st.body().iter() {
                    self.visit(&s);
                }
            }
            return;
        }
        let id = match self.pending_elsif_root {
            Some(id) => id,
            None => self.next_id(),
        };
        self.set_top(AncestorKind::If(id));
        self.visit(&node.predicate());
        if let Some(st) = node.statements() {
            for s in st.body().iter() {
                self.visit(&s);
            }
        }
        if let Some(sub) = node.subsequent() {
            let prev = self.pending_elsif_root;
            self.pending_elsif_root = if sub.as_if_node().is_some() { Some(id) } else { None };
            self.visit(&sub);
            self.pending_elsif_root = prev;
        }
    }
    fn visit_case_node(&mut self, node: &ruby_prism::CaseNode<'pr>) {
        let id = self.next_id();
        self.set_top(AncestorKind::Case(id));
        ruby_prism::visit_case_node(self, node);
    }
    fn visit_when_node(&mut self, node: &ruby_prism::WhenNode<'pr>) {
        let root = self.ancestors.iter().rev().find_map(|f| match f {
            AncestorKind::Case(id) => Some(*id),
            _ => None,
        });
        self.set_top(root.map(AncestorKind::When).unwrap_or(AncestorKind::Block));
        ruby_prism::visit_when_node(self, node);
    }
    fn visit_call_node(&mut self, node: &ruby_prism::CallNode<'pr>) {
        if node.receiver().is_none() && node.name().as_slice() == b"gem" {
            let name = node
                .arguments()
                .and_then(|a| a.arguments().iter().next())
                .and_then(|f| f.as_string_node().map(|s| s.unescaped().to_vec()));
            if let Some(name) = name {
                let loc = node.message_loc().unwrap_or(node.location());
                let (root, blocks) = DuplicatedGem::nearest_conditional_root(&self.ancestors);
                self.decls.push(GemDeclaration {
                    name,
                    offset: loc.start() as usize,
                    conditional_root: root,
                    blocks_above_conditional: blocks,
                });
            }
        }
        ruby_prism::visit_call_node(self, node);
    }
}

fn run(src: &[u8]) -> Vec<Diagnostic> {
    let result = ruby_prism::parse(src);
    let mut w = Walk { decls: Vec::new(), ancestors: Vec::new(), next_root: 1, pending_elsif_root: None };
    w.visit(&result.node());
    let source = SourceFile::from_bytes("Gemfile", src.to_vec());
    let mut d = Vec::new();
    DuplicatedGem.check_declarations(&source, &w.decls, &mut d);
    d
}

#[test]
fn duplicated_gem_reported_at_repeat() {
    let d = run(b"gem 'rubocop'\ngem 'rails'\ngem 'rubocop'\n");
    assert_eq!(d.len(), 1);
    assert_eq!(d[0].message, "Gem `rubocop` requirements already given on line 1 of the Gemfile.");
    assert_eq!((d[0].location.line, d[0].location.column), (3, 0));
}

#[test]
fn gems_in_branches_of_one_conditional_are_allowed() {
    assert!(run(b"if ENV['X']\n  gem 'a'\nelse\n  gem 'a'\nend\n").is_empty());
    assert!(run(b"case x\nwhen 1\n  gem 'a'\nwhen 2\n  gem 'a'\nend\n").is_empty());
    assert_eq!(run(b"gem 'a'\nif x\n  gem 'a'\nend\n").len(), 1);
}

#[test]
fn groups_come_in_order_of_first_declaration() {
    let d = run(b"gem 'a'\ngem 'b'\ngem 'a'\ngem 'b'\ngem 'a'\n");
    assert_eq!(d.len(), 3);
    assert_eq!(d[0].location.line, 3);
    assert_eq!(d[1].location.line, 5);
    assert_eq!(d[2].location.line, 4);
}
