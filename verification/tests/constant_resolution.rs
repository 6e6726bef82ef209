use nitrocop::cop::lint::constant_resolution::ConstantResolution;
use nitrocop::cop::{ConfigValue, CopConfig};
use nitrocop::diagnostic::Diagnostic;
use nitrocop::parse::source::SourceFile;
use ruby_prism::Visit;

struct Walk<'a> {
    source: &'a SourceFile,
    config: &'a CopConfig,
    def_names: Vec<(usize, usize)>,
    d: Vec<Diagnostic>,
}

fn range(n: &ruby_prism::Node<'_>) -> (usize, usize) {
    (n.location().start() as usize, n.location().end() as usize)
}

impl<'pr> Visit<'pr> for Walk<'_> {
    fn visit_class_node(&mut self, node: &ruby_prism::ClassNode<'pr>) {
        let cp = node.constant_path();
        let simple = cp.as_constant_read_node().is_some();
        if simple {
            self.def_names.push(range(&cp));
        }
        let sup = node.superclass().filter(|s| s.as_constant_read_node().is_some());
        if let Some(s) = &sup {
            self.def_names.push(range(s));
        }
        ruby_prism::visit_class_node(self, node);
        if sup.is_some() {
            self.def_names.pop();
        }
        if simple {
            self.def_names.pop();
        }
    }
    fn visit_module_node(&mut self, node: &ruby_prism::ModuleNode<'pr>) {
        let cp = node.constant_path();
        let simple = cp.as_constant_read_node().is_some();
        if simple {
            self.def_names.push(range(&cp));
        }
        ruby_prism::visit_module_node(self, node);
        if simple {
            self.def_names.pop();
        }
    }
    fn visit_constant_read_node(&mut self, node: &ruby_prism::ConstantReadNode<'pr>) {
        let name = std::str::from_utf8(node.name().as_slice()).unwrap_or("").to_string();
        ConstantResolution.check_constant(
            self.source,
            &name,
            node.location().start() as usize,
            &self.def_names,
            self.config,
            &mut self.d,
        );
    }
    fn visit_constant_path_write_node(&mut self, node: &ruby_prism::ConstantPathWriteNode<'pr>) {
        let t = node.target();
        self.def_names.push((t.location().start() as usize, t.location().end() as usize));
        ruby_prism::visit_constant_path_write_node(self, node);
        self.def_names.pop();
    }
}

fn run_cop_full_with_config(src: &[u8], config: CopConfig) -> Vec<Diagnostic> {
    let result = ruby_prism::parse(src);
    let source = SourceFile::from_bytes("test.rb", src.to_vec());
    let mut w = Walk { source: &source, config: &config, def_names: Vec::new(), d: Vec::new() };
    w.visit(&result.node());
    w.d
}

fn list(key: &str, values: Vec<&str>) -> CopConfig {
    CopConfig::default().with_option(key, ConfigValue::List(values.into_iter().map(String::from).collect()))
}

#[test]
fn empty_only_flags_all_constants() {
    assert_eq!(run_cop_full_with_config(b"Foo\nBar\n", list("Only", vec![])).len(), 2);
}

#[test]
fn only_restricts_to_listed_constants() {
    let diags = run_cop_full_with_config(b"Foo\nBar\n", list("Only", vec!["Foo"]));
    assert_eq!(diags.len(), 1);
    assert!(diags[0].message.contains("Fully qualify"));
}

#[test]
fn only_with_no_match_produces_no_offenses() {
    assert!(run_cop_full_with_config(b"Foo\nBar\n", list("Only", vec!["Baz"])).is_empty());
}

#[test]
fn ignore_suppresses_listed_constants() {
    assert_eq!(run_cop_full_with_config(b"Foo\nBar\n", list("Ignore", vec!["Foo"])).len(), 1);
}

#[test]
fn definition_names_are_not_flagged() {
    let d = run_cop_full_with_config(b"class Foo < Bar\n  Baz\nend\nA::B = 1\n", CopConfig::default());
    assert_eq!(d.len(), 1);
    assert_eq!(d[0].location.line, 2);
}
