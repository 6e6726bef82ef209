use nitrocop::cop::lint::redundant_require_statement::{PpUse, RedundantRequireStatement, RequireCall};
use nitrocop::cop::node::ConstantReceiver;
use nitrocop::cop::{ConfigValue, CopConfig};
use nitrocop::diagnostic::Diagnostic;
use nitrocop::parse::source::SourceFile;
use ruby_prism::Visit;

fn constant_receiver(node: &ruby_prism::Node<'_>) -> ConstantReceiver {
    if let Some(c) = node.as_constant_read_node() {
        return ConstantReceiver::Read(String::from_utf8_lossy(c.name().as_slice()).into_owned());
    }
    if let Some(c) = node.as_constant_path_node() {
        return ConstantReceiver::Path {
            has_parent: c.parent().is_some(),
            name: c.name().map(|n| String::from_utf8_lossy(n.as_slice()).into_owned()),
        };
    }
    ConstantReceiver::Other
}

#[derive(Default)]
struct Calls {
    requires: Vec<RequireCall>,
    uses: Vec<PpUse>,
}

impl<'pr> Visit<'pr> for Calls {
    fn visit_call_node(&mut self, node: &ruby_prism::CallNode<'pr>) {
        let name = String::from_utf8_lossy(node.name().as_slice()).into_owned();
        let args = node
            .arguments()
            .map(|a| a.arguments().iter().map(|x| x.as_string_node().map(|s| s.unescaped().to_vec())).collect())
            .unwrap_or_default();
        self.requires.push(RequireCall {
            start: node.location().start() as usize,
            name: name.clone(),
            has_receiver: node.receiver().is_some(),
            args,
        });
        self.uses.push(PpUse {
            name,
            receiver: node.receiver().map(|r| constant_receiver(&r)).unwrap_or(ConstantReceiver::Other),
        });
        ruby_prism::visit_call_node(self, node);
    }
}

fn run(src: &str, config: CopConfig) -> Vec<Diagnostic> {
    let result = ruby_prism::parse(src.as_bytes());
    let source = SourceFile::from_bytes("test.rb", src.as_bytes().to_vec());
    let mut c = Calls::default();
    c.visit(&result.node());
    let mut d = Vec::new();
    RedundantRequireStatement.check_source(&source, &c.requires, &c.uses, &config, &mut d);
    d
}

fn version(a: u64, b: u64) -> CopConfig {
    CopConfig::default().with_option("TargetRubyVersion", ConfigValue::Version(a, b))
}

#[test]
fn redundant_require_enumerator_always() {
    let d = run("require 'enumerator'\n", version(2, 0));
    assert_eq!(d.len(), 1);
    assert_eq!(d[0].message, "Remove unnecessary `require` statement.");
    assert_eq!((d[0].location.line, d[0].location.column), (1, 0));
}

#[test]
fn redundant_require_depends_on_version() {
    assert!(run("require 'set'\n", version(3, 1)).is_empty());
    assert_eq!(run("require 'set'\n", version(3, 2)).len(), 1);
    assert!(run("require 'fiber'\n", CopConfig::default()).is_empty());
    assert_eq!(run("require 'thread'\nrequire 'ruby2_keywords'\n", CopConfig::default()).len(), 2);
    assert_eq!(run("require 'fiber'\n", CopConfig::default().with_option("TargetRubyVersion", ConfigValue::Int(4))).len(), 1);
}

#[test]
fn redundant_require_pp_unless_used() {
    assert_eq!(run("require 'pp'\n", CopConfig::default()).len(), 1);
    assert!(run("require 'pp'\nx.pretty_inspect\n", CopConfig::default()).is_empty());
    assert!(run("require 'pp'\nPP.pp(x)\n", CopConfig::default()).is_empty());
    assert!(run("require 'pp'\n::PP.pp(x)\n", CopConfig::default()).is_empty());
    assert!(run("require 'pp'\n", version(2, 4)).is_empty());
}

#[test]
fn redundant_require_ignores_other_forms() {
    assert!(run("require 'json'\n", CopConfig::default()).is_empty());
    assert!(run("Kernel.require 'enumerator'\n", CopConfig::default()).is_empty());
    assert!(run("require 'enumerator', 'x'\n", CopConfig::default()).is_empty());
    assert!(run("require_relative 'enumerator'\n", CopConfig::default()).is_empty());
}

#[test]
fn redundant_require_nested_position() {
    let d = run("if x\n  require \"enumerator\"\nend\n", CopConfig::default());
    assert_eq!(d.len(), 1);
    assert_eq!((d[0].location.line, d[0].location.column), (2, 2));
}

#[test]
fn redundant_require_feature_table() {
    let c = RedundantRequireStatement;
    assert!(c.is_redundant_feature(&b"rational".to_vec(), (2, 2)));
    assert!(!c.is_redundant_feature(&b"rational".to_vec(), (2, 1)));
    assert!(c.is_redundant_feature(&b"complex".to_vec(), (3, 0)));
    assert!(!c.is_redundant_feature(&b"json".to_vec(), (9, 9)));
}
