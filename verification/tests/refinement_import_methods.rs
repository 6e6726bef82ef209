use nitrocop::cop::lint::refinement_import_methods::{BodyCall, RefineCall, RefinementImportMethods};
use nitrocop::cop::{ConfigValue, CopConfig};
use nitrocop::diagnostic::Diagnostic;
use nitrocop::parse::source::SourceFile;
use ruby_prism::Visit;

fn text(b: &[u8]) -> String {
    String::from_utf8_lossy(b).into_owned()
}

#[derive(Default)]
struct Calls {
    calls: Vec<RefineCall>,
}

impl<'pr> Visit<'pr> for Calls {
    fn visit_call_node(&mut self, node: &ruby_prism::CallNode<'pr>) {
        let body = node
            .block()
            .and_then(|b| b.as_block_node())
            .and_then(|b| b.body())
            .and_then(|b| b.as_statements_node())
            .map(|st| {
                st.body()
                    .iter()
                    .map(|s| {
                        s.as_call_node().map(|c| BodyCall {
                            name: text(c.name().as_slice()),
                            has_receiver: c.receiver().is_some(),
                            message_start: c.message_loc().unwrap_or(c.location()).start() as usize,
                        })
                    })
                    .collect()
            });
        self.calls.push(RefineCall { name: text(node.name().as_slice()), has_receiver: node.receiver().is_some(), body });
        ruby_prism::visit_call_node(self, node);
    }
}

fn run(src: &[u8], config: CopConfig) -> Vec<Diagnostic> {
    let result = ruby_prism::parse(src);
    let source = SourceFile::from_bytes("test.rb", src.to_vec());
    let mut c = Calls::default();
    c.visit(&result.node());
    let mut d = Vec::new();
    for call in &c.calls {
        RefinementImportMethods.check_call(&source, call, &config, &mut d);
    }
    d
}

fn ruby(a: u64, b: u64) -> CopConfig {
    CopConfig::default().with_option("TargetRubyVersion", ConfigValue::Version(a, b))
}

#[test]
fn offense_with_ruby31() {
    let src = b"refine Foo do\n  include Bar\nend\n\nrefine Foo do\n  prepend Bar\nend\n";
    let d = run(src, ruby(3, 1));
    assert_eq!(d.len(), 2);
    assert_eq!(d[0].message, "Use `import_methods` instead of `include` because it is deprecated in Ruby 3.1.");
    assert_eq!((d[0].location.line, d[0].location.column), (2, 2));
    assert_eq!(d[1].message, "Use `import_methods` instead of `prepend` because it is deprecated in Ruby 3.1.");
    assert_eq!((d[1].location.line, d[1].location.column), (6, 2));
}

#[test]
fn no_offense_fixture() {
    let src = b"refine Foo do\n  import_methods Bar\nend\n\ninclude Bar\n\nrefine Foo do\n  foo.include Bar\n  if x\n    include Bar\n  end\nend\n\nx.refine Foo do\n  include Bar\nend\n";
    assert!(run(src, ruby(3, 1)).is_empty());
}

#[test]
fn no_offense_below_ruby31() {
    assert!(run(b"refine Foo do\n  include Bar\nend\n", ruby(3, 0)).is_empty());
}

#[test]
fn refinement_default_version_is_below_31() {
    assert!(run(b"refine Foo do\n  include Bar\nend\n", CopConfig::default()).is_empty());
    assert_eq!(run(b"refine Foo do\n  include Bar\nend\n", ruby(4, 0)).len(), 1);
}
