use nitrocop::cop::factory_bot::factory_class_name::{ClassPair, ClassValue, FactoryClassName};
use nitrocop::cop::factory_bot::factory_name_style::{FactoryNameCall, FactoryNameStyle, NameArg};
use nitrocop::cop::factory_bot::syntax_methods::{SyntaxCall, SyntaxMethods};
use nitrocop::cop::node::ConstantReceiver;
use nitrocop::cop::{ConfigValue, CopConfig};
use nitrocop::correction::{Correction, CorrectionSet};
use nitrocop::diagnostic::Diagnostic;
use nitrocop::parse::source::SourceFile;
use ruby_prism::Visit;

fn text(b: &[u8]) -> String {
    String::from_utf8_lossy(b).into_owned()
}

fn receiver(n: &ruby_prism::Node<'_>) -> ConstantReceiver {
    if let Some(c) = n.as_constant_read_node() {
        return ConstantReceiver::Read(text(c.name().as_slice()));
    }
    if let Some(c) = n.as_constant_path_node() {
        return ConstantReceiver::Path {
            has_parent: c.parent().is_some(),
            name: c.name().map(|x| text(x.as_slice())),
        };
    }
    ConstantReceiver::Other
}

fn class_pairs(call: &ruby_prism::CallNode<'_>) -> Vec<ClassPair> {
    let mut out = Vec::new();
    if let Some(args) = call.arguments() {
        for arg in args.arguments().iter() {
            let elems: Vec<ruby_prism::Node<'_>> = if let Some(h) = arg.as_keyword_hash_node() {
                h.elements().iter().collect()
            } else if let Some(h) = arg.as_hash_node() {
                h.elements().iter().collect()
            } else {
                continue;
            };
            for e in elems {
                if let Some(p) = e.as_assoc_node() {
                    let key = p.key().as_symbol_node().map(|s| s.unescaped().to_vec());
                    let v = p.value();
                    let name = if let Some(c) = v.as_constant_read_node() {
                        Some(Some(text(c.name().as_slice())))
                    } else if let Some(c) = v.as_constant_path_node() {
                        Some(c.name().map(|x| text(x.as_slice())))
                    } else {
                        None
                    };
                    let value = match name {
                        Some(name) => ClassValue::Constant {
                            start: v.location().start() as usize,
                            end: v.location().end() as usize,
                            name,
                        },
                        None => ClassValue::Other,
                    };
                    out.push(ClassPair { key, value });
                }
            }
        }
    }
    out
}

fn name_arg(call: &ruby_prism::CallNode<'_>) -> Option<NameArg> {
    let args = call.arguments()?;
    let first = args.arguments().iter().next()?;
    let (start, end) = (first.location().start() as usize, first.location().end() as usize);
    Some(if let Some(s) = first.as_string_node() {
        NameArg::Str { start, end, value: s.unescaped().to_vec() }
    } else if let Some(s) = first.as_symbol_node() {
        NameArg::Sym { start, end, value: s.unescaped().to_vec() }
    } else {
        NameArg::Other
    })
}

#[derive(Default)]
struct Facts {
    class_calls: Vec<(String, Vec<ClassPair>)>,
    name_calls: Vec<FactoryNameCall>,
    syntax_calls: Vec<SyntaxCall>,
    in_example_group: bool,
}

impl<'pr> Visit<'pr> for Facts {
    fn visit_call_node(&mut self, node: &ruby_prism::CallNode<'pr>) {
        let name = text(node.name().as_slice());
        self.class_calls.push((name.clone(), class_pairs(node)));
        self.name_calls.push(FactoryNameCall {
            name: name.clone(),
            receiver: node.receiver().map(|r| receiver(&r)),
            first_arg: name_arg(node),
        });
        self.syntax_calls.push(SyntaxCall {
            name: name.clone(),
            receiver: node.receiver().map(|r| (receiver(&r), r.location().start() as usize)),
            start: node.location().start() as usize,
            selector: node.message_loc().map(|l| l.start() as usize),
            in_example_group: self.in_example_group,
        });
        let opens = SyntaxMethods::opens_example_group(
            &name,
            &node.receiver().map(|r| receiver(&r)),
            node.block().is_some(),
        );
        let was = self.in_example_group;
        if opens {
            self.in_example_group = true;
        }
        ruby_prism::visit_call_node(self, node);
        self.in_example_group = was;
    }
}

fn run(src: &[u8], config: &CopConfig) -> (Vec<Diagnostic>, Vec<Correction>) {
    let result = ruby_prism::parse(src);
    let mut f = Facts::default();
    f.visit(&result.node());
    let source = SourceFile::from_bytes("spec/factories.rb", src.to_vec());
    let mut d = Vec::new();
    let mut c = Vec::new();
    for (name, pairs) in &f.class_calls {
        FactoryClassName.check_call(&source, name, pairs, &mut d, &mut c, true);
    }
    for call in &f.name_calls {
        FactoryNameStyle.check_call(&source, call, config, &mut d, &mut c, true);
    }
    for call in &f.syntax_calls {
        SyntaxMethods.check_call(&source, call, &mut d, &mut c, true);
    }
    (d, c)
}

fn assert_cop_autocorrect(input: &[u8], expected: &[u8]) {
    let (_d, c) = run(input, &CopConfig::default());
    assert_eq!(CorrectionSet::from_vec(c).apply(input), expected.to_vec());
}

#[test]
fn autocorrects_constant_class_option_to_string() {
    assert_cop_autocorrect(
        b"factory :foo, class: Foo do\nend\n",
        b"factory :foo, class: 'Foo' do\nend\n",
    );
}

#[test]
fn factory_class_name_message_and_allowed_constants() {
    let (d, _) = run(b"factory :foo, class: Foo::Bar do\nend\n", &CopConfig::default());
    assert_eq!(d.len(), 1);
    assert_eq!(d[0].message, "Pass 'Foo::Bar' string instead of `Foo::Bar` constant.");
    assert!(run(b"factory :foo, class: Hash do\nend\n", &CopConfig::default()).0.is_empty());
    assert!(run(b"factory :foo, class: 'Foo' do\nend\n", &CopConfig::default()).0.is_empty());
}

#[test]
fn autocorrects_string_factory_name_to_symbol_style() {
    assert_cop_autocorrect(b"create('user')\n", b"create(:user)\n");
}

#[test]
fn factory_name_style_quoted_symbol_and_string_style() {
    assert_cop_autocorrect(b"create('admin user')\n", b"create(:\"admin user\")\n");
    assert!(run(b"create('users/admin')\n", &CopConfig::default()).0.is_empty());
    let config = CopConfig::default().with_option("EnforcedStyle", ConfigValue::Str("string".into()));
    let (d, c) = run(b"build(:user)\n", &config);
    assert_eq!(d.len(), 1);
    assert_eq!(d[0].message, "Use string to refer to a factory.");
    assert_eq!(CorrectionSet::from_vec(c).apply(b"build(:user)\n"), b"build(\"user\")\n".to_vec());
    let explicit = CopConfig::default().with_option("ExplicitOnly", ConfigValue::Bool(true));
    assert!(run(b"create('user')\n", &explicit).0.is_empty());
    assert_eq!(run(b"FactoryBot.create('user')\n", &explicit).0.len(), 1);
}

#[test]
fn autocorrects_factory_bot_receiver_prefix() {
    assert_cop_autocorrect(
        b"RSpec.describe Foo do\n  let(:bar) { FactoryBot.create(:bar) }\nend\n",
        b"RSpec.describe Foo do\n  let(:bar) { create(:bar) }\nend\n",
    );
}

#[test]
fn syntax_methods_outside_example_group_is_ignored() {
    let (d, _) = run(b"FactoryBot.create(:bar)\n", &CopConfig::default());
    assert!(d.iter().all(|x| x.cop_name != "FactoryBot/SyntaxMethods"));
    let (d, _) = run(b"describe Foo do\n  FactoryBot.build(:bar)\nend\n", &CopConfig::default());
    let s: Vec<_> = d.iter().filter(|x| x.cop_name == "FactoryBot/SyntaxMethods").collect();
    assert_eq!(s.len(), 1);
    assert_eq!(s[0].message, "Use `build` from `FactoryBot::Syntax::Methods`.");
}
