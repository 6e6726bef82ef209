use nitrocop::cop::lint::erb_new_arguments::{ErbArg, ErbCall, ErbNewArguments};
use nitrocop::cop::node::ConstantReceiver;
use nitrocop::correction::Correction;
use nitrocop::diagnostic::Diagnostic;
use nitrocop::parse::source::SourceFile;
use ruby_prism::Visit;

fn text(b: &[u8]) -> String {
    String::from_utf8_lossy(b).into_owned()
}

fn receiver(node: &ruby_prism::Node<'_>) -> ConstantReceiver {
    if let Some(c) = node.as_constant_read_node() {
        return ConstantReceiver::Read(text(c.name().as_slice()));
    }
    if let Some(c) = node.as_constant_path_node() {
        return ConstantReceiver::Path { has_parent: c.parent().is_some(), name: c.name().map(|n| text(n.as_slice())) };
    }
    ConstantReceiver::Other
}

#[derive(Default)]
struct Calls {
    calls: Vec<ErbCall>,
}

impl<'pr> Visit<'pr> for Calls {
    fn visit_call_node(&mut self, node: &ruby_prism::CallNode<'pr>) {
        let args = node.arguments().map(|a| {
            a.arguments()
                .iter()
                .map(|x| ErbArg {
                    start: x.location().start() as usize,
                    end: x.location().end() as usize,
                    is_hash: x.as_hash_node().is_some() || x.as_keyword_hash_node().is_some(),
                    is_keyword_hash: x.as_keyword_hash_node().is_some(),
                })
                .collect()
        });
        self.calls.push(ErbCall { name: text(node.name().as_slice()), receiver: node.receiver().map(|r| receiver(&r)), args });
        ruby_prism::visit_call_node(self, node);
    }
}

fn run(src: &str) -> (Vec<Diagnostic>, Vec<Correction>) {
    let result = ruby_prism::parse(src.as_bytes());
    let source = SourceFile::from_bytes("test.rb", src.as_bytes().to_vec());
    let mut c = Calls::default();
    c.visit(&result.node());
    let mut d = Vec::new();
    let mut corr = Vec::new();
    for call in &c.calls {
        ErbNewArguments.check_call(&source, call, &mut d, &mut corr, true);
    }
    (d, corr)
}

#[test]
fn erb_new_flags_each_positional_argument() {
    let src = "ERB.new(str, nil, '-', '@output_buffer')\n";
    let (d, c) = run(src);
    assert_eq!(d.len(), 3);
    assert_eq!(
        d[0].message,
        "Passing safe_level with the 2nd argument of `ERB.new` is deprecated. Do not use it, and specify other arguments as keyword arguments."
    );
    assert_eq!((d[0].location.line, d[0].location.column), (1, 13));
    assert_eq!(
        d[1].message,
        "Passing trim_mode with the 3rd argument of `ERB.new` is deprecated. Use keyword argument like `ERB.new(str, trim_mode: '-')` instead."
    );
    assert_eq!(
        d[2].message,
        "Passing eoutvar with the 4th argument of `ERB.new` is deprecated. Use keyword argument like `ERB.new(str, eoutvar: '@output_buffer')` instead."
    );
    assert_eq!(c.len(), 3);
    let mut fixed = src.to_string();
    fixed.replace_range(c[0].start..c[0].end, &c[0].replacement);
    assert_eq!(fixed, "ERB.new(str, trim_mode: '-', eoutvar: '@output_buffer')\n");
    assert!(d.iter().all(|x| x.corrected));
}

#[test]
fn erb_new_accepted_forms() {
    assert!(run("ERB.new(str)\n").0.is_empty());
    assert!(run("ERB.new(str, trim_mode: '-')\n").0.is_empty());
    assert!(run("Foo.new(str, nil)\n").0.is_empty());
    assert!(run("ERB.build(str, nil)\n").0.is_empty());
}

#[test]
fn erb_new_hash_arguments_are_skipped() {
    let (d, c) = run("::ERB.new(str, nil, trim_mode: '-')\n");
    assert_eq!(d.len(), 1);
    let mut fixed = "::ERB.new(str, nil, trim_mode: '-')\n".to_string();
    fixed.replace_range(c[0].start..c[0].end, &c[0].replacement);
    assert_eq!(fixed, "::ERB.new(str)\n");
}

#[test]
fn erb_new_without_autocorrect() {
    let src = "ERB.new(str, 1)\n";
    let source = SourceFile::from_bytes("t.rb", src.as_bytes().to_vec());
    let call = ErbCall {
        name: "new".to_string(),
        receiver: Some(ConstantReceiver::Read("ERB".to_string())),
        args: Some(vec![
            ErbArg { start: 8, end: 11, is_hash: false, is_keyword_hash: false },
            ErbArg { start: 13, end: 14, is_hash: false, is_keyword_hash: false },
        ]),
    };
    let mut d = Vec::new();
    let mut c = Vec::new();
    ErbNewArguments.check_call(&source, &call, &mut d, &mut c, false);
    assert_eq!(d.len(), 1);
    assert!(!d[0].corrected);
    assert!(c.is_empty());
}
