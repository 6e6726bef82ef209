use nitrocop::cop::lint::empty_block::{BlockOwner, BlockSite, EmptyBlock};
use nitrocop::cop::node::{Comment, ConstantReceiver};
use nitrocop::cop::{ConfigValue, CopConfig};
use nitrocop::diagnostic::Diagnostic;
use nitrocop::parse::source::SourceFile;
use ruby_prism::Visit;

fn constant_receiver(node: &ruby_prism::Node<'_>) -> ConstantReceiver {
    if let Some(c) = node.as_constant_read_node() {
        return ConstantReceiver::Read(String::from_utf8_lossy(c.name().as_slice()).into_owned());
    }
    if let Some(c) = node.as_constant_path_node() {
        return ConstantReceiver::Path {
            has_parent: c.parent().is_some(),
            name: c.name().map(|n| String::from_utf8_lossy(n.as_slice()).into_owned()),
        };
    }
    ConstantReceiver::Other
}

fn body_empty(block: &ruby_prism::BlockNode<'_>) -> bool {
    match block.body() {
        None => true,
        Some(b) => b.as_statements_node().map(|s| s.body().is_empty()).unwrap_or(false),
    }
}

struct Blocks {
    sites: Vec<BlockSite>,
}

impl<'pr> Visit<'pr> for Blocks {
    fn visit_call_node(&mut self, node: &ruby_prism::CallNode<'pr>) {
        if let Some(block) = node.block().and_then(|b| b.as_block_node()) {
            let receiver = node.receiver();
            self.sites.push(BlockSite {
                owner: BlockOwner::Call {
                    name: String::from_utf8_lossy(node.name().as_slice()).into_owned(),
                    has_receiver: receiver.is_some(),
                    receiver: receiver.as_ref().map(constant_receiver).unwrap_or(ConstantReceiver::Other),
                    receiver_has_block: receiver
                        .as_ref()
                        .and_then(|r| r.as_call_node())
                        .map(|c| c.block().is_some())
                        .unwrap_or(false),
                    message_start: node.message_loc().map(|l| l.start() as usize),
                    start: node.location().start() as usize,
                },
                body_empty: body_empty(&block),
                block_start: block.location().start() as usize,
                block_end: block.location().end() as usize,
            });
        }
        ruby_prism::visit_call_node(self, node);
    }

    fn visit_super_node(&mut self, node: &ruby_prism::SuperNode<'pr>) {
        if let Some(block) = node.block().and_then(|b| b.as_block_node()) {
            self.sites.push(BlockSite {
                owner: BlockOwner::Super { start: node.location().start() as usize },
                body_empty: body_empty(&block),
                block_start: block.location().start() as usize,
                block_end: block.location().end() as usize,
            });
        }
        ruby_prism::visit_super_node(self, node);
    }
}

fn run_with(src: &[u8], config: &CopConfig) -> Vec<Diagnostic> {
    let result = ruby_prism::parse(src);
    let mut b = Blocks { sites: Vec::new() };
    b.visit(&result.node());
    let comments: Vec<Comment> = result
        .comments()
        .map(|c| Comment { start: c.location().start() as usize, text: c.location().as_slice().to_vec() })
        .collect();
    let source = SourceFile::from_bytes("test.rb", src.to_vec());
    let mut diags = Vec::new();
    for s in &b.sites {
        EmptyBlock.check_block(&source, config, s, &comments, &mut diags);
    }
    diags
}

fn run(src: &[u8]) -> Vec<Diagnostic> {
    run_with(src, &CopConfig::default())
}

#[test]
fn empty_block_is_reported() {
    let d = run(b"items.each { |x| }\n");
    assert_eq!(d.len(), 1);
    assert_eq!(d[0].message, "Empty block detected.");
    assert_eq!((d[0].location.line, d[0].location.column), (1, 0));
}

#[test]
fn non_empty_block_is_fine() {
    assert!(run(b"items.each { |x| puts x }\n").is_empty());
}

#[test]
fn empty_lambdas_are_allowed_by_default() {
    assert!(run(b"l = lambda {}\np = proc {}\nq = Proc.new {}\n").is_empty());
    let config = CopConfig::default().with_option("AllowEmptyLambdas", ConfigValue::Bool(false));
    assert_eq!(run_with(b"l = lambda {}\n", &config).len(), 1);
}

#[test]
fn comment_in_block_allows_it() {
    assert!(run(b"items.each do |x|\n  # nothing to do\nend\n").is_empty());
    let config = CopConfig::default().with_option("AllowComments", ConfigValue::Bool(false));
    assert_eq!(run_with(b"items.each do |x|\n  # nothing to do\nend\n", &config).len(), 1);
}

#[test]
fn disable_directive_is_not_a_comment() {
    let d = run(b"items.each do |x| # rubocop:disable Lint/EmptyBlock\nend\n");
    assert_eq!(d.len(), 1);
    let d2 = run(b"items.each do |x| # rubocop:todo Style/Foo, all\nend\n");
    assert_eq!(d2.len(), 1);
}

#[test]
fn chained_block_reports_at_method_name() {
    let d = run(b"foo { 1 }.bar { }\n");
    assert_eq!(d.len(), 1);
    assert_eq!((d[0].location.line, d[0].location.column), (1, 10));
}
