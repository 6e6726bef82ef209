use nitrocop::cop::lint::big_decimal_new::{BigDecimalNew, NewCall};
use nitrocop::cop::lint::empty_when::EmptyWhen;
use nitrocop::cop::lint::ensure_return::EnsureReturn;
use nitrocop::cop::node::ConstantReceiver;
use nitrocop::cop::{ConfigValue, CopConfig};
use nitrocop::correction::Correction;
use nitrocop::diagnostic::Diagnostic;
use nitrocop::parse::source::SourceFile;
use ruby_prism::Visit;

fn text(b: &[u8]) -> String {
    String::from_utf8_lossy(b).into_owned()
}

fn apply(src: &str, mut c: Vec<Correction>) -> String {
    c.sort_by_key(|x| std::cmp::Reverse(x.start));
    let mut s = src.to_string();
    for x in c {
        s.replace_range(x.start..x.end, &x.replacement);
    }
    s
}

struct Returns {
    found: Vec<(usize, bool)>,
}

impl<'pr> Visit<'pr> for Returns {
    fn visit_branch_node_enter(&mut self, node: ruby_prism::Node<'pr>) {
        if let Some(r) = node.as_return_node() {
            self.found.push((r.location().start() as usize, r.arguments().is_some()));
        }
    }
    fn visit_leaf_node_enter(&mut self, node: ruby_prism::Node<'pr>) {
        if let Some(r) = node.as_return_node() {
            self.found.push((r.location().start() as usize, r.arguments().is_some()));
        }
    }
}

struct Ensures<'a> {
    source: &'a SourceFile,
    d: Vec<Diagnostic>,
    c: Vec<Correction>,
}

impl<'pr> Visit<'pr> for Ensures<'_> {
    fn visit_begin_node(&mut self, node: &ruby_prism::BeginNode<'pr>) {
        if let Some(st) = node.ensure_clause().and_then(|e| e.statements()) {
            let mut f = Returns { found: vec![] };
            for s in st.body().iter() {
                f.visit(&s);
            }
            EnsureReturn.check_ensure(self.source, &f.found, &mut self.d, &mut self.c, true);
        }
        ruby_prism::visit_begin_node(self, node);
    }
}

fn run_ensure(src: &str) -> (Vec<Diagnostic>, Vec<Correction>) {
    let result = ruby_prism::parse(src.as_bytes());
    let source = SourceFile::from_bytes("test.rb", src.as_bytes().to_vec());
    let mut v = Ensures { source: &source, d: vec![], c: vec![] };
    v.visit(&result.node());
    (v.d, v.c)
}

#[test]
fn ensure_return_flagged_and_corrected() {
    let src = "begin\n  foo\nensure\n  return 1\nend\n";
    let (d, c) = run_ensure(src);
    assert_eq!(d.len(), 1);
    assert_eq!(d[0].message, "Do not return from an `ensure` block.");
    assert_eq!((d[0].location.line, d[0].location.column), (4, 2));
    assert!(d[0].corrected);
    assert_eq!(apply(src, c), "begin\n  foo\nensure\n  1\nend\n");
}

#[test]
fn ensure_bare_return_has_no_edit() {
    let (d, c) = run_ensure("begin\n  foo\nensure\n  return if x\nend\n");
    assert_eq!(d.len(), 1);
    assert!(!d[0].corrected);
    assert!(c.is_empty());
    assert!(run_ensure("begin\n  return 1\nensure\n  bar\nend\n").0.is_empty());
}

struct Whens<'a> {
    source: &'a SourceFile,
    comments: Vec<usize>,
    config: CopConfig,
    d: Vec<Diagnostic>,
}

impl<'pr> Visit<'pr> for Whens<'_> {
    fn visit_when_node(&mut self, node: &ruby_prism::WhenNode<'pr>) {
        let empty = node.statements().map(|s| s.body().is_empty()).unwrap_or(true);
        EmptyWhen.check_when(self.source, node.location().start() as usize, empty, &self.comments, &self.config, &mut self.d);
        ruby_prism::visit_when_node(self, node);
    }
}

fn run_when(src: &str, config: CopConfig) -> Vec<Diagnostic> {
    let result = ruby_prism::parse(src.as_bytes());
    let source = SourceFile::from_bytes("test.rb", src.as_bytes().to_vec());
    let comments = result.comments().map(|c| c.location().start() as usize).collect();
    let mut v = Whens { source: &source, comments, config, d: vec![] };
    v.visit(&result.node());
    v.d
}

#[test]
fn empty_when_flagged() {
    let d = run_when("case x\nwhen 1\nwhen 2\n  foo\nend\n", CopConfig::default());
    assert_eq!(d.len(), 1);
    assert_eq!(d[0].message, "Avoid empty `when` conditions.");
    assert_eq!((d[0].location.line, d[0].location.column), (2, 0));
}

#[test]
fn empty_when_with_comment_allowed() {
    assert!(run_when("case x\nwhen 1 # nothing\nwhen 2\n  foo\nend\n", CopConfig::default()).is_empty());
    assert!(run_when("case x\nwhen 1\n\n  # nothing to do\nwhen 2\n  foo\nend\n", CopConfig::default()).is_empty());
    let no = CopConfig::default().with_option("AllowComments", ConfigValue::Bool(false));
    assert_eq!(run_when("case x\nwhen 1 # nothing\nwhen 2\n  foo\nend\n", no).len(), 1);
}

struct News<'a> {
    source: &'a SourceFile,
    d: Vec<Diagnostic>,
    c: Vec<Correction>,
}

impl<'pr> Visit<'pr> for News<'_> {
    fn visit_call_node(&mut self, node: &ruby_prism::CallNode<'pr>) {
        let receiver = node.receiver().map(|r| {
            let k = if let Some(c) = r.as_constant_read_node() {
                ConstantReceiver::Read(text(c.name().as_slice()))
            } else if let Some(c) = r.as_constant_path_node() {
                ConstantReceiver::Path { has_parent: c.parent().is_some(), name: c.name().map(|n| text(n.as_slice())) }
            } else {
                ConstantReceiver::Other
            };
            (k, r.location().start() as usize, r.location().end() as usize)
        });
        let m = node.message_loc().unwrap_or(node.location());
        let call = NewCall { name: text(node.name().as_slice()), receiver, message: (m.start() as usize, m.end() as usize) };
        BigDecimalNew.check_call(self.source, &call, &mut self.d, &mut self.c, true);
        ruby_prism::visit_call_node(self, node);
    }
}

fn run_new(src: &str) -> (Vec<Diagnostic>, Vec<Correction>) {
    let result = ruby_prism::parse(src.as_bytes());
    let source = SourceFile::from_bytes("test.rb", src.as_bytes().to_vec());
    let mut v = News { source: &source, d: vec![], c: vec![] };
    v.visit(&result.node());
    (v.d, v.c)
}

#[test]
fn big_decimal_new_flagged_and_corrected() {
    let (d, c) = run_new("BigDecimal.new('1.2')\n");
    assert_eq!(d.len(), 1);
    assert_eq!(d[0].message, "`BigDecimal.new()` is deprecated. Use `BigDecimal()` instead.");
    assert_eq!((d[0].location.line, d[0].location.column), (1, 11));
    assert_eq!(apply("BigDecimal.new('1.2')\n", c), "BigDecimal('1.2')\n");
    let (_, c) = run_new("::BigDecimal.new(1)\n");
    assert_eq!(apply("::BigDecimal.new(1)\n", c), "BigDecimal(1)\n");
}

#[test]
fn big_decimal_other_calls_are_fine() {
    assert!(run_new("BigDecimal('1')\nFoo.new(1)\nBigDecimal.build(1)\n").0.is_empty());
}

use nitrocop::cop::lint::regexp_as_condition::RegexpAsCondition;
use nitrocop::cop::lint::top_level_return_with_argument::{TopKind, TopLevelReturnWithArgument, TopNode};
use nitrocop::cop::lint::uri_regexp::{RegexpCall, UriRegexp};

struct TopTree {
    nodes: Vec<TopNode>,
    stack: Vec<usize>,
}

impl<'pr> Visit<'pr> for TopTree {
    fn visit_branch_node_enter(&mut self, node: ruby_prism::Node<'pr>) {
        let i = self.nodes.len();
        let kind = if let Some(r) = node.as_return_node() {
            TopKind::Return { has_args: r.arguments().is_some() }
        } else if node.as_def_node().is_some()
            || node.as_class_node().is_some()
            || node.as_module_node().is_some()
            || node.as_block_node().is_some()
            || node.as_lambda_node().is_some()
            || node.as_singleton_class_node().is_some()
        {
            TopKind::Scope
        } else {
            TopKind::Other
        };
        let l = node.location();
        self.nodes.push(TopNode { start: l.start() as usize, end: l.end() as usize, kind, children: vec![] });
        if let Some(&p) = self.stack.last() {
            self.nodes[p].children.push(i);
        }
        self.stack.push(i);
    }
    fn visit_branch_node_leave(&mut self) {
        self.stack.pop();
    }
}

fn run_top(src: &str, autocorrect: bool) -> (Vec<Diagnostic>, Vec<Correction>) {
    let result = ruby_prism::parse(src.as_bytes());
    let source = SourceFile::from_bytes("test.rb", src.as_bytes().to_vec());
    let mut t = TopTree { nodes: vec![], stack: vec![] };
    t.visit(&result.node());
    let mut d = Vec::new();
    let mut c = Vec::new();
    TopLevelReturnWithArgument.check_source(&source, &t.nodes, &mut d, &mut c, autocorrect);
    (d, c)
}

#[test]
fn top_level_return_with_argument_flagged() {
    let src = "foo\nreturn 1, 2\n";
    let (d, c) = run_top(src, true);
    assert_eq!(d.len(), 1);
    assert_eq!(d[0].message, "Top level return with argument detected.");
    assert_eq!((d[0].location.line, d[0].location.column), (2, 0));
    assert!(d[0].corrected);
    assert_eq!(apply(src, c), "foo\nreturn\n");
    assert_eq!(run_top("return 1 if x\n", false).0.len(), 1);
}

#[test]
fn top_level_return_inside_scopes_is_fine() {
    assert!(run_top("return\n", true).0.is_empty());
    assert!(run_top("def f\n  return 1\nend\n", true).0.is_empty());
    assert!(run_top("foo { return 1 }\n", true).0.is_empty());
    assert!(run_top("-> { return 1 }\nclass A\n  return 1\nend\n", true).0.is_empty());
}

struct Uris<'a> {
    source: &'a SourceFile,
    d: Vec<Diagnostic>,
    c: Vec<Correction>,
}

impl<'pr> Visit<'pr> for Uris<'_> {
    fn visit_call_node(&mut self, node: &ruby_prism::CallNode<'pr>) {
        let receiver = node.receiver().map(|r| {
            let k = if let Some(c) = r.as_constant_read_node() {
                ConstantReceiver::Read(text(c.name().as_slice()))
            } else if let Some(c) = r.as_constant_path_node() {
                ConstantReceiver::Path { has_parent: c.parent().is_some(), name: c.name().map(|n| text(n.as_slice())) }
            } else {
                ConstantReceiver::Other
            };
            (k, r.location().start() as usize, r.location().end() as usize)
        });
        let m = node.message_loc().unwrap_or(node.location());
        let call = RegexpCall {
            name: text(node.name().as_slice()),
            receiver,
            message_start: m.start() as usize,
            span: (node.location().start() as usize, node.location().end() as usize),
            first_arg: node
                .arguments()
                .and_then(|a| a.arguments().iter().next())
                .map(|x| (x.location().start() as usize, x.location().end() as usize)),
        };
        UriRegexp.check_call(self.source, &call, &mut self.d, &mut self.c, true);
        ruby_prism::visit_call_node(self, node);
    }
    fn visit_match_last_line_node(&mut self, node: &ruby_prism::MatchLastLineNode<'pr>) {
        let l = node.location();
        RegexpAsCondition.check_match(self.source, l.start() as usize, l.end() as usize, &mut self.d, &mut self.c, true);
        ruby_prism::visit_match_last_line_node(self, node);
    }
}

fn run_uri(src: &str) -> (Vec<Diagnostic>, Vec<Correction>) {
    let result = ruby_prism::parse(src.as_bytes());
    let source = SourceFile::from_bytes("test.rb", src.as_bytes().to_vec());
    let mut v = Uris { source: &source, d: vec![], c: vec![] };
    v.visit(&result.node());
    (v.d, v.c)
}

#[test]
fn uri_regexp_flagged_and_corrected() {
    let (d, c) = run_uri("URI.regexp('http')\n");
    assert_eq!(d.len(), 1);
    assert_eq!(d[0].message, "`URI.regexp` is obsolete and should not be used.");
    assert_eq!((d[0].location.line, d[0].location.column), (1, 4));
    assert_eq!(apply("URI.regexp('http')\n", c), "URI::DEFAULT_PARSER.make_regexp('http')\n");
    let (_, c) = run_uri("::URI.regexp\n");
    assert_eq!(apply("::URI.regexp\n", c), "::URI::DEFAULT_PARSER.make_regexp\n");
    assert!(run_uri("Foo.regexp\nURI.parse(x)\n").0.is_empty());
}

#[test]
fn regexp_as_condition_flagged_and_corrected() {
    let src = "if /foo/\n  bar\nend\n";
    let (d, c) = run_uri(src);
    assert_eq!(d.len(), 1);
    assert_eq!(d[0].message, "Do not use regexp literal as a condition. The regexp literal matches `$_` implicitly.");
    assert_eq!((d[0].location.line, d[0].location.column), (1, 3));
    assert_eq!(apply(src, c), "if /foo/ =~ $_\n  bar\nend\n");
    assert!(run_uri("if x =~ /foo/\nend\n").0.is_empty());
}
